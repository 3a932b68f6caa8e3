//! Vocabulary for the decoders that build on this library: how an object
//! refers to another, and the text encodings that a drawing may name.

use vstd::prelude::*;

verus! {

/// How an object holds a reference to another.
#[derive(Clone, Copy, Debug, PartialEq, Eq, Structural)]
pub enum RefType {
    SoftOwned,
    HardOwned,
    SoftPointer,
    HardPointer,
}

/// A text encoding, in the order of the ordinals by which a drawing names
/// it.
#[allow(non_camel_case_types)]
#[derive(Clone, Copy, Debug, PartialEq, Eq, Structural)]
pub enum CodePage {
    UTF8,
    USAscii,
    ISO8859_1,
    ISO8859_2,
    ISO8859_3,
    ISO8859_4,
    ISO8859_5,
    ISO8859_6,
    ISO8859_7,
    ISO8859_8,
    ISO8859_9,
    /// Dos English
    CP437,
    /// Dos Latin 1
    CP850,
    /// Dos Central European
    CP852,
    /// Dos Cyrillic
    CP855,
    /// Dos Turkish
    CP857,
    /// Dos Portuguese
    CP860,
    /// Dos Icelandic
    CP861,
    /// Dos Hebrew
    CP863,
    /// Dos Arabic IBM
    CP864,
    /// Dos Nordic
    CP865,
    /// Dos Greek
    CP869,
    /// Dos Japanese
    CP932,
    Macintosh,
    BIG5,
    CP949,
    JOHAB,
    /// Russian
    CP866,
    /// Windows Central
    ANSI1250,
    /// Windows Cyrillic
    ANSI1251,
    /// Windows Western European
    ANSI1252,
    /// Windows EUC-CN Chinese
    GB2312,
    /// Windows Greek
    ANSI1253,
    /// Windows Turkish
    ANSI1254,
    /// Windows Hebrew
    ANSI1255,
    /// Windows Arabic
    ANSI1256,
    /// Windows Baltic
    ANSI1257,
    /// Windows Thai
    ANSI874,
    /// Windows Japanese
    ANSI932,
    /// Windows Simplified Chinese
    ANSI936,
    /// Windows Korean Wansung
    ANSI949,
    /// Windows Trad Chinese
    ANSI950,
    /// Windows Korean Wansung
    ANSI1361,
    /// Default Since R2007
    UTF16,
    /// Windows Vietnamese
    ANSI1258,
}

impl CodePage {
    /// The ordinal that names the encoding.
    pub open spec fn ordinal(self) -> u16 {
        match self {
            CodePage::UTF8 => 0,
            CodePage::USAscii => 1,
            CodePage::ISO8859_1 => 2,
            CodePage::ISO8859_2 => 3,
            CodePage::ISO8859_3 => 4,
            CodePage::ISO8859_4 => 5,
            CodePage::ISO8859_5 => 6,
            CodePage::ISO8859_6 => 7,
            CodePage::ISO8859_7 => 8,
            CodePage::ISO8859_8 => 9,
            CodePage::ISO8859_9 => 10,
            CodePage::CP437 => 11,
            CodePage::CP850 => 12,
            CodePage::CP852 => 13,
            CodePage::CP855 => 14,
            CodePage::CP857 => 15,
            CodePage::CP860 => 16,
            CodePage::CP861 => 17,
            CodePage::CP863 => 18,
            CodePage::CP864 => 19,
            CodePage::CP865 => 20,
            CodePage::CP869 => 21,
            CodePage::CP932 => 22,
            CodePage::Macintosh => 23,
            CodePage::BIG5 => 24,
            CodePage::CP949 => 25,
            CodePage::JOHAB => 26,
            CodePage::CP866 => 27,
            CodePage::ANSI1250 => 28,
            CodePage::ANSI1251 => 29,
            CodePage::ANSI1252 => 30,
            CodePage::GB2312 => 31,
            CodePage::ANSI1253 => 32,
            CodePage::ANSI1254 => 33,
            CodePage::ANSI1255 => 34,
            CodePage::ANSI1256 => 35,
            CodePage::ANSI1257 => 36,
            CodePage::ANSI874 => 37,
            CodePage::ANSI932 => 38,
            CodePage::ANSI936 => 39,
            CodePage::ANSI949 => 40,
            CodePage::ANSI950 => 41,
            CodePage::ANSI1361 => 42,
            CodePage::UTF16 => 43,
            CodePage::ANSI1258 => 44,
        }
    }

    /// The ordinal that names the encoding.
    pub fn repr(self) -> (r: u16)
        ensures
            r == self.ordinal(),
    {
        match self {
            CodePage::UTF8 => 0,
            CodePage::USAscii => 1,
            CodePage::ISO8859_1 => 2,
            CodePage::ISO8859_2 => 3,
            CodePage::ISO8859_3 => 4,
            CodePage::ISO8859_4 => 5,
            CodePage::ISO8859_5 => 6,
            CodePage::ISO8859_6 => 7,
            CodePage::ISO8859_7 => 8,
            CodePage::ISO8859_8 => 9,
            CodePage::ISO8859_9 => 10,
            CodePage::CP437 => 11,
            CodePage::CP850 => 12,
            CodePage::CP852 => 13,
            CodePage::CP855 => 14,
            CodePage::CP857 => 15,
            CodePage::CP860 => 16,
            CodePage::CP861 => 17,
            CodePage::CP863 => 18,
            CodePage::CP864 => 19,
            CodePage::CP865 => 20,
            CodePage::CP869 => 21,
            CodePage::CP932 => 22,
            CodePage::Macintosh => 23,
            CodePage::BIG5 => 24,
            CodePage::CP949 => 25,
            CodePage::JOHAB => 26,
            CodePage::CP866 => 27,
            CodePage::ANSI1250 => 28,
            CodePage::ANSI1251 => 29,
            CodePage::ANSI1252 => 30,
            CodePage::GB2312 => 31,
            CodePage::ANSI1253 => 32,
            CodePage::ANSI1254 => 33,
            CodePage::ANSI1255 => 34,
            CodePage::ANSI1256 => 35,
            CodePage::ANSI1257 => 36,
            CodePage::ANSI874 => 37,
            CodePage::ANSI932 => 38,
            CodePage::ANSI936 => 39,
            CodePage::ANSI949 => 40,
            CodePage::ANSI950 => 41,
            CodePage::ANSI1361 => 42,
            CodePage::UTF16 => 43,
            CodePage::ANSI1258 => 44,
        }
    }

    /// The encoding that `discriminant` names, if it names one.
    pub fn from_repr(discriminant: u16) -> (r: Option<CodePage>)
        ensures
            r matches Some(page) ==> page.ordinal() == discriminant,
            r is None ==> forall|page: CodePage| page.ordinal() != discriminant,
    {
        match discriminant {
            0 => Some(CodePage::UTF8),
            1 => Some(CodePage::USAscii),
            2 => Some(CodePage::ISO8859_1),
            3 => Some(CodePage::ISO8859_2),
            4 => Some(CodePage::ISO8859_3),
            5 => Some(CodePage::ISO8859_4),
            6 => Some(CodePage::ISO8859_5),
            7 => Some(CodePage::ISO8859_6),
            8 => Some(CodePage::ISO8859_7),
            9 => Some(CodePage::ISO8859_8),
            10 => Some(CodePage::ISO8859_9),
            11 => Some(CodePage::CP437),
            12 => Some(CodePage::CP850),
            13 => Some(CodePage::CP852),
            14 => Some(CodePage::CP855),
            15 => Some(CodePage::CP857),
            16 => Some(CodePage::CP860),
            17 => Some(CodePage::CP861),
            18 => Some(CodePage::CP863),
            19 => Some(CodePage::CP864),
            20 => Some(CodePage::CP865),
            21 => Some(CodePage::CP869),
            22 => Some(CodePage::CP932),
            23 => Some(CodePage::Macintosh),
            24 => Some(CodePage::BIG5),
            25 => Some(CodePage::CP949),
            26 => Some(CodePage::JOHAB),
            27 => Some(CodePage::CP866),
            28 => Some(CodePage::ANSI1250),
            29 => Some(CodePage::ANSI1251),
            30 => Some(CodePage::ANSI1252),
            31 => Some(CodePage::GB2312),
            32 => Some(CodePage::ANSI1253),
            33 => Some(CodePage::ANSI1254),
            34 => Some(CodePage::ANSI1255),
            35 => Some(CodePage::ANSI1256),
            36 => Some(CodePage::ANSI1257),
            37 => Some(CodePage::ANSI874),
            38 => Some(CodePage::ANSI932),
            39 => Some(CodePage::ANSI936),
            40 => Some(CodePage::ANSI949),
            41 => Some(CodePage::ANSI950),
            42 => Some(CodePage::ANSI1361),
            43 => Some(CodePage::UTF16),
            44 => Some(CodePage::ANSI1258),
            _ => None,
        }
    }
}

/// Two encodings with the same ordinal are the same encoding, and the
/// ordinals are the 45 numbers from 0 on.
pub proof fn lemma_ordinal_names_one_page(a: CodePage, b: CodePage)
    ensures
        a.ordinal() == b.ordinal() ==> a == b,
        a.ordinal() < 45,
{
}

} // verus!
