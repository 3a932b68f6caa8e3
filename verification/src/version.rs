//! The seven known releases of the container and their magic tokens.

use std::cmp::Ordering;
use vstd::prelude::*;
use vstd::std_specs::cmp::PartialOrdSpec;

verus! {

/// One release of the container format, named after its magic token.
///
/// Variants are declared in chronological release order, which is also the
/// order that `<`, `<=`, `>` and `>=` follow.
#[derive(Clone, Copy, Debug, PartialEq, Eq, Structural)]
pub enum DWGVersion {
    /// R13
    AC1012,
    /// R14
    AC1014,
    /// R2000
    AC1015,
    /// R2004
    AC1018,
    /// R2007
    AC1021,
    /// R2013
    AC1027,
    /// R2018
    AC1032,
}

impl DWGVersion {
    /// Position of the release in chronological order, starting at zero.
    pub open spec fn rank(self) -> nat {
        match self {
            DWGVersion::AC1012 => 0,
            DWGVersion::AC1014 => 1,
            DWGVersion::AC1015 => 2,
            DWGVersion::AC1018 => 3,
            DWGVersion::AC1021 => 4,
            DWGVersion::AC1027 => 5,
            DWGVersion::AC1032 => 6,
        }
    }

    /// The six ASCII bytes that open a file of this release.
    pub open spec fn magic(self) -> Seq<u8> {
        match self {
            DWGVersion::AC1012 => seq![0x41u8, 0x43u8, 0x31u8, 0x30u8, 0x31u8, 0x32u8],
            DWGVersion::AC1014 => seq![0x41u8, 0x43u8, 0x31u8, 0x30u8, 0x31u8, 0x34u8],
            DWGVersion::AC1015 => seq![0x41u8, 0x43u8, 0x31u8, 0x30u8, 0x31u8, 0x35u8],
            DWGVersion::AC1018 => seq![0x41u8, 0x43u8, 0x31u8, 0x30u8, 0x31u8, 0x38u8],
            DWGVersion::AC1021 => seq![0x41u8, 0x43u8, 0x31u8, 0x30u8, 0x32u8, 0x31u8],
            DWGVersion::AC1027 => seq![0x41u8, 0x43u8, 0x31u8, 0x30u8, 0x32u8, 0x37u8],
            DWGVersion::AC1032 => seq![0x41u8, 0x43u8, 0x31u8, 0x30u8, 0x33u8, 0x32u8],
        }
    }

    /// The release whose magic token is `token`, if there is one.
    pub open spec fn resolve(token: Seq<u8>) -> Option<DWGVersion> {
        if token == DWGVersion::AC1012.magic() {
            Some(DWGVersion::AC1012)
        } else if token == DWGVersion::AC1014.magic() {
            Some(DWGVersion::AC1014)
        } else if token == DWGVersion::AC1015.magic() {
            Some(DWGVersion::AC1015)
        } else if token == DWGVersion::AC1018.magic() {
            Some(DWGVersion::AC1018)
        } else if token == DWGVersion::AC1021.magic() {
            Some(DWGVersion::AC1021)
        } else if token == DWGVersion::AC1027.magic() {
            Some(DWGVersion::AC1027)
        } else if token == DWGVersion::AC1032.magic() {
            Some(DWGVersion::AC1032)
        } else {
            None
        }
    }

    /// Resolves a magic token by exact byte-for-byte match.
    pub fn from_magic(magic: &[u8; 6]) -> (r: Option<Self>)
        ensures
            r == Self::resolve(magic@),
    {
        if magic[0] != 0x41 || magic[1] != 0x43 || magic[2] != 0x31 || magic[3] != 0x30 {
            proof {
                assert(magic@[0] == magic[0] && magic@[1] == magic[1] && magic@[2] == magic[2]
                    && magic@[3] == magic[3]);
            }
            return None;
        }
        let r = if magic[4] == 0x31 {
            if magic[5] == 0x32 {
                Some(DWGVersion::AC1012)
            } else if magic[5] == 0x34 {
                Some(DWGVersion::AC1014)
            } else if magic[5] == 0x35 {
                Some(DWGVersion::AC1015)
            } else if magic[5] == 0x38 {
                Some(DWGVersion::AC1018)
            } else {
                None
            }
        } else if magic[4] == 0x32 {
            if magic[5] == 0x31 {
                Some(DWGVersion::AC1021)
            } else if magic[5] == 0x37 {
                Some(DWGVersion::AC1027)
            } else {
                None
            }
        } else if magic[4] == 0x33 && magic[5] == 0x32 {
            Some(DWGVersion::AC1032)
        } else {
            None
        };
        proof {
            assert(magic@.len() == 6);
            match r {
                Some(v) => {
                    assert(magic@ =~= v.magic());
                },
                None => {
                    assert(magic@[4] == magic[4] && magic@[5] == magic[5]);
                },
            }
        }
        r
    }

    /// Position of the release in chronological order, as a machine integer.
    pub fn ordinal(self) -> (r: u8)
        ensures
            r == self.rank(),
    {
        match self {
            DWGVersion::AC1012 => 0,
            DWGVersion::AC1014 => 1,
            DWGVersion::AC1015 => 2,
            DWGVersion::AC1018 => 3,
            DWGVersion::AC1021 => 4,
            DWGVersion::AC1027 => 5,
            DWGVersion::AC1032 => 6,
        }
    }

    /// `true` when `self` was released no later than `other`.
    pub open spec fn at_most(self, other: DWGVersion) -> bool {
        self.rank() <= other.rank()
    }

    /// `true` when `self` was released no earlier than `other`.
    pub open spec fn at_least(self, other: DWGVersion) -> bool {
        self.rank() >= other.rank()
    }
}

impl PartialOrd for DWGVersion {
    fn partial_cmp(&self, other: &Self) -> (r: Option<Ordering>) {
        let a = self.ordinal();
        let b = other.ordinal();
        if a < b {
            Some(Ordering::Less)
        } else if a == b {
            Some(Ordering::Equal)
        } else {
            Some(Ordering::Greater)
        }
    }
}

impl vstd::std_specs::cmp::PartialOrdSpecImpl for DWGVersion {
    open spec fn obeys_partial_cmp_spec() -> bool {
        true
    }

    open spec fn partial_cmp_spec(&self, other: &Self) -> Option<Ordering> {
        if self.rank() < other.rank() {
            Some(Ordering::Less)
        } else if self.rank() == other.rank() {
            Some(Ordering::Equal)
        } else {
            Some(Ordering::Greater)
        }
    }
}

/// Every release resolves from its own magic token.
pub proof fn lemma_magic_round_trip(v: DWGVersion)
    ensures
        DWGVersion::resolve(v.magic()) == Some(v),
{
    lemma_tokens_distinct(DWGVersion::AC1012, v);
    lemma_tokens_distinct(DWGVersion::AC1014, v);
    lemma_tokens_distinct(DWGVersion::AC1015, v);
    lemma_tokens_distinct(DWGVersion::AC1018, v);
    lemma_tokens_distinct(DWGVersion::AC1021, v);
    lemma_tokens_distinct(DWGVersion::AC1027, v);
    lemma_tokens_distinct(DWGVersion::AC1032, v);
}

/// A token resolves only to the release it belongs to, so a token outside
/// the table of seven resolves to nothing.
pub proof fn lemma_resolve_sound(token: Seq<u8>)
    ensures
        DWGVersion::resolve(token) matches Some(v) ==> v.magic() == token,
        DWGVersion::resolve(token) is None ==> forall|v: DWGVersion| v.magic() != token,
{
}

/// Two different releases never share a magic token.
pub proof fn lemma_tokens_distinct(a: DWGVersion, b: DWGVersion)
    ensures
        a != b ==> a.magic() != b.magic(),
{
    if a != b {
        let x = a.magic();
        let y = b.magic();
        assert(x[4] != y[4] || x[5] != y[5]);
    }
}

/// The comparison operators follow chronological release order: they form
/// a total order in which a release compares less than every later one.
pub proof fn lemma_order_is_chronological(a: DWGVersion, b: DWGVersion)
    ensures
        a.partial_cmp_spec(&b) == Some(Ordering::Less) <==> a.rank() < b.rank(),
        a.partial_cmp_spec(&b) == Some(Ordering::Equal) <==> a == b,
        a.partial_cmp_spec(&b) == Some(Ordering::Greater) <==> a.rank() > b.rank(),
        a.rank() < 7,
        DWGVersion::AC1012.rank() == 0,
        DWGVersion::AC1014.rank() == 1,
        DWGVersion::AC1015.rank() == 2,
        DWGVersion::AC1018.rank() == 3,
        DWGVersion::AC1021.rank() == 4,
        DWGVersion::AC1027.rank() == 5,
        DWGVersion::AC1032.rank() == 6,
{
}

} // verus!
