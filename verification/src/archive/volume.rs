//! The key by which the volumes of one archive are ordered.
use std::cmp::Ordering;
use vstd::prelude::*;
use vstd::std_specs::cmp::PartialOrdSpec;

verus! {

/// The place of a volume among the volumes of one archive: the bare `.rar`
/// comes first, then `.r00`, `.r01`, … by number.
#[derive(Debug, Clone, Copy, PartialEq, Eq, Ord, Hash, Structural)]
pub enum RarExt {
    Main,
    Part(u32),
}

impl RarExt {
    /// The position of the volume in the archive: 0 for the bare `.rar`,
    /// `n + 1` for `.rNN`.
    pub open spec fn rank(self) -> nat {
        match self {
            RarExt::Main => 0,
            RarExt::Part(n) => (n + 1) as nat,
        }
    }

    /// `self` comes before `other` in the archive.
    pub open spec fn precedes(self, other: RarExt) -> bool {
        self.rank() < other.rank()
    }

    /// The integer by which volumes are sorted.
    pub fn sort_key(&self) -> (k: u64)
        ensures
            k == self.rank(),
    {
        match self {
            RarExt::Main => 0,
            RarExt::Part(n) => *n as u64 + 1,
        }
    }

    /// Whether `self` comes before `other` in the archive.
    pub fn comes_before(&self, other: &RarExt) -> (b: bool)
        ensures
            b == self.precedes(*other),
    {
        self.sort_key() < other.sort_key()
    }

    /// How `self` stands to `other` in the archive.
    pub open spec fn compared(self, other: RarExt) -> Ordering {
        if self.rank() < other.rank() {
            Ordering::Less
        } else if self.rank() == other.rank() {
            Ordering::Equal
        } else {
            Ordering::Greater
        }
    }
}

impl PartialOrd for RarExt {
    /// Compares two volumes by their place in the archive.
    fn partial_cmp(&self, other: &RarExt) -> (r: Option<Ordering>) {
        let a: u64 = self.sort_key();
        let b: u64 = other.sort_key();
        if a < b {
            Some(Ordering::Less)
        } else if a == b {
            Some(Ordering::Equal)
        } else {
            Some(Ordering::Greater)
        }
    }
}

impl vstd::std_specs::cmp::PartialOrdSpecImpl for RarExt {
    open spec fn obeys_partial_cmp_spec() -> bool {
        true
    }

    open spec fn partial_cmp_spec(&self, other: &RarExt) -> Option<Ordering> {
        Some(self.compared(*other))
    }
}

/// The bare `.rar` volume precedes every numbered part, and numbered parts
/// follow their numbers.
pub proof fn lemma_volume_order(p: u32, q: u32)
    ensures
        RarExt::Main.precedes(RarExt::Part(p)),
        p < q ==> RarExt::Part(p).precedes(RarExt::Part(q)),
        !RarExt::Part(p).precedes(RarExt::Main),
        RarExt::Main.partial_cmp_spec(&RarExt::Part(p)) == Some(Ordering::Less),
        p < q ==> RarExt::Part(p).partial_cmp_spec(&RarExt::Part(q)) == Some(Ordering::Less),
{
}

/// The order of volumes is a strict total order: of two keys exactly one
/// precedes the other unless they are equal, and precedence carries over.
pub proof fn lemma_volume_order_total(a: RarExt, b: RarExt, c: RarExt)
    ensures
        !a.precedes(a),
        a.precedes(b) || b.precedes(a) || a == b,
        !(a.precedes(b) && b.precedes(a)),
        a.precedes(b) && b.precedes(c) ==> a.precedes(c),
        a.rank() == b.rank() <==> a == b,
        a.partial_cmp_spec(&b) == Some(Ordering::Less) <==> a.precedes(b),
        a.partial_cmp_spec(&b) == Some(Ordering::Equal) <==> a == b,
{
}


} // verus!
