//! The order of versions: wildcards on top, the others by major
//! component, then by looseness, then by minor and patch component.

use std::cmp::Ordering;
use vstd::prelude::*;
use crate::parse::parse_range;
use crate::text::position;
use crate::version::{component_rank, PatchStrategy, Version, VersionView};

verus! {

/// What decides the place of a version in the order. All wildcards share
/// one key, above every other; the appendix has no part in it.
pub open spec fn sort_key(v: VersionView) -> (int, int, int, int, int) {
    if v.is_wildcard() {
        (1, 0, 0, 0, 0)
    } else {
        (
            0,
            component_rank(v.major),
            v.patch_strategy.rank(),
            component_rank(v.minor),
            component_rank(v.patch),
        )
    }
}

/// The lexicographic order of keys.
pub open spec fn key_less(a: (int, int, int, int, int), b: (int, int, int, int, int)) -> bool {
    ||| a.0 < b.0
    ||| a.0 == b.0 && a.1 < b.1
    ||| a.0 == b.0 && a.1 == b.1 && a.2 < b.2
    ||| a.0 == b.0 && a.1 == b.1 && a.2 == b.2 && a.3 < b.3
    ||| a.0 == b.0 && a.1 == b.1 && a.2 == b.2 && a.3 == b.3 && a.4 < b.4
}

/// `a` ranks strictly below `b`.
pub open spec fn precedes(a: VersionView, b: VersionView) -> bool {
    key_less(sort_key(a), sort_key(b))
}

/// `a` ranks strictly above `b`.
pub open spec fn exceeds(a: VersionView, b: VersionView) -> bool {
    precedes(b, a)
}

/// Neither ranks above the other: both are wildcards, or neither is and
/// they agree on strategy and on all three components.
pub open spec fn equivalent(a: VersionView, b: VersionView) -> bool {
    sort_key(a) == sort_key(b)
}

/// The order of two versions.
pub open spec fn compare(a: VersionView, b: VersionView) -> Ordering {
    if precedes(a, b) {
        Ordering::Less
    } else if precedes(b, a) {
        Ordering::Greater
    } else {
        Ordering::Equal
    }
}

/// The order of two integers.
pub open spec fn compare_ranks(a: int, b: int) -> Ordering {
    if a < b {
        Ordering::Less
    } else if a == b {
        Ordering::Equal
    } else {
        Ordering::Greater
    }
}

/// What the comparison of the minor components and the comparison of the
/// strategies decide together, for two versions that are no wildcards and
/// have the same major component: a lower strategy loses and a higher one
/// wins whatever the minor components say; with equal strategies the minor
/// components decide; `None` where the patch components have to.
pub open spec fn minor_strategy_table(minors: Ordering, strategies: Ordering) -> Option<Ordering> {
    match (minors, strategies) {
        (Ordering::Less, Ordering::Less)
        | (Ordering::Less, Ordering::Equal)
        | (Ordering::Equal, Ordering::Less)
        | (Ordering::Greater, Ordering::Less) => Some(Ordering::Less),
        (Ordering::Equal, Ordering::Equal) => None,
        (Ordering::Less, Ordering::Greater)
        | (Ordering::Equal, Ordering::Greater)
        | (Ordering::Greater, Ordering::Equal)
        | (Ordering::Greater, Ordering::Greater) => Some(Ordering::Greater),
    }
}

fn cmp_component(a: Option<u8>, b: Option<u8>) -> (o: Ordering)
    ensures
        o == compare_ranks(component_rank(a), component_rank(b)),
{
    match (a, b) {
        (None, None) => Ordering::Equal,
        (None, Some(_)) => Ordering::Less,
        (Some(_), None) => Ordering::Greater,
        (Some(x), Some(y)) => if x < y {
            Ordering::Less
        } else if x == y {
            Ordering::Equal
        } else {
            Ordering::Greater
        },
    }
}

fn cmp_strategy(a: PatchStrategy, b: PatchStrategy) -> (o: Ordering)
    ensures
        o == compare_ranks(a.rank(), b.rank()),
{
    let x = a.ordinal();
    let y = b.ordinal();
    if x < y {
        Ordering::Less
    } else if x == y {
        Ordering::Equal
    } else {
        Ordering::Greater
    }
}

impl Version {
    /// Compares two versions.
    pub fn cmp(&self, other: &Version) -> (o: Ordering)
        ensures
            o == compare(self@, other@),
    {
        if self.patch_strategy == PatchStrategy::Major {
            if other.patch_strategy == PatchStrategy::Major {
                Ordering::Equal
            } else {
                Ordering::Greater
            }
        } else if other.patch_strategy == PatchStrategy::Major {
            Ordering::Less
        } else {
            match cmp_component(self.major, other.major) {
                Ordering::Less => Ordering::Less,
                Ordering::Greater => Ordering::Greater,
                Ordering::Equal => {
                    let minors = cmp_component(self.minor, other.minor);
                    let strategies = cmp_strategy(self.patch_strategy, other.patch_strategy);
                    match (minors, strategies) {
                        (Ordering::Less, Ordering::Less)
                        | (Ordering::Less, Ordering::Equal)
                        | (Ordering::Equal, Ordering::Less)
                        | (Ordering::Greater, Ordering::Less) => Ordering::Less,
                        (Ordering::Equal, Ordering::Equal) => cmp_component(
                            self.patch,
                            other.patch,
                        ),
                        (Ordering::Less, Ordering::Greater)
                        | (Ordering::Equal, Ordering::Greater)
                        | (Ordering::Greater, Ordering::Equal)
                        | (Ordering::Greater, Ordering::Greater) => Ordering::Greater,
                    }
                },
            }
        }
    }

    /// Whether this version ranks strictly above `other`.
    pub fn outranks(&self, other: &Version) -> (b: bool)
        ensures
            b == exceeds(self@, other@),
    {
        match self.cmp(other) {
            Ordering::Greater => true,
            _ => false,
        }
    }
}

impl PartialOrd for Version {
    fn partial_cmp(&self, other: &Self) -> (o: Option<Ordering>) {
        Some(self.cmp(other))
    }
}

impl vstd::std_specs::cmp::PartialOrdSpecImpl for Version {
    open spec fn obeys_partial_cmp_spec() -> bool {
        true
    }

    open spec fn partial_cmp_spec(&self, other: &Self) -> Option<Ordering> {
        Some(compare(self@, other@))
    }
}

/// The order is total: of "`a` below `b`", "`a` equivalent to `b`" and
/// "`a` above `b`" exactly one holds, `compare` says which, and each of
/// the three relations carries over a middle version `b` to `c`.
pub proof fn law_total_order(a: VersionView, b: VersionView, c: VersionView)
    ensures
        precedes(a, b) || equivalent(a, b) || exceeds(a, b),
        !(precedes(a, b) && equivalent(a, b)),
        !(precedes(a, b) && exceeds(a, b)),
        !(equivalent(a, b) && exceeds(a, b)),
        compare(a, b) == Ordering::Less <==> precedes(a, b),
        compare(a, b) == Ordering::Equal <==> equivalent(a, b),
        compare(a, b) == Ordering::Greater <==> exceeds(a, b),
        compare(a, b) == Ordering::Less <==> compare(b, a) == Ordering::Greater,
        compare(a, b) == Ordering::Equal <==> compare(b, a) == Ordering::Equal,
        precedes(a, b) && precedes(b, c) ==> precedes(a, c),
        precedes(a, b) && equivalent(b, c) ==> precedes(a, c),
        equivalent(a, b) && precedes(b, c) ==> precedes(a, c),
        equivalent(a, b) && equivalent(b, c) ==> equivalent(a, c),
        !exceeds(a, b) && !exceeds(b, c) ==> !exceeds(a, c),
{
}

/// Equal versions compare as equal; and two well-formed versions that
/// compare as equal differ in nothing but, at most, the appendix.
pub proof fn law_order_agrees_with_equality(a: VersionView, b: VersionView)
    ensures
        a == b ==> compare(a, b) == Ordering::Equal,
        compare(a, b) == Ordering::Equal && a.well_formed() && b.well_formed() ==> a
            == (VersionView { appendix: a.appendix, ..b }),
{
}

/// The wildcard `*` ranks strictly above every version that is no
/// wildcard.
pub proof fn law_wildcard_dominance(v: VersionView)
    requires
        !v.is_wildcard(),
    ensures
        parse_range("*"@) is Ok,
        exceeds(parse_range("*"@)->Ok_0, v),
        compare(parse_range("*"@)->Ok_0, v) == Ordering::Greater,
        compare(v, parse_range("*"@)->Ok_0) == Ordering::Less,
{
    reveal_strlit("*");
    reveal_with_fuel(position, 2);
    let s = "*"@;
    assert(s.drop_first().len() == 0);
    assert(position(s, '-') == 1);
    assert(s.take(1) =~= s);
}

/// Between two versions that are no wildcards and have the same major
/// component, the comparisons of minor component and strategy decide as
/// `minor_strategy_table` says, and the patch components break the tie.
pub proof fn law_minor_strategy_table(a: VersionView, b: VersionView)
    requires
        !a.is_wildcard(),
        !b.is_wildcard(),
        a.major == b.major,
    ensures
        compare(a, b) == match minor_strategy_table(
            compare_ranks(component_rank(a.minor), component_rank(b.minor)),
            compare_ranks(a.patch_strategy.rank(), b.patch_strategy.rank()),
        ) {
            Some(o) => o,
            None => compare_ranks(component_rank(a.patch), component_rank(b.patch)),
        },
{
}

} // verus!
