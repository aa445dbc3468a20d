//! The version-range value type and its mathematical view.

use vstd::prelude::*;

verus! {

/// How loose a range is: an exact version, a tilde range, a caret range or a
/// wildcard.
#[derive(Clone, Copy, Debug, PartialEq, Eq, Structural, PartialOrd, Ord, Hash)]
pub enum PatchStrategy {
    /// An exact version.
    Exact,
    /// A tilde range: the patch level may move.
    Patch,
    /// A caret range: the minor level may move.
    Minor,
    /// A wildcard: any version.
    Major,
}

impl PatchStrategy {
    /// The position of the strategy in `Exact < Patch < Minor < Major`.
    pub open spec fn rank(self) -> int {
        match self {
            PatchStrategy::Exact => 0,
            PatchStrategy::Patch => 1,
            PatchStrategy::Minor => 2,
            PatchStrategy::Major => 3,
        }
    }

    /// The rank as a machine integer.
    pub fn ordinal(self) -> (n: u8)
        ensures
            n == self.rank(),
    {
        match self {
            PatchStrategy::Exact => 0,
            PatchStrategy::Patch => 1,
            PatchStrategy::Minor => 2,
            PatchStrategy::Major => 3,
        }
    }
}

/// Where a component stands among the others: an absent one below every
/// present one, and the present ones by their number.
pub open spec fn component_rank(component: Option<u8>) -> int {
    match component {
        Some(n) => n as int,
        None => -1,
    }
}

/// One dependency constraint as a manifest writes it. Two versions are
/// equal when all five fields are.
#[derive(Debug, Eq)]
pub struct Version {
    pub major: Option<u8>,
    pub minor: Option<u8>,
    pub patch: Option<u8>,
    /// Everything from the first `-` of the range string on, kept verbatim.
    pub appendix: Option<String>,
    pub patch_strategy: PatchStrategy,
}

/// What a [`Version`] is to the contracts: the same five fields, with the
/// appendix as a sequence of characters.
pub ghost struct VersionView {
    pub major: Option<u8>,
    pub minor: Option<u8>,
    pub patch: Option<u8>,
    pub appendix: Option<Seq<char>>,
    pub patch_strategy: PatchStrategy,
}

impl View for Version {
    type V = VersionView;

    open spec fn view(&self) -> VersionView {
        VersionView {
            major: self.major,
            minor: self.minor,
            patch: self.patch,
            appendix: match self.appendix {
                Some(a) => Some(a@),
                None => None,
            },
            patch_strategy: self.patch_strategy,
        }
    }
}

impl VersionView {
    /// The range is a wildcard.
    pub open spec fn is_wildcard(self) -> bool {
        self.patch_strategy == PatchStrategy::Major
    }

    /// The shape that every parsed range has: an appendix starts with `-`;
    /// only a wildcard may lack a major component, and it has no component
    /// at all; a patch component comes only after a minor one.
    pub open spec fn well_formed(self) -> bool {
        &&& self.appendix matches Some(a) ==> a.len() > 0 && a[0] == '-'
        &&& self.is_wildcard() ==> self.major is None && self.minor is None && self.patch is None
        &&& !self.is_wildcard() ==> self.major is Some
        &&& self.minor is None ==> self.patch is None
    }
}

fn same_component(a: Option<u8>, b: Option<u8>) -> (same: bool)
    ensures
        same == (a == b),
{
    match (a, b) {
        (Some(x), Some(y)) => x == y,
        (None, None) => true,
        _ => false,
    }
}

impl PartialEq for Version {
    fn eq(&self, other: &Self) -> (same: bool) {
        let appendix = match (&self.appendix, &other.appendix) {
            (Some(a), Some(b)) => *a == *b,
            (None, None) => true,
            _ => false,
        };
        appendix && same_component(self.major, other.major) && same_component(
            self.minor,
            other.minor,
        ) && same_component(self.patch, other.patch) && self.patch_strategy
            == other.patch_strategy
    }
}

impl vstd::std_specs::cmp::PartialEqSpecImpl for Version {
    open spec fn obeys_eq_spec() -> bool {
        true
    }

    open spec fn eq_spec(&self, other: &Self) -> bool {
        self@ == other@
    }
}

impl Clone for Version {
    fn clone(&self) -> (copy: Self)
        ensures
            copy@ == self@,
    {
        Version {
            major: self.major,
            minor: self.minor,
            patch: self.patch,
            appendix: match &self.appendix {
                Some(a) => Some(a.clone()),
                None => None,
            },
            patch_strategy: self.patch_strategy,
        }
    }
}

} // verus!
