//! Package manifests as the reconciler sees them: a name and two maps from
//! dependency names to range strings.

use vstd::prelude::*;

verus! {

/// The range that `entries` gives for `name`, if any.
pub open spec fn lookup(entries: Seq<(Seq<char>, Seq<char>)>, name: Seq<char>) -> Option<
    Seq<char>,
>
    decreases entries.len(),
{
    if entries.len() == 0 {
        None
    } else if entries.last().0 == name {
        Some(entries.last().1)
    } else {
        lookup(entries.drop_last(), name)
    }
}

/// No name occurs twice in `entries`.
pub open spec fn unique_names(entries: Seq<(Seq<char>, Seq<char>)>) -> bool {
    forall|i: int, j: int|
        0 <= i < entries.len() && 0 <= j < entries.len() && i != j ==> entries[i].0 != entries[j].0
}

/// Some entry of `entries` has the name `name`.
pub open spec fn holds(entries: Seq<(Seq<char>, Seq<char>)>, name: Seq<char>) -> bool {
    exists|k: int| 0 <= k < entries.len() && (#[trigger] entries[k]).0 == name
}

/// `lookup` finds a name exactly when some entry has it.
pub proof fn lemma_lookup(entries: Seq<(Seq<char>, Seq<char>)>, name: Seq<char>)
    ensures
        lookup(entries, name) is Some <==> holds(entries, name),
    decreases entries.len(),
{
    if entries.len() == 0 {
    } else if entries.last().0 == name {
        assert(entries[entries.len() - 1].0 == name);
    } else {
        let front = entries.drop_last();
        lemma_lookup(front, name);
        if holds(front, name) {
            let k = choose|k: int| 0 <= k < front.len() && (#[trigger] front[k]).0 == name;
            assert(entries[k].0 == name);
        }
        if holds(entries, name) {
            let k = choose|k: int| 0 <= k < entries.len() && (#[trigger] entries[k]).0 == name;
            assert(front[k].0 == name);
        }
    }
}

/// In a map without repeated names, every entry is what `lookup` finds
/// for its name.
pub proof fn lemma_lookup_unique(entries: Seq<(Seq<char>, Seq<char>)>, k: int)
    requires
        unique_names(entries),
        0 <= k < entries.len(),
    ensures
        lookup(entries, entries[k].0) == Some(entries[k].1),
    decreases entries.len(),
{
    if k < entries.len() - 1 {
        let front = entries.drop_last();
        assert(entries.last() == entries[entries.len() - 1]);
        assert(front[k] == entries[k]);
        assert forall|i: int, j: int|
            0 <= i < front.len() && 0 <= j < front.len() && i != j implies front[i].0
            != front[j].0 by {
            assert(front[i] == entries[i]);
            assert(front[j] == entries[j]);
        }
        lemma_lookup_unique(front, k);
    }
}

/// One entry of a dependency map: the name of a package and the range that
/// is asked of it.
#[derive(Debug, PartialEq, Eq)]
pub struct Dependency {
    pub name: String,
    pub range: String,
}

impl View for Dependency {
    type V = (Seq<char>, Seq<char>);

    open spec fn view(&self) -> (Seq<char>, Seq<char>) {
        (self.name@, self.range@)
    }
}

impl Clone for Dependency {
    fn clone(&self) -> (copy: Self)
        ensures
            copy@ == self@,
    {
        Dependency { name: self.name.clone(), range: self.range.clone() }
    }
}

/// The entries of `deps` as the contracts see them.
pub open spec fn views_of(deps: Seq<Dependency>) -> Seq<(Seq<char>, Seq<char>)> {
    Seq::new(deps.len(), |i: int| deps[i]@)
}

/// The index of the entry for `name`.
fn find_entry(entries: &Vec<Dependency>, name: &String) -> (at: Option<usize>)
    ensures
        match at {
            Some(k) => k < entries.len() && entries[k as int].name@ == name@,
            None => lookup(views_of(entries@), name@) is None,
        },
{
    let mut k: usize = 0;
    while k < entries.len()
        invariant
            k <= entries.len(),
            forall|l: int| 0 <= l < k ==> (#[trigger] entries[l]).name@ != name@,
        decreases entries.len() - k,
    {
        if entries[k].name == *name {
            return Some(k);
        }
        k += 1;
    }
    proof {
        let views = views_of(entries@);
        lemma_lookup(views, name@);
        if holds(views, name@) {
            let l = choose|l: int| 0 <= l < views.len() && (#[trigger] views[l]).0 == name@;
            assert(entries[l].name@ == name@);
        }
    }
    None
}

/// A map from dependency names to range strings that remembers the order
/// in which the names came. No name occurs twice.
#[derive(Debug, PartialEq, Eq)]
pub struct DependencyMap {
    entries: Vec<Dependency>,
}

impl View for DependencyMap {
    type V = Seq<(Seq<char>, Seq<char>)>;

    closed spec fn view(&self) -> Seq<(Seq<char>, Seq<char>)> {
        views_of(self.entries@)
    }
}

impl DependencyMap {
    #[verifier::type_invariant]
    spec fn names_are_unique(self) -> bool {
        unique_names(self@)
    }

    /// The empty map.
    pub fn new() -> (map: Self)
        ensures
            map@.len() == 0,
    {
        DependencyMap { entries: Vec::new() }
    }

    /// A map of the given entries.
    pub(crate) fn from_entries(entries: Vec<Dependency>) -> (map: Self)
        requires
            unique_names(views_of(entries@)),
        ensures
            map@ == views_of(entries@),
    {
        DependencyMap { entries }
    }

    /// The number of entries. No two of them have the same name.
    pub fn len(&self) -> (n: usize)
        ensures
            n == self@.len(),
            unique_names(self@),
    {
        proof {
            use_type_invariant(self);
        }
        self.entries.len()
    }

    /// The entry at `index`, counting from the first name that came.
    pub fn entry(&self, index: usize) -> (e: Option<&Dependency>)
        ensures
            index < self@.len() ==> e is Some && e->Some_0@ == self@[index as int],
            index >= self@.len() ==> e is None,
    {
        if index < self.entries.len() {
            Some(&self.entries[index])
        } else {
            None
        }
    }

    /// The entry at an index that the map has.
    pub(crate) fn entry_at(&self, index: usize) -> (e: &Dependency)
        requires
            index < self@.len(),
        ensures
            e@ == self@[index as int],
    {
        &self.entries[index]
    }

    /// The range that the map holds for `name`.
    pub fn get(&self, name: &str) -> (range: Option<&String>)
        ensures
            match range {
                Some(r) => lookup(self@, name@) == Some(r@),
                None => lookup(self@, name@) is None,
            },
    {
        let key = name.to_owned();
        match find_entry(&self.entries, &key) {
            Some(k) => {
                proof {
                    use_type_invariant(self);
                    lemma_lookup_unique(self@, k as int);
                }
                Some(&self.entries[k].range)
            },
            None => None,
        }
    }

    /// Sets the range of `name`. A name that the map already holds keeps
    /// its place and the range it had is returned; a new name goes to the
    /// end.
    pub fn insert(&mut self, name: String, range: String) -> (previous: Option<String>)
        ensures
            match previous {
                Some(p) => lookup(old(self)@, name@) == Some(p@) && exists|k: int|
                    0 <= k < old(self)@.len() && old(self)@[k].0 == name@ && final(self)@ == old(
                        self,
                    )@.update(k, (name@, range@)),
                None => lookup(old(self)@, name@) is None && final(self)@ == old(self)@.push(
                    (name@, range@),
                ),
            },
            lookup(final(self)@, name@) == Some(range@),
    {
        proof {
            use_type_invariant(&*self);
        }
        let ghost before = self@;
        let ghost fresh = range@;
        let mut entries: Vec<Dependency> = Vec::new();
        std::mem::swap(&mut entries, &mut self.entries);
        assert(views_of(entries@) == before);
        match find_entry(&entries, &name) {
            Some(k) => {
                proof {
                    lemma_lookup_unique(before, k as int);
                }
                let mut range = range;
                std::mem::swap(&mut entries[k].range, &mut range);
                proof {
                    assert(views_of(entries@) =~= before.update(k as int, (name@, fresh)));
                    lemma_lookup_unique(views_of(entries@), k as int);
                }
                self.entries = entries;
                Some(range)
            },
            None => {
                entries.push(Dependency { name, range });
                proof {
                    assert(views_of(entries@) =~= before.push((name@, fresh)));
                    lemma_lookup(before, name@);
                }
                self.entries = entries;
                None
            },
        }
    }
}

/// One package manifest.
#[derive(Debug, PartialEq, Eq)]
pub struct Manifest {
    pub name: String,
    pub dependencies: DependencyMap,
    pub dev_dependencies: DependencyMap,
}

/// What a [`Manifest`] is to the contracts.
pub ghost struct ManifestView {
    pub name: Seq<char>,
    pub dependencies: Seq<(Seq<char>, Seq<char>)>,
    pub dev_dependencies: Seq<(Seq<char>, Seq<char>)>,
}

impl View for Manifest {
    type V = ManifestView;

    open spec fn view(&self) -> ManifestView {
        ManifestView {
            name: self.name@,
            dependencies: self.dependencies@,
            dev_dependencies: self.dev_dependencies@,
        }
    }
}

/// The manifests as the contracts see them.
pub open spec fn manifest_views(manifests: Seq<Manifest>) -> Seq<ManifestView> {
    Seq::new(manifests.len(), |i: int| manifests[i]@)
}

} // verus!
