//! The reconciler: which development dependencies move to the workspace
//! root, and which ranges the manifests are rewritten to.

use vstd::prelude::*;
use crate::error::ReconcileError;
use crate::manifest::{
    holds,
    lookup,
    manifest_views,
    unique_names,
    views_of,
    Dependency,
    DependencyMap,
    Manifest,
    ManifestView,
};
use crate::render::render;
use crate::tally::{
    aggregate,
    all_parse,
    best,
    failure_report,
    is_first_failure,
    lemma_best_exists,
    lemma_counted_in_all,
    lemma_held_is_counted,
    lemma_names_seen,
    names_seen,
    occurrences,
    sets_of,
    tallies,
    tally_views,
    Tally,
    TallyView,
};
use crate::text::{chars_of, has_prefix, starts_with};

verus! {

/// How far the reconciler may go.
#[derive(Debug, PartialEq, Eq)]
pub struct Policy {
    /// Rewrite every dependency to the highest range asked of it in the
    /// workspace, not only those on packages of the workspace itself.
    pub merge: bool,
    /// What the names of the workspace's own packages start with.
    pub workspace_prefix: String,
}

/// What a [`Policy`] is to the contracts.
pub ghost struct PolicyView {
    pub merge: bool,
    pub workspace_prefix: Seq<char>,
}

impl View for Policy {
    type V = PolicyView;

    open spec fn view(&self) -> PolicyView {
        PolicyView { merge: self.merge, workspace_prefix: self.workspace_prefix@ }
    }
}

/// The outcome of a reconciliation.
#[derive(Debug, PartialEq, Eq)]
pub struct Workspace {
    /// The regular dependencies of the root manifest.
    pub root_dependencies: DependencyMap,
    /// The development dependencies of the root manifest.
    pub root_dev_dependencies: DependencyMap,
    /// The manifests that came in, in their order, with their maps
    /// rewritten.
    pub manifests: Vec<Manifest>,
}

/// What a [`Workspace`] is to the contracts.
pub ghost struct WorkspaceView {
    pub root_dependencies: Seq<(Seq<char>, Seq<char>)>,
    pub root_dev_dependencies: Seq<(Seq<char>, Seq<char>)>,
    pub manifests: Seq<ManifestView>,
}

impl View for Workspace {
    type V = WorkspaceView;

    open spec fn view(&self) -> WorkspaceView {
        WorkspaceView {
            root_dependencies: self.root_dependencies@,
            root_dev_dependencies: self.root_dev_dependencies@,
            manifests: manifest_views(self.manifests@),
        }
    }
}

/// `name` is the name of a package of the workspace itself.
pub open spec fn is_workspace_package(policy: PolicyView, name: Seq<char>) -> bool {
    has_prefix(name, policy.workspace_prefix)
}

/// Every one of the maps holds `name`: the dependency is shared by the
/// whole workspace and moves to its root.
pub open spec fn hoisted(sets: Seq<Seq<(Seq<char>, Seq<char>)>>, name: Seq<char>) -> bool {
    occurrences(sets, name) == sets.len()
}

/// The canonical range string of the highest version that the maps ask
/// of `name`.
pub open spec fn reconciled_range(sets: Seq<Seq<(Seq<char>, Seq<char>)>>, name: Seq<char>) -> Seq<
    char,
> {
    render(best(sets, name)->Some_0)
}

/// The entries of the root: of the rows, in their order, those that
/// `total` maps hold, each with the canonical string of its best version.
pub open spec fn hoisted_rows(rows: Seq<TallyView>, total: nat) -> Seq<(Seq<char>, Seq<char>)>
    decreases rows.len(),
{
    if rows.len() == 0 {
        Seq::empty()
    } else {
        let front = hoisted_rows(rows.drop_last(), total);
        if rows.last().count == total {
            front.push((rows.last().name, render(rows.last().best)))
        } else {
            front
        }
    }
}

/// A development map after reconciliation: the hoisted names are gone,
/// and the others have the reconciled range.
pub open spec fn rewritten_dev(
    entries: Seq<(Seq<char>, Seq<char>)>,
    sets: Seq<Seq<(Seq<char>, Seq<char>)>>,
) -> Seq<(Seq<char>, Seq<char>)>
    decreases entries.len(),
{
    if entries.len() == 0 {
        Seq::empty()
    } else {
        let front = rewritten_dev(entries.drop_last(), sets);
        let name = entries.last().0;
        if hoisted(sets, name) {
            front
        } else {
            front.push((name, reconciled_range(sets, name)))
        }
    }
}

/// A regular map after reconciliation: every name stays; those of the
/// workspace's own packages, and all of them under the merge policy, have
/// the reconciled range, the others the range they came with.
pub open spec fn rewritten(
    entries: Seq<(Seq<char>, Seq<char>)>,
    sets: Seq<Seq<(Seq<char>, Seq<char>)>>,
    policy: PolicyView,
) -> Seq<(Seq<char>, Seq<char>)> {
    Seq::new(
        entries.len(),
        |k: int|
            if policy.merge || is_workspace_package(policy, entries[k].0) {
                (entries[k].0, reconciled_range(sets, entries[k].0))
            } else {
                entries[k]
            },
    )
}

/// The workspace that reconciliation makes of the manifests, where all
/// their ranges parse.
pub open spec fn reconciled(manifests: Seq<ManifestView>, policy: PolicyView) -> WorkspaceView {
    let regular = sets_of(manifests, false);
    let development = sets_of(manifests, true);
    WorkspaceView {
        root_dependencies: Seq::empty(),
        root_dev_dependencies: hoisted_rows(tallies(development), development.len()),
        manifests: Seq::new(
            manifests.len(),
            |i: int|
                ManifestView {
                    name: manifests[i].name,
                    dependencies: rewritten(manifests[i].dependencies, regular, policy),
                    dev_dependencies: rewritten_dev(manifests[i].dev_dependencies, development),
                },
        ),
    }
}

/// The hoisted rows have the names of rows, and none twice where the
/// rows have none twice.
proof fn lemma_hoisted_rows_names(rows: Seq<TallyView>, total: nat)
    requires
        forall|a: int, b: int|
            0 <= a < rows.len() && 0 <= b < rows.len() && a != b ==> (#[trigger] rows[a]).name != (
            #[trigger] rows[b]).name,
    ensures
        unique_names(hoisted_rows(rows, total)),
        forall|x: int|
            0 <= x < hoisted_rows(rows, total).len() ==> exists|a: int|
                0 <= a < rows.len() && (#[trigger] rows[a]).name == (#[trigger] hoisted_rows(
                    rows,
                    total,
                )[x]).0,
    decreases rows.len(),
{
    if rows.len() > 0 {
        let front = rows.drop_last();
        assert forall|a: int, b: int|
            0 <= a < front.len() && 0 <= b < front.len() && a != b implies (
        #[trigger] front[a]).name != (#[trigger] front[b]).name by {
            assert(front[a] == rows[a]);
            assert(front[b] == rows[b]);
        }
        lemma_hoisted_rows_names(front, total);
        let kept = hoisted_rows(front, total);
        let all = hoisted_rows(rows, total);
        assert forall|x: int| 0 <= x < all.len() implies exists|a: int|
            0 <= a < rows.len() && (#[trigger] rows[a]).name == (#[trigger] all[x]).0 by {
            if x < kept.len() {
                assert(all[x] == kept[x]);
                let a = choose|a: int|
                    0 <= a < front.len() && (#[trigger] front[a]).name == kept[x].0;
                assert(rows[a] == front[a]);
            } else {
                assert(rows[rows.len() - 1].name == all[x].0);
            }
        }
        assert forall|x: int, y: int|
            0 <= x < all.len() && 0 <= y < all.len() && x != y implies all[x].0 != all[y].0 by {
            if x < kept.len() && y < kept.len() {
                assert(all[x] == kept[x] && all[y] == kept[y]);
            } else {
                let inner = if x < kept.len() {
                    x
                } else {
                    y
                };
                assert(all[inner] == kept[inner]);
                let a = choose|a: int|
                    0 <= a < front.len() && (#[trigger] front[a]).name == kept[inner].0;
                assert(rows[a] == front[a]);
                assert(rows[a].name != rows[rows.len() - 1].name);
            }
        }
    }
}

/// A rewritten development map has names of the map it was made from,
/// and none twice where that map has none twice.
proof fn lemma_rewritten_dev_names(
    entries: Seq<(Seq<char>, Seq<char>)>,
    sets: Seq<Seq<(Seq<char>, Seq<char>)>>,
)
    requires
        unique_names(entries),
    ensures
        unique_names(rewritten_dev(entries, sets)),
        forall|x: int|
            0 <= x < rewritten_dev(entries, sets).len() ==> holds(
                entries,
                (#[trigger] rewritten_dev(entries, sets)[x]).0,
            ),
    decreases entries.len(),
{
    if entries.len() > 0 {
        let front = entries.drop_last();
        assert forall|a: int, b: int|
            0 <= a < front.len() && 0 <= b < front.len() && a != b implies front[a].0
            != front[b].0 by {
            assert(front[a] == entries[a]);
            assert(front[b] == entries[b]);
        }
        lemma_rewritten_dev_names(front, sets);
        let kept = rewritten_dev(front, sets);
        let all = rewritten_dev(entries, sets);
        let last = entries.len() - 1;
        assert forall|x: int| 0 <= x < all.len() implies holds(entries, (#[trigger] all[x]).0) by {
            if x < kept.len() {
                assert(all[x] == kept[x]);
                let a = choose|a: int| 0 <= a < front.len() && (#[trigger] front[a]).0 == kept[x].0;
                assert(entries[a] == front[a]);
            } else {
                assert(entries[last].0 == all[x].0);
            }
        }
        assert forall|x: int, y: int|
            0 <= x < all.len() && 0 <= y < all.len() && x != y implies all[x].0 != all[y].0 by {
            if x < kept.len() && y < kept.len() {
                assert(all[x] == kept[x] && all[y] == kept[y]);
            } else {
                let inner = if x < kept.len() {
                    x
                } else {
                    y
                };
                assert(all[inner] == kept[inner]);
                let a = choose|a: int|
                    0 <= a < front.len() && (#[trigger] front[a]).0 == kept[inner].0;
                assert(entries[a] == front[a]);
                assert(entries[a].0 != entries[last].0);
            }
        }
    }
}

/// What the root holds for a name: the canonical string of the best
/// version of the row that has the name and is held by `total` maps, and
/// nothing where there is no such row.
proof fn lemma_hoisted_rows_lookup(rows: Seq<TallyView>, total: nat, name: Seq<char>, a: int)
    requires
        forall|x: int, y: int|
            0 <= x < rows.len() && 0 <= y < rows.len() && x != y ==> (#[trigger] rows[x]).name != (
            #[trigger] rows[y]).name,
        0 <= a < rows.len() ==> rows[a].name == name,
        !(0 <= a < rows.len()) ==> forall|x: int|
            0 <= x < rows.len() ==> (#[trigger] rows[x]).name != name,
    ensures
        lookup(hoisted_rows(rows, total), name) == if 0 <= a < rows.len() && rows[a].count
            == total {
            Some(render(rows[a].best))
        } else {
            None
        },
    decreases rows.len(),
{
    if rows.len() > 0 {
        let front = rows.drop_last();
        let last = rows.len() - 1;
        assert forall|x: int, y: int|
            0 <= x < front.len() && 0 <= y < front.len() && x != y implies (
        #[trigger] front[x]).name != (#[trigger] front[y]).name by {
            assert(front[x] == rows[x]);
            assert(front[y] == rows[y]);
        }
        assert forall|x: int| 0 <= x < front.len() && !(0 <= a < front.len()) implies (
        #[trigger] front[x]).name != name by {
            assert(front[x] == rows[x]);
            if 0 <= a < rows.len() {
                assert(rows[x].name != rows[a].name);
            }
        }
        if 0 <= a < front.len() {
            assert(front[a] == rows[a]);
            assert(rows[last].name != rows[a].name);
        }
        lemma_hoisted_rows_lookup(front, total, name, a);
        let kept = hoisted_rows(front, total);
        if rows.last().count == total {
            let grown = kept.push((rows.last().name, render(rows.last().best)));
            assert(grown.drop_last() =~= kept);
        }
    }
}

/// What a rewritten development map holds for a name: the reconciled
/// range where the map held the name and the name is not hoisted, and
/// nothing otherwise.
proof fn lemma_rewritten_dev_lookup(
    entries: Seq<(Seq<char>, Seq<char>)>,
    sets: Seq<Seq<(Seq<char>, Seq<char>)>>,
    name: Seq<char>,
)
    ensures
        lookup(rewritten_dev(entries, sets), name) == if lookup(entries, name) is Some && !hoisted(
            sets,
            name,
        ) {
            Some(reconciled_range(sets, name))
        } else {
            None
        },
    decreases entries.len(),
{
    if entries.len() > 0 {
        let front = entries.drop_last();
        lemma_rewritten_dev_lookup(front, sets, name);
        let kept = rewritten_dev(front, sets);
        let last = entries.last().0;
        if !hoisted(sets, last) {
            let grown = kept.push((last, reconciled_range(sets, last)));
            assert(grown.drop_last() =~= kept);
        }
    }
}

/// The hoisting threshold. Where every range parses:
///
/// a development dependency that every manifest has moves to the root,
/// at the canonical string of the highest version asked of it, and no
/// manifest keeps it;
///
/// a development dependency that some manifest lacks does not come to
/// the root, and every manifest that had it keeps it, at the canonical
/// string of the highest version that any manifest asks of it.
pub proof fn law_hoisting_threshold(manifests: Seq<ManifestView>, policy: PolicyView, name: Seq<char>)
    requires
        all_parse(sets_of(manifests, true)),
    ensures
        ({
            let development = sets_of(manifests, true);
            let workspace = reconciled(manifests, policy);
            let shared = manifests.len() > 0 && forall|i: int|
                0 <= i < manifests.len() ==> lookup(
                    (#[trigger] manifests[i]).dev_dependencies,
                    name,
                ) is Some;
            &&& workspace.manifests.len() == manifests.len()
            &&& shared ==> lookup(workspace.root_dev_dependencies, name) == Some(
                reconciled_range(development, name),
            )
            &&& shared ==> forall|i: int|
                0 <= i < manifests.len() ==> lookup(
                    (#[trigger] workspace.manifests[i]).dev_dependencies,
                    name,
                ) is None
            &&& !shared ==> lookup(workspace.root_dev_dependencies, name) is None
            &&& !shared ==> forall|i: int|
                0 <= i < manifests.len() ==> lookup(
                    (#[trigger] workspace.manifests[i]).dev_dependencies,
                    name,
                ) == if lookup(manifests[i].dev_dependencies, name) is Some {
                    Some(reconciled_range(development, name))
                } else {
                    None
                }
        }),
{
    let development = sets_of(manifests, true);
    let workspace = reconciled(manifests, policy);
    let rows = tallies(development);
    let names = names_seen(development);
    let total = development.len();
    lemma_counted_in_all(development, name);
    lemma_names_seen(development, name);
    lemma_best_exists(development, name);
    assert forall|x: int, y: int|
        0 <= x < rows.len() && 0 <= y < rows.len() && x != y implies (#[trigger] rows[x]).name != (
    #[trigger] rows[y]).name by {
        assert(rows[x].name == names[x] && rows[y].name == names[y]);
    }
    let a = if names.contains(name) {
        choose|a: int| 0 <= a < names.len() && names[a] == name
    } else {
        -1
    };
    assert forall|x: int| 0 <= x < rows.len() && !names.contains(name) implies (
    #[trigger] rows[x]).name != name by {
        assert(names[x] == rows[x].name);
    }
    lemma_hoisted_rows_lookup(rows, total, name, a);
    let all_hold = forall|i: int|
        0 <= i < development.len() ==> lookup(#[trigger] development[i], name) is Some;
    let shared = manifests.len() > 0 && forall|i: int|
        0 <= i < manifests.len() ==> lookup((#[trigger] manifests[i]).dev_dependencies, name) is Some;
    if shared {
        assert forall|i: int| 0 <= i < development.len() implies lookup(
            #[trigger] development[i],
            name,
        ) is Some by {
            assert(development[i] == manifests[i].dev_dependencies);
        }
        assert(development[0] == manifests[0].dev_dependencies);
        lemma_held_is_counted(development, 0, name);
    } else if manifests.len() > 0 {
        let i = choose|i: int|
            0 <= i < manifests.len() && !(lookup(
                (#[trigger] manifests[i]).dev_dependencies,
                name,
            ) is Some);
        assert(development[i] == manifests[i].dev_dependencies);
        assert(!all_hold);
    }
    assert forall|i: int| 0 <= i < manifests.len() implies lookup(
        (#[trigger] workspace.manifests[i]).dev_dependencies,
        name,
    ) == if lookup(manifests[i].dev_dependencies, name) is Some && !hoisted(development, name) {
        Some(reconciled_range(development, name))
    } else {
        None
    } by {
        lemma_rewritten_dev_lookup(manifests[i].dev_dependencies, development, name);
    }
}

/// The merge flag. A regular map keeps its names and their order. Under
/// the merge policy every range in it becomes the canonical string of the
/// highest version that any manifest asks of the name; without it only
/// the ranges of the workspace's own packages do, and every other range
/// stays as it was written. Nothing comes to the regular dependencies of
/// the root.
pub proof fn law_merge_gating(manifests: Seq<ManifestView>, policy: PolicyView, i: int, k: int)
    requires
        0 <= i < manifests.len(),
        0 <= k < manifests[i].dependencies.len(),
    ensures
        ({
            let regular = sets_of(manifests, false);
            let before = manifests[i].dependencies;
            let after = reconciled(manifests, policy).manifests[i].dependencies;
            &&& reconciled(manifests, policy).root_dependencies.len() == 0
            &&& after.len() == before.len()
            &&& after[k].0 == before[k].0
            &&& policy.merge ==> after[k].1 == reconciled_range(regular, before[k].0)
            &&& !policy.merge && !is_workspace_package(policy, before[k].0) ==> after[k]
                == before[k]
            &&& !policy.merge && is_workspace_package(policy, before[k].0) ==> after[k].1
                == reconciled_range(regular, before[k].0)
        }),
{
}

/// The row of a name that one of the maps holds.
fn row_of<'a>(
    table: &'a Vec<Tally>,
    name: &String,
    Ghost(sets): Ghost<Seq<Seq<(Seq<char>, Seq<char>)>>>,
) -> (row: &'a Tally)
    requires
        tally_views(table@) == tallies(sets),
        occurrences(sets, name@) > 0,
    ensures
        row@.name == name@,
        row@.count == occurrences(sets, name@),
        row@.best == best(sets, name@)->Some_0,
{
    proof {
        lemma_names_seen(sets, name@);
        let names = names_seen(sets);
        assert(names.contains(name@));
        let k = choose|k: int| 0 <= k < names.len() && names[k] == name@;
        assert(tallies(sets).len() == names.len());
        assert(tally_views(table@).len() == table@.len());
        assert(tally_views(table@)[k] == table@[k]@);
        assert(tallies(sets)[k].name == name@);
        assert(table[k].name@ == name@);
    }
    let mut k: usize = 0;
    while k < table.len()
        invariant
            k <= table.len(),
            tally_views(table@) == tallies(sets),
            forall|l: int| 0 <= l < k ==> (#[trigger] table[l]).name@ != name@,
            exists|l: int| 0 <= l < table.len() && (#[trigger] table[l]).name@ == name@,
        decreases table.len() - k,
    {
        if table[k].name == *name {
            proof {
                assert(tally_views(table@).len() == table@.len());
                assert(tallies(sets).len() == names_seen(sets).len());
                assert(tally_views(table@)[k as int] == table@[k as int]@);
                assert(tallies(sets)[k as int].name == names_seen(sets)[k as int]);
            }
            return &table[k];
        }
        k += 1;
    }
    proof {
        assert(false);
    }
    &table[0]
}

/// The development dependencies of the root.
fn hoist(table: &Vec<Tally>, total: usize, Ghost(sets): Ghost<Seq<Seq<(Seq<char>, Seq<char>)>>>) -> (root: DependencyMap)
    requires
        tally_views(table@) == tallies(sets),
    ensures
        root@ == hoisted_rows(tallies(sets), total as nat),
{
    let ghost rows = tally_views(table@);
    let mut entries: Vec<Dependency> = Vec::new();
    let mut k: usize = 0;
    proof {
        assert(rows.take(0) =~= Seq::empty());
    }
    while k < table.len()
        invariant
            k <= table.len(),
            rows == tally_views(table@),
            views_of(entries@) == hoisted_rows(rows.take(k as int), total as nat),
        decreases table.len() - k,
    {
        let row = &table[k];
        proof {
            assert(rows.take(k + 1).drop_last() =~= rows.take(k as int));
            assert(rows.take(k + 1).last() == row@);
        }
        let ghost before = views_of(entries@);
        if row.count == total {
            entries.push(Dependency { name: row.name.clone(), range: row.best.to_string() });
            proof {
                assert(views_of(entries@) =~= before.push((row@.name, render(row@.best))));
            }
        }
        k += 1;
    }
    proof {
        assert(rows.take(table.len() as int) =~= rows);
        let names = names_seen(sets);
        lemma_names_seen(sets, Seq::empty());
        assert forall|a: int, b: int|
            0 <= a < rows.len() && 0 <= b < rows.len() && a != b implies (#[trigger] rows[a]).name
            != (#[trigger] rows[b]).name by {
            assert(rows[a].name == names[a] && rows[b].name == names[b]);
        }
        lemma_hoisted_rows_names(rows, total as nat);
    }
    DependencyMap::from_entries(entries)
}

/// The development map of one manifest after reconciliation.
fn rewrite_dev(
    map: &DependencyMap,
    table: &Vec<Tally>,
    total: usize,
    Ghost(sets): Ghost<Seq<Seq<(Seq<char>, Seq<char>)>>>,
    Ghost(i): Ghost<int>,
) -> (out: DependencyMap)
    requires
        tally_views(table@) == tallies(sets),
        0 <= i < sets.len(),
        sets[i] == map@,
        sets.len() == total,
    ensures
        out@ == rewritten_dev(map@, sets),
{
    let count = map.len();
    let mut entries: Vec<Dependency> = Vec::new();
    let mut j: usize = 0;
    proof {
        assert(map@.take(0) =~= Seq::empty());
    }
    while j < count
        invariant
            j <= count,
            count == map@.len(),
            unique_names(map@),
            tally_views(table@) == tallies(sets),
            0 <= i < sets.len(),
            sets[i] == map@,
            sets.len() == total,
            views_of(entries@) == rewritten_dev(map@.take(j as int), sets),
        decreases count - j,
    {
        let entry = map.entry_at(j);
        proof {
            assert(map@.take(j + 1).drop_last() =~= map@.take(j as int));
            assert(map@.take(j + 1).last() == entry@);
            crate::manifest::lemma_lookup_unique(map@, j as int);
            lemma_held_is_counted(sets, i, entry@.0);
        }
        let row = row_of(table, &entry.name, Ghost(sets));
        let ghost before = views_of(entries@);
        if row.count != total {
            entries.push(Dependency { name: entry.name.clone(), range: row.best.to_string() });
            proof {
                assert(views_of(entries@) =~= before.push(
                    (entry@.0, reconciled_range(sets, entry@.0)),
                ));
            }
        }
        j += 1;
    }
    proof {
        assert(map@.take(count as int) =~= map@);
        lemma_rewritten_dev_names(map@, sets);
    }
    DependencyMap::from_entries(entries)
}

/// The regular map of one manifest after reconciliation.
fn rewrite_regular(
    map: &DependencyMap,
    table: &Vec<Tally>,
    policy: &Policy,
    Ghost(sets): Ghost<Seq<Seq<(Seq<char>, Seq<char>)>>>,
    Ghost(i): Ghost<int>,
) -> (out: DependencyMap)
    requires
        tally_views(table@) == tallies(sets),
        0 <= i < sets.len(),
        sets[i] == map@,
    ensures
        out@ == rewritten(map@, sets, policy@),
{
    let count = map.len();
    let prefix = chars_of(policy.workspace_prefix.as_str());
    let mut entries: Vec<Dependency> = Vec::new();
    let mut j: usize = 0;
    while j < count
        invariant
            j <= count,
            count == map@.len(),
            unique_names(map@),
            tally_views(table@) == tallies(sets),
            0 <= i < sets.len(),
            sets[i] == map@,
            prefix@ == policy@.workspace_prefix,
            entries@.len() == j,
            forall|k: int|
                0 <= k < j ==> (#[trigger] entries@[k])@ == rewritten(map@, sets, policy@)[k],
        decreases count - j,
    {
        let entry = map.entry_at(j);
        let name = chars_of(entry.name.as_str());
        let range = if policy.merge || starts_with(&name, &prefix) {
            proof {
                crate::manifest::lemma_lookup_unique(map@, j as int);
                lemma_held_is_counted(sets, i, entry@.0);
            }
            row_of(table, &entry.name, Ghost(sets)).best.to_string()
        } else {
            entry.range.clone()
        };
        entries.push(Dependency { name: entry.name.clone(), range });
        j += 1;
    }
    proof {
        assert(views_of(entries@) =~= rewritten(map@, sets, policy@));
        assert forall|a: int, b: int|
            0 <= a < count && 0 <= b < count && a != b implies views_of(entries@)[a].0 != views_of(
            entries@,
        )[b].0 by {
            assert(views_of(entries@)[a].0 == map@[a].0);
            assert(views_of(entries@)[b].0 == map@[b].0);
        }
    }
    DependencyMap::from_entries(entries)
}

/// Reconciles the manifests of a workspace.
///
/// The regular maps of all manifests are read first, in the order of the
/// manifests, and then the development maps. The first range that does
/// not parse ends the run with an error that names it, and nothing else
/// is returned. Where every range parses the result is `Ok` and holds
/// the workspace that [`reconciled`] describes: the development
/// dependencies that every manifest has move to the root, at the highest
/// version asked of them; the others stay with their manifests, at the
/// highest version asked of them anywhere; and the regular dependencies
/// stay where they are, rewritten as the policy says.
pub fn reconcile(manifests: &Vec<Manifest>, policy: &Policy) -> (r: Result<Workspace, ReconcileError>)
    ensures
        r is Ok <==> all_parse(sets_of(manifest_views(manifests@), false)) && all_parse(
            sets_of(manifest_views(manifests@), true),
        ),
        r matches Ok(workspace) ==> workspace@ == reconciled(manifest_views(manifests@), policy@),
        r matches Err(e) ==> {
            ||| exists|i: int, j: int|
                #[trigger] is_first_failure(sets_of(manifest_views(manifests@), false), i, j)
                    && e@ == failure_report(manifest_views(manifests@), false, i, j)
            ||| all_parse(sets_of(manifest_views(manifests@), false)) && exists|i: int, j: int|
                #[trigger] is_first_failure(sets_of(manifest_views(manifests@), true), i, j) && e@
                    == failure_report(manifest_views(manifests@), true, i, j)
        },
{
    let ghost views = manifest_views(manifests@);
    let ghost regular = sets_of(views, false);
    let ghost development = sets_of(views, true);
    let regular_table = match aggregate(manifests, false) {
        Ok(table) => table,
        Err(e) => {
            return Err(e);
        },
    };
    let development_table = match aggregate(manifests, true) {
        Ok(table) => table,
        Err(e) => {
            return Err(e);
        },
    };
    let total = manifests.len();
    let root_dev_dependencies = hoist(&development_table, total, Ghost(development));
    let mut rewritten_manifests: Vec<Manifest> = Vec::new();
    let mut i: usize = 0;
    while i < total
        invariant
            i <= total,
            total == manifests.len(),
            views == manifest_views(manifests@),
            regular == sets_of(views, false),
            development == sets_of(views, true),
            tally_views(regular_table@) == tallies(regular),
            tally_views(development_table@) == tallies(development),
            rewritten_manifests@.len() == i,
            forall|k: int|
                0 <= k < i ==> (#[trigger] rewritten_manifests@[k])@ == reconciled(
                    views,
                    policy@,
                ).manifests[k],
        decreases total - i,
    {
        let manifest = &manifests[i];
        proof {
            assert(views[i as int] == manifest@);
        }
        let dependencies = rewrite_regular(
            &manifest.dependencies,
            &regular_table,
            policy,
            Ghost(regular),
            Ghost(i as int),
        );
        let dev_dependencies = rewrite_dev(
            &manifest.dev_dependencies,
            &development_table,
            total,
            Ghost(development),
            Ghost(i as int),
        );
        rewritten_manifests.push(
            Manifest { name: manifest.name.clone(), dependencies, dev_dependencies },
        );
        i += 1;
    }
    let workspace = Workspace {
        root_dependencies: DependencyMap::new(),
        root_dev_dependencies,
        manifests: rewritten_manifests,
    };
    proof {
        assert(workspace@.manifests =~= reconciled(views, policy@).manifests);
        assert(workspace@.root_dependencies =~= reconciled(views, policy@).root_dependencies);
    }
    Ok(workspace)
}

} // verus!
