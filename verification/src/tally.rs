//! Folding the dependency maps of many manifests into one table: for each
//! name, in how many maps it occurs and the highest version asked of it.

use vstd::prelude::*;
use crate::error::{ParseError, ReconcileError, ReconcileErrorView};
use crate::manifest::{
    holds,
    lemma_lookup,
    lookup,
    manifest_views,
    unique_names,
    Manifest,
    ManifestView,
};
use crate::order::exceeds;
use crate::parse::parse_range;
use crate::version::{Version, VersionView};

verus! {

/// The dependency maps of the manifests, one per manifest: the
/// development ones with `dev` set, the regular ones without.
pub open spec fn sets_of(manifests: Seq<ManifestView>, dev: bool) -> Seq<
    Seq<(Seq<char>, Seq<char>)>,
> {
    Seq::new(
        manifests.len(),
        |i: int|
            if dev {
                manifests[i].dev_dependencies
            } else {
                manifests[i].dependencies
            },
    )
}

/// Every range string in the maps can be parsed.
pub open spec fn all_parse(sets: Seq<Seq<(Seq<char>, Seq<char>)>>) -> bool {
    forall|i: int, j: int|
        0 <= i < sets.len() && 0 <= j < sets[i].len() ==> parse_range(
            (#[trigger] sets[i][j]).1,
        ) is Ok
}

/// The number of maps that hold `name`.
pub open spec fn occurrences(sets: Seq<Seq<(Seq<char>, Seq<char>)>>, name: Seq<char>) -> nat
    decreases sets.len(),
{
    if sets.len() == 0 {
        0
    } else if lookup(sets.last(), name) is Some {
        occurrences(sets.drop_last(), name) + 1
    } else {
        occurrences(sets.drop_last(), name)
    }
}

/// The higher of two versions; the one that came first where neither
/// ranks above the other.
pub open spec fn higher(first: VersionView, second: VersionView) -> VersionView {
    if exceeds(second, first) {
        second
    } else {
        first
    }
}

/// The highest version that the maps ask of `name`, and among several
/// highest ones that of the earliest map; `None` when no map holds the
/// name. A range that cannot be parsed is passed over.
pub open spec fn best(sets: Seq<Seq<(Seq<char>, Seq<char>)>>, name: Seq<char>) -> Option<
    VersionView,
>
    decreases sets.len(),
{
    if sets.len() == 0 {
        None
    } else {
        let earlier = best(sets.drop_last(), name);
        match lookup(sets.last(), name) {
            None => earlier,
            Some(range) => match parse_range(range) {
                Err(_) => earlier,
                Ok(version) => match earlier {
                    None => Some(version),
                    Some(found) => Some(higher(found, version)),
                },
            },
        }
    }
}

/// `names`, and after them the names of `entries` that are not yet
/// among them, in the order in which `entries` has them.
pub open spec fn append_new(names: Seq<Seq<char>>, entries: Seq<(Seq<char>, Seq<char>)>) -> Seq<
    Seq<char>,
>
    decreases entries.len(),
{
    if entries.len() == 0 {
        names
    } else {
        let so_far = append_new(names, entries.drop_last());
        if so_far.contains(entries.last().0) {
            so_far
        } else {
            so_far.push(entries.last().0)
        }
    }
}

/// The names that the maps hold, each once, in the order in which they
/// first come when the maps are read one after the other.
pub open spec fn names_seen(sets: Seq<Seq<(Seq<char>, Seq<char>)>>) -> Seq<Seq<char>>
    decreases sets.len(),
{
    if sets.len() == 0 {
        Seq::empty()
    } else {
        append_new(names_seen(sets.drop_last()), sets.last())
    }
}

/// One row of the table, as the contracts see it.
pub ghost struct TallyView {
    pub name: Seq<char>,
    pub count: nat,
    pub best: VersionView,
}

/// The table of the maps: a row for each name, in the order of
/// `names_seen`, with the number of maps that hold the name and the
/// highest version asked of it.
pub open spec fn tallies(sets: Seq<Seq<(Seq<char>, Seq<char>)>>) -> Seq<TallyView> {
    let names = names_seen(sets);
    Seq::new(
        names.len(),
        |k: int|
            TallyView {
                name: names[k],
                count: occurrences(sets, names[k]),
                best: best(sets, names[k])->Some_0,
            },
    )
}

/// A name is among `append_new(names, entries)` exactly when it is among
/// `names` or `entries` holds it; and no name is repeated if none was in
/// `names`.
pub proof fn lemma_append_new(
    names: Seq<Seq<char>>,
    entries: Seq<(Seq<char>, Seq<char>)>,
    name: Seq<char>,
)
    ensures
        append_new(names, entries).contains(name) <==> names.contains(name) || holds(
            entries,
            name,
        ),
        names.no_duplicates() ==> append_new(names, entries).no_duplicates(),
    decreases entries.len(),
{
    if entries.len() == 0 {
    } else {
        let front = entries.drop_last();
        let last = entries.last();
        let so_far = append_new(names, front);
        lemma_append_new(names, front, name);
        lemma_append_new(names, front, last.0);
        assert(entries[entries.len() - 1] == last);
        if holds(front, name) {
            let k = choose|k: int| 0 <= k < front.len() && (#[trigger] front[k]).0 == name;
            assert(entries[k].0 == name);
        }
        if holds(entries, name) && last.0 != name {
            let k = choose|k: int| 0 <= k < entries.len() && (#[trigger] entries[k]).0 == name;
            assert(front[k].0 == name);
        }
        if !so_far.contains(last.0) {
            let grown = so_far.push(last.0);
            assert(grown[so_far.len() as int] == last.0);
            if grown.contains(name) && name != last.0 {
                let k = choose|k: int| 0 <= k < grown.len() && grown[k] == name;
                assert(so_far[k] == name);
            }
            if so_far.contains(name) {
                let k = choose|k: int| 0 <= k < so_far.len() && so_far[k] == name;
                assert(grown[k] == name);
            }
        }
    }
}

/// The names seen are those that some map holds, each once.
pub proof fn lemma_names_seen(sets: Seq<Seq<(Seq<char>, Seq<char>)>>, name: Seq<char>)
    ensures
        names_seen(sets).contains(name) <==> occurrences(sets, name) > 0,
        names_seen(sets).no_duplicates(),
        occurrences(sets, name) <= sets.len(),
    decreases sets.len(),
{
    if sets.len() > 0 {
        lemma_names_seen(sets.drop_last(), name);
        lemma_append_new(names_seen(sets.drop_last()), sets.last(), name);
        lemma_lookup(sets.last(), name);
    }
}

/// A name has a best version only when some map holds it, and, where
/// every range parses, whenever some map holds it.
pub proof fn lemma_best_exists(sets: Seq<Seq<(Seq<char>, Seq<char>)>>, name: Seq<char>)
    ensures
        best(sets, name) is Some ==> occurrences(sets, name) > 0,
        all_parse(sets) && occurrences(sets, name) > 0 ==> best(sets, name) is Some,
    decreases sets.len(),
{
    if sets.len() > 0 {
        let front = sets.drop_last();
        lemma_best_exists(front, name);
        if all_parse(sets) {
            assert forall|i: int, j: int|
                0 <= i < front.len() && 0 <= j < front[i].len() implies parse_range(
                (#[trigger] front[i][j]).1,
            ) is Ok by {
                assert(front[i] == sets[i]);
                assert(parse_range(sets[i][j].1) is Ok);
            }
            lemma_found_range_parses(sets, sets.len() - 1, name);
        }
    }
}

/// Where every range parses, so does the one that a map holds for a name.
pub proof fn lemma_found_range_parses(
    sets: Seq<Seq<(Seq<char>, Seq<char>)>>,
    i: int,
    name: Seq<char>,
)
    requires
        all_parse(sets),
        0 <= i < sets.len(),
    ensures
        lookup(sets[i], name) matches Some(range) ==> parse_range(range) is Ok,
{
    lemma_lookup_is_entry(sets[i], name);
    if lookup(sets[i], name) is Some {
        let k = choose|k: int|
            0 <= k < sets[i].len() && (#[trigger] sets[i][k]).0 == name && lookup(sets[i], name)
                == Some(sets[i][k].1);
        assert(parse_range(sets[i][k].1) is Ok);
    }
}

/// What `lookup` finds is the range of an entry with that name.
pub proof fn lemma_lookup_is_entry(entries: Seq<(Seq<char>, Seq<char>)>, name: Seq<char>)
    ensures
        lookup(entries, name) is Some ==> exists|k: int|
            0 <= k < entries.len() && (#[trigger] entries[k]).0 == name && lookup(entries, name)
                == Some(entries[k].1),
    decreases entries.len(),
{
    if entries.len() == 0 {
    } else if entries.last().0 == name {
        assert(entries[entries.len() - 1] == entries.last());
    } else {
        let front = entries.drop_last();
        lemma_lookup_is_entry(front, name);
        if lookup(front, name) is Some {
            let k = choose|k: int|
                0 <= k < front.len() && (#[trigger] front[k]).0 == name && lookup(front, name)
                    == Some(front[k].1);
            assert(entries[k] == front[k]);
        }
    }
}

/// Where every range parses, so does every range of all maps but the last.
proof fn lemma_front_parses(sets: Seq<Seq<(Seq<char>, Seq<char>)>>)
    requires
        all_parse(sets),
        sets.len() > 0,
    ensures
        all_parse(sets.drop_last()),
{
    let front = sets.drop_last();
    assert forall|a: int, b: int|
        0 <= a < front.len() && 0 <= b < front[a].len() implies parse_range(
        (#[trigger] front[a][b]).1,
    ) is Ok by {
        assert(front[a] == sets[a]);
        assert(parse_range(sets[a][b].1) is Ok);
    }
}

/// The higher of two versions is one of them, and neither ranks above
/// it; nor does a version that does not rank above the first.
proof fn lemma_higher(first: VersionView, second: VersionView, other: VersionView)
    ensures
        higher(first, second) == first || higher(first, second) == second,
        !exceeds(first, higher(first, second)),
        !exceeds(second, higher(first, second)),
        !exceeds(other, first) ==> !exceeds(other, higher(first, second)),
{
    crate::order::law_total_order(other, first, second);
    crate::order::law_total_order(first, second, first);
    crate::order::law_total_order(second, second, first);
}

/// The best version of a name is one that some map asks of it.
pub proof fn law_best_is_asked(sets: Seq<Seq<(Seq<char>, Seq<char>)>>, name: Seq<char>)
    requires
        best(sets, name) is Some,
    ensures
        exists|k: int|
            0 <= k < sets.len() && lookup(#[trigger] sets[k], name) is Some && parse_range(
                lookup(sets[k], name)->Some_0,
            ) == Ok::<VersionView, ParseError>(best(sets, name)->Some_0),
    decreases sets.len(),
{
    if sets.len() > 0 {
        let front = sets.drop_last();
        let last = sets.len() - 1;
        assert(sets[last] == sets.last());
        let from_last = lookup(sets.last(), name) is Some && parse_range(
            lookup(sets.last(), name)->Some_0,
        ) == Ok::<VersionView, ParseError>(best(sets, name)->Some_0);
        if !from_last {
            assert(best(front, name) is Some && best(sets, name) == best(front, name)) by {
                if lookup(sets.last(), name) is Some && best(front, name) is Some {
                    let range = lookup(sets.last(), name)->Some_0;
                    let found = best(front, name)->Some_0;
                    if parse_range(range) is Ok {
                        lemma_higher(found, parse_range(range)->Ok_0, found);
                    }
                }
            }
            law_best_is_asked(front, name);
            let k = choose|k: int|
                0 <= k < front.len() && lookup(#[trigger] front[k], name) is Some && parse_range(
                    lookup(front[k], name)->Some_0,
                ) == Ok::<VersionView, ParseError>(best(front, name)->Some_0);
            assert(sets[k] == front[k]);
        }
    }
}

/// Where every range parses, a name that some map holds has a best
/// version, and no version asked of the name ranks above it.
pub proof fn law_best_is_highest(sets: Seq<Seq<(Seq<char>, Seq<char>)>>, name: Seq<char>, i: int)
    requires
        all_parse(sets),
        0 <= i < sets.len(),
        lookup(sets[i], name) is Some,
    ensures
        best(sets, name) is Some,
        parse_range(lookup(sets[i], name)->Some_0) is Ok,
        !exceeds(parse_range(lookup(sets[i], name)->Some_0)->Ok_0, best(sets, name)->Some_0),
    decreases sets.len(),
{
    let front = sets.drop_last();
    let last = sets.len() - 1;
    let asked = parse_range(lookup(sets[i], name)->Some_0)->Ok_0;
    assert(sets[last] == sets.last());
    lemma_front_parses(sets);
    lemma_found_range_parses(sets, i, name);
    lemma_found_range_parses(sets, last, name);
    if i < last {
        assert(front[i] == sets[i]);
        law_best_is_highest(front, name, i);
        let found = best(front, name)->Some_0;
        if lookup(sets.last(), name) is Some {
            let range = lookup(sets.last(), name)->Some_0;
            lemma_higher(found, parse_range(range)->Ok_0, asked);
        }
    } else {
        if best(front, name) is Some {
            lemma_higher(best(front, name)->Some_0, asked, asked);
        } else {
            lemma_higher(asked, asked, asked);
        }
    }
}

/// Every row of the table stands for a name of its own, which at least
/// one map and at most all maps hold; and where every range parses, the
/// version in the row is the best version of that name.
pub proof fn law_rows_are_counted(sets: Seq<Seq<(Seq<char>, Seq<char>)>>, k: int, other: int)
    requires
        0 <= k < tallies(sets).len(),
        0 <= other < tallies(sets).len(),
    ensures
        1 <= tallies(sets)[k].count <= sets.len(),
        all_parse(sets) ==> best(sets, tallies(sets)[k].name) == Some(tallies(sets)[k].best),
        other != k ==> tallies(sets)[other].name != tallies(sets)[k].name,
{
    let names = names_seen(sets);
    lemma_names_seen(sets, names[k]);
    lemma_best_exists(sets, names[k]);
    assert(names.contains(names[k]));
}

/// A name that a map holds is counted at least once.
pub proof fn lemma_held_is_counted(
    sets: Seq<Seq<(Seq<char>, Seq<char>)>>,
    i: int,
    name: Seq<char>,
)
    requires
        0 <= i < sets.len(),
        lookup(sets[i], name) is Some,
    ensures
        occurrences(sets, name) > 0,
    decreases sets.len(),
{
    if i < sets.len() - 1 {
        assert(sets.drop_last()[i] == sets[i]);
        lemma_held_is_counted(sets.drop_last(), i, name);
    }
}

/// A name is counted as often as there are maps exactly when every map
/// holds it.
pub proof fn lemma_counted_in_all(sets: Seq<Seq<(Seq<char>, Seq<char>)>>, name: Seq<char>)
    ensures
        occurrences(sets, name) <= sets.len(),
        occurrences(sets, name) == sets.len() <==> forall|i: int|
            0 <= i < sets.len() ==> lookup(#[trigger] sets[i], name) is Some,
    decreases sets.len(),
{
    if sets.len() > 0 {
        let front = sets.drop_last();
        let last = sets.len() - 1;
        lemma_counted_in_all(front, name);
        if occurrences(sets, name) == sets.len() {
            assert forall|i: int| 0 <= i < sets.len() implies lookup(
                #[trigger] sets[i],
                name,
            ) is Some by {
                if i < last {
                    assert(front[i] == sets[i]);
                }
            }
        }
        if forall|i: int| 0 <= i < sets.len() ==> lookup(#[trigger] sets[i], name) is Some {
            assert(lookup(sets[last], name) is Some);
            assert forall|i: int| 0 <= i < front.len() implies lookup(
                #[trigger] front[i],
                name,
            ) is Some by {
                assert(front[i] == sets[i]);
            }
        }
    }
}

/// One row of the table: a dependency name, the number of maps that hold
/// it, and the highest version asked of it.
#[derive(Debug, PartialEq, Eq)]
pub struct Tally {
    pub name: String,
    pub count: usize,
    pub best: Version,
}

impl View for Tally {
    type V = TallyView;

    open spec fn view(&self) -> TallyView {
        TallyView { name: self.name@, count: self.count as nat, best: self.best@ }
    }
}

/// The rows of a table as the contracts see them.
pub open spec fn tally_views(rows: Seq<Tally>) -> Seq<TallyView> {
    Seq::new(rows.len(), |k: int| rows[k]@)
}

/// Every entry that is read before entry `j` of map `i` parses.
pub open spec fn parses_before(sets: Seq<Seq<(Seq<char>, Seq<char>)>>, i: int, j: int) -> bool {
    &&& forall|a: int, b: int|
        0 <= a < i && 0 <= b < sets[a].len() ==> parse_range((#[trigger] sets[a][b]).1) is Ok
    &&& forall|b: int| 0 <= b < j ==> parse_range((#[trigger] sets[i][b]).1) is Ok
}

/// Entry `j` of map `i` is the first, in reading order, whose range does
/// not parse.
pub open spec fn is_first_failure(sets: Seq<Seq<(Seq<char>, Seq<char>)>>, i: int, j: int) -> bool {
    &&& 0 <= i < sets.len()
    &&& 0 <= j < sets[i].len()
    &&& parses_before(sets, i, j)
    &&& parse_range(sets[i][j].1) is Err
}

/// The report on entry `j` of the chosen map of manifest `i`.
pub open spec fn failure_report(manifests: Seq<ManifestView>, dev: bool, i: int, j: int) -> ReconcileErrorView {
    let entry = sets_of(manifests, dev)[i][j];
    ReconcileErrorView {
        manifest: manifests[i].name,
        dependency: entry.0,
        range: entry.1,
        kind: parse_range(entry.1)->Err_0,
    }
}

/// The rows are those of the table of `sets`.
spec fn rows_match(rows: Seq<TallyView>, sets: Seq<Seq<(Seq<char>, Seq<char>)>>) -> bool {
    &&& rows.len() == names_seen(sets).len()
    &&& forall|k: int|
        0 <= k < rows.len() ==> {
            &&& (#[trigger] rows[k]).name == names_seen(sets)[k]
            &&& rows[k].count == occurrences(sets, rows[k].name)
            &&& Some(rows[k].best) == best(sets, rows[k].name)
        }
}

/// What reading entry `j` of the map `cur` changes, after the maps
/// `before` and the entries of `cur` in front of it.
proof fn lemma_read_entry(
    before: Seq<Seq<(Seq<char>, Seq<char>)>>,
    cur: Seq<(Seq<char>, Seq<char>)>,
    j: int,
    name: Seq<char>,
)
    requires
        unique_names(cur),
        0 <= j < cur.len(),
    ensures
        ({
            let partial = before.push(cur.take(j));
            let next = before.push(cur.take(j + 1));
            let read = cur[j].0;
            &&& names_seen(next) == if names_seen(partial).contains(read) {
                names_seen(partial)
            } else {
                names_seen(partial).push(read)
            }
            &&& name != read ==> occurrences(next, name) == occurrences(partial, name) && best(
                next,
                name,
            ) == best(partial, name)
            &&& occurrences(partial, read) == occurrences(before, read)
            &&& occurrences(next, read) == occurrences(before, read) + 1
            &&& best(partial, read) == best(before, read)
            &&& best(next, read) == match parse_range(cur[j].1) {
                Err(_) => best(before, read),
                Ok(version) => match best(before, read) {
                    None => Some(version),
                    Some(found) => Some(higher(found, version)),
                },
            }
        }),
{
    let partial = before.push(cur.take(j));
    let next = before.push(cur.take(j + 1));
    let read = cur[j].0;
    assert(partial.drop_last() =~= before);
    assert(next.drop_last() =~= before);
    assert(partial.last() == cur.take(j));
    assert(next.last() == cur.take(j + 1));
    assert(cur.take(j + 1).drop_last() =~= cur.take(j));
    assert(cur.take(j + 1).last() == cur[j]);
    lemma_lookup(cur.take(j), read);
    if holds(cur.take(j), read) {
        let k = choose|k: int| 0 <= k < cur.take(j).len() && (#[trigger] cur.take(j)[k]).0 == read;
        assert(cur[k].0 == cur[j].0);
    }
}

/// Starting on a new, still unread map changes nothing.
proof fn lemma_open_map(rows: Seq<TallyView>, before: Seq<Seq<(Seq<char>, Seq<char>)>>)
    requires
        rows_match(rows, before),
    ensures
        rows_match(rows, before.push(Seq::empty())),
{
    let opened = before.push(Seq::<(Seq<char>, Seq<char>)>::empty());
    assert(opened.drop_last() =~= before);
    assert(opened.last().len() == 0);
}

/// The index of the row for `name`.
fn find_row(table: &Vec<Tally>, name: &String) -> (at: Option<usize>)
    ensures
        match at {
            Some(k) => k < table.len() && table[k as int].name@ == name@,
            None => forall|k: int| 0 <= k < table.len() ==> (#[trigger] table[k]).name@ != name@,
        },
{
    let mut k: usize = 0;
    while k < table.len()
        invariant
            k <= table.len(),
            forall|l: int| 0 <= l < k ==> (#[trigger] table[l]).name@ != name@,
        decreases table.len() - k,
    {
        if table[k].name == *name {
            return Some(k);
        }
        k += 1;
    }
    None
}

/// Reads one entry into the table.
fn absorb(
    table: &mut Vec<Tally>,
    name: &String,
    version: Version,
    Ghost(before): Ghost<Seq<Seq<(Seq<char>, Seq<char>)>>>,
    Ghost(cur): Ghost<Seq<(Seq<char>, Seq<char>)>>,
    Ghost(j): Ghost<int>,
)
    requires
        rows_match(tally_views(old(table)@), before.push(cur.take(j))),
        unique_names(cur),
        0 <= j < cur.len(),
        cur[j].0 == name@,
        parse_range(cur[j].1) == Ok::<VersionView, ParseError>(version@),
        before.len() < usize::MAX,
    ensures
        rows_match(tally_views(final(table)@), before.push(cur.take(j + 1))),
{
    let ghost partial = before.push(cur.take(j));
    let ghost next = before.push(cur.take(j + 1));
    let ghost rows = tally_views(table@);
    proof {
        lemma_read_entry(before, cur, j, name@);
        lemma_names_seen(partial, name@);
        lemma_names_seen(before, name@);
        assert forall|k: int| 0 <= k < rows.len() implies occurrences(
            next,
            (#[trigger] rows[k]).name,
        ) == (if rows[k].name == name@ {
            rows[k].count + 1
        } else {
            rows[k].count
        }) && best(next, rows[k].name) == (if rows[k].name == name@ {
            Some(higher(rows[k].best, version@))
        } else {
            Some(rows[k].best)
        }) by {
            lemma_read_entry(before, cur, j, rows[k].name);
        }
    }
    match find_row(table, name) {
        Some(k) => {
            proof {
                assert(rows[k as int].name == name@);
                assert(names_seen(partial)[k as int] == name@);
                assert(names_seen(partial).contains(name@));
            }
            let row = &mut table[k];
            row.count = row.count + 1;
            if version.outranks(&row.best) {
                row.best = version;
            }
            proof {
                let updated = tally_views(table@);
                assert forall|l: int| 0 <= l < updated.len() && l != k implies #[trigger] updated[l]
                    == rows[l] by {}
                assert forall|l: int| 0 <= l < updated.len() && l != k implies (
                #[trigger] updated[l]).name != name@ by {
                    lemma_names_seen(partial, name@);
                    assert(names_seen(partial)[l] == rows[l].name);
                }
                assert(updated[k as int].best == higher(rows[k as int].best, version@));
            }
        },
        None => {
            proof {
                if names_seen(partial).contains(name@) {
                    let k = choose|k: int|
                        0 <= k < names_seen(partial).len() && names_seen(partial)[k] == name@;
                    assert(rows[k].name == name@);
                    assert(table[k].name@ == name@);
                }
            }
            table.push(Tally { name: name.clone(), count: 1, best: version });
            proof {
                let updated = tally_views(table@);
                assert forall|l: int| 0 <= l < rows.len() implies #[trigger] updated[l]
                    == rows[l] by {}
                assert forall|l: int| 0 <= l < rows.len() implies (#[trigger] updated[l]).name
                    != name@ by {}
                assert(updated[rows.len() as int].best == version@);
                lemma_best_exists(before, name@);
            }
        },
    }
}

/// Builds the table of the manifests' maps, the development ones with
/// `dev` set and the regular ones without.
///
/// The maps are read manifest by manifest and each from its first entry
/// on. The first range that does not parse ends the reading: the error
/// names the manifest, the dependency and the range, and no table is
/// returned.
pub fn aggregate(manifests: &Vec<Manifest>, dev: bool) -> (r: Result<Vec<Tally>, ReconcileError>)
    ensures
        r is Ok <==> all_parse(sets_of(manifest_views(manifests@), dev)),
        r matches Ok(table) ==> tally_views(table@) == tallies(
            sets_of(manifest_views(manifests@), dev),
        ),
        r matches Err(e) ==> exists|i: int, j: int|
            #[trigger] is_first_failure(sets_of(manifest_views(manifests@), dev), i, j) && e@
                == failure_report(manifest_views(manifests@), dev, i, j),
{
    let ghost views = manifest_views(manifests@);
    let ghost sets = sets_of(views, dev);
    let mut table: Vec<Tally> = Vec::new();
    let mut i: usize = 0;
    proof {
        assert(sets.take(0) =~= Seq::empty());
    }
    while i < manifests.len()
        invariant
            i <= manifests.len(),
            views == manifest_views(manifests@),
            sets == sets_of(views, dev),
            parses_before(sets, i as int, 0),
            rows_match(tally_views(table@), sets.take(i as int)),
        decreases manifests.len() - i,
    {
        let manifest = &manifests[i];
        let map = if dev {
            &manifest.dev_dependencies
        } else {
            &manifest.dependencies
        };
        let count = map.len();
        let ghost before = sets.take(i as int);
        let ghost cur = sets[i as int];
        proof {
            assert(views[i as int] == manifest@);
            lemma_open_map(tally_views(table@), before);
            assert(cur.take(0) =~= Seq::empty());
        }
        let mut j: usize = 0;
        while j < count
            invariant
                i < manifests.len(),
                j <= count,
                count == cur.len(),
                views == manifest_views(manifests@),
                sets == sets_of(views, dev),
                before == sets.take(i as int),
                cur == sets[i as int],
                cur == map@,
                manifest == manifests[i as int],
                unique_names(cur),
                parses_before(sets, i as int, j as int),
                rows_match(tally_views(table@), before.push(cur.take(j as int))),
            decreases count - j,
        {
            let entry = map.entry_at(j);
            match Version::parse(entry.range.as_str()) {
                Err(kind) => {
                    proof {
                        assert(views[i as int] == manifest@);
                        assert(is_first_failure(sets, i as int, j as int));
                    }
                    return Err(
                        ReconcileError {
                            manifest: manifest.name.clone(),
                            dependency: entry.name.clone(),
                            range: entry.range.clone(),
                            kind,
                        },
                    );
                },
                Ok(version) => {
                    absorb(
                        &mut table,
                        &entry.name,
                        version,
                        Ghost(before),
                        Ghost(cur),
                        Ghost(j as int),
                    );
                },
            }
            j += 1;
        }
        proof {
            assert(cur.take(count as int) =~= cur);
            assert(before.push(cur) =~= sets.take(i + 1));
        }
        i += 1;
    }
    proof {
        assert(sets.take(manifests.len() as int) =~= sets);
        let rows = tally_views(table@);
        assert forall|k: int| 0 <= k < rows.len() implies #[trigger] rows[k] == tallies(
            sets,
        )[k] by {}
        assert(rows =~= tallies(sets));
    }
    Ok(table)
}

} // verus!
