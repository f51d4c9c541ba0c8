//! The stored form of the sky settings' category switches: the names of the
//! categories that are switched off, joined by `|`.

use vstd::prelude::*;
use crate::text::{join_seq, join_with, lemma_split_join, split_on, split_seq, str_eq};

verus! {

broadcast use vstd::string::group_string_axioms;

/// The names whose flag is false, in order.
pub open spec fn inactive_names(entries: Seq<(Seq<char>, bool)>) -> Seq<Seq<char>>
    decreases entries.len(),
{
    if entries.len() == 0 {
        seq![]
    } else {
        let rest = inactive_names(entries.drop_last());
        if entries.last().1 {
            rest
        } else {
            rest.push(entries.last().0)
        }
    }
}

pub open spec fn entries_view(entries: Seq<(String, bool)>) -> Seq<(Seq<char>, bool)> {
    entries.map_values(|e: (String, bool)| (e.0@, e.1))
}

/// The names in order, each only where it comes first, as a map keeps them.
pub open spec fn first_occurrences(ns: Seq<Seq<char>>) -> Seq<Seq<char>>
    decreases ns.len(),
{
    if ns.len() == 0 {
        seq![]
    } else {
        let r = first_occurrences(ns.drop_last());
        if r.contains(ns.last()) {
            r
        } else {
            r.push(ns.last())
        }
    }
}

/// The entries read back from a stored list: each name between the
/// separators, once, switched off. The empty string stands for no entry at
/// all.
pub open spec fn parsed_entries(s: Seq<char>) -> Seq<(Seq<char>, bool)> {
    if s.len() == 0 {
        seq![]
    } else {
        first_occurrences(split_seq(s, '|')).map_values(|n: Seq<char>| (n, false))
    }
}

/// Whether no name occurs twice.
pub open spec fn names_distinct(ns: Seq<Seq<char>>) -> bool {
    forall|i: int, j: int| 0 <= i < j < ns.len() ==> ns[i] != ns[j]
}

/// Names that are all different are kept as they are.
proof fn lemma_first_occurrences_distinct(ns: Seq<Seq<char>>)
    requires
        names_distinct(ns),
    ensures
        first_occurrences(ns) == ns,
    decreases ns.len(),
{
    if ns.len() > 0 {
        let init = ns.drop_last();
        assert(names_distinct(init)) by {
            assert forall|i: int, j: int| 0 <= i < j < init.len() implies init[i] != init[j] by {
                assert(init[i] == ns[i] && init[j] == ns[j]);
            }
        }
        lemma_first_occurrences_distinct(init);
        if init.contains(ns.last()) {
            let j = choose|j: int| 0 <= j < init.len() && init[j] == ns.last();
            assert(ns[j] != ns[ns.len() - 1]);
        }
        assert(init.push(ns.last()) =~= ns);
    }
}

/// The stored list of the switched-off categories among `entries` (name and
/// whether it is on): their names, in the order given, joined by `|`.
pub fn hash_map_to_string(entries: &[(String, bool)]) -> (res: String)
    ensures
        res@ == join_seq(inactive_names(entries_view(entries@)), "|"@),
{
    let ghost ev = entries_view(entries@);
    let mut names: Vec<String> = Vec::new();
    let mut k: usize = 0;
    while k < entries.len()
        invariant
            k <= entries@.len() == ev.len(),
            ev == entries_view(entries@),
            names@.map_values(|p: String| p@) == inactive_names(ev.take(k as int)),
        decreases entries@.len() - k,
    {
        assert(ev.take(k + 1).drop_last() =~= ev.take(k as int));
        assert(ev.take(k + 1).last() == (entries@[k as int].0@, entries@[k as int].1));
        if !entries[k].1 {
            let ghost before = names@;
            names.push(entries[k].0.clone());
            assert(names@.map_values(|p: String| p@) =~= before.map_values(|p: String| p@).push(
                entries@[k as int].0@,
            ));
        }
        k = k + 1;
    }
    assert(ev.take(k as int) =~= ev);
    join_with(names.as_slice(), "|")
}

/// The entries stored in `string`: each name between the `|` separators,
/// once, switched off; none for the empty string.
pub fn string_to_partial_hash_map(string: &str) -> (res: Vec<(String, bool)>)
    ensures
        entries_view(res@) == parsed_entries(string@),
{
    let mut res: Vec<(String, bool)> = Vec::new();
    if string.is_empty() {
        assert(entries_view(res@) =~= parsed_entries(string@));
        return res;
    }
    let names = split_on(string, '|');
    let ghost ns = names@.map_values(|p: String| p@);
    let mut k: usize = 0;
    while k < names.len()
        invariant
            k <= names@.len() == ns.len(),
            ns == names@.map_values(|p: String| p@),
            entries_view(res@) == first_occurrences(ns.take(k as int)).map_values(|n: Seq<char>| (n, false)),
        decreases names@.len() - k,
    {
        let ghost seen = first_occurrences(ns.take(k as int));
        let mut found = false;
        let mut j: usize = 0;
        assert(res@.len() == seen.len()) by {
            assert(entries_view(res@).len() == res@.len());
            assert(seen.map_values(|n: Seq<char>| (n, false)).len() == seen.len());
        }
        while j < res.len()
            invariant
                j <= res@.len(),
                res@.len() == seen.len(),
                entries_view(res@) == seen.map_values(|n: Seq<char>| (n, false)),
                ns == names@.map_values(|p: String| p@),
                k < names@.len(),
                found == exists|m: int| 0 <= m < j && seen[m] == ns[k as int],
            decreases res@.len() - j,
        {
            assert(entries_view(res@)[j as int] == (res@[j as int].0@, res@[j as int].1));
            assert(seen.map_values(|n: Seq<char>| (n, false))[j as int] == (seen[j as int], false));
            if str_eq(res[j].0.as_str(), names[k].as_str()) {
                found = true;
            }
            j = j + 1;
        }
        assert(found == seen.contains(ns[k as int]));
        assert(ns.take(k + 1).drop_last() =~= ns.take(k as int));
        assert(ns.take(k + 1).last() == ns[k as int]);
        if !found {
            let ghost before = res@;
            res.push((names[k].clone(), false));
            assert(entries_view(res@) =~= entries_view(before).push((ns[k as int], false)));
            assert(seen.push(ns[k as int]).map_values(|n: Seq<char>| (n, false)) =~= seen.map_values(
                |n: Seq<char>| (n, false),
            ).push((ns[k as int], false)));
        }
        k = k + 1;
    }
    assert(ns.take(k as int) =~= ns);
    res
}

/// Storing the switches and reading them back gives the switched-off
/// categories, in order, when every name is non-empty and free of `|` and no
/// name has two switches (as in the map they are kept in).
pub proof fn lemma_store_and_read_back(entries: Seq<(Seq<char>, bool)>)
    requires
        forall|i: int|
            0 <= i < entries.len() ==> (#[trigger] entries[i]).0.len() > 0 && !entries[i].0.contains('|'),
        forall|i: int, j: int| 0 <= i < j < entries.len() ==> (#[trigger] entries[i]).0 != (#[trigger] entries[j]).0,
    ensures
        parsed_entries(join_seq(inactive_names(entries), "|"@)) == inactive_names(entries).map_values(
            |n: Seq<char>| (n, false),
        ),
{
    let names = inactive_names(entries);
    lemma_inactive_names_from(entries);
    reveal_strlit("|");
    assert("|"@ =~= seq!['|']);
    if names.len() == 0 {
        assert(join_seq(names, "|"@) =~= seq![]);
        assert(names.map_values(|n: Seq<char>| (n, false)) =~= seq![]);
    } else {
        lemma_split_join(names, '|');
        lemma_join_starts_with_first(names, "|"@);
        lemma_inactive_names_distinct(entries);
        lemma_first_occurrences_distinct(names);
    }
}

/// The switched-off names are names of entries, and all different where the
/// entries' names are.
proof fn lemma_inactive_names_distinct(entries: Seq<(Seq<char>, bool)>)
    requires
        forall|i: int, j: int| 0 <= i < j < entries.len() ==> (#[trigger] entries[i]).0 != (#[trigger] entries[j]).0,
    ensures
        names_distinct(inactive_names(entries)),
        forall|m: int| 0 <= m < inactive_names(entries).len() ==> exists|i: int| 0 <= i < entries.len() && (#[trigger] inactive_names(entries)[m]) == entries[i].0,
    decreases entries.len(),
{
    if entries.len() > 0 {
        let init = entries.drop_last();
        assert forall|i: int, j: int| 0 <= i < j < init.len() implies (#[trigger] init[i]).0 != (#[trigger] init[j]).0 by {
            assert(init[i] == entries[i] && init[j] == entries[j]);
        }
        lemma_inactive_names_distinct(init);
        let rest = inactive_names(init);
        let r = inactive_names(entries);
        let last = entries[entries.len() - 1];
        assert(entries.last() == last);
        assert forall|m: int| 0 <= m < r.len() implies exists|i: int| 0 <= i < entries.len() && (#[trigger] r[m]) == entries[i].0 by {
            if m < rest.len() {
                assert(r[m] == rest[m]);
                let i = choose|i: int| 0 <= i < init.len() && rest[m] == init[i].0;
                assert(init[i] == entries[i]);
            } else {
                assert(r[m] == last.0);
            }
        }
        assert forall|a: int, b: int| 0 <= a < b < r.len() implies r[a] != r[b] by {
            if b < rest.len() {
                assert(r[a] == rest[a] && r[b] == rest[b]);
            } else {
                assert(r[a] == rest[a]);
                let i = choose|i: int| 0 <= i < init.len() && rest[a] == init[i].0;
                assert(init[i] == entries[i]);
                assert(entries[i].0 != entries[entries.len() - 1].0);
            }
        }
    }
}

proof fn lemma_inactive_names_from(entries: Seq<(Seq<char>, bool)>)
    requires
        forall|i: int|
            0 <= i < entries.len() ==> (#[trigger] entries[i]).0.len() > 0 && !entries[i].0.contains('|'),
    ensures
        forall|j: int|
            0 <= j < inactive_names(entries).len() ==> (#[trigger] inactive_names(entries)[j]).len() > 0
                && !inactive_names(entries)[j].contains('|'),
    decreases entries.len(),
{
    if entries.len() > 0 {
        let init = entries.drop_last();
        assert forall|i: int| 0 <= i < init.len() implies (#[trigger] init[i]).0.len() > 0 && !init[i].0.contains(
            '|',
        ) by {
            assert(init[i] == entries[i]);
        }
        lemma_inactive_names_from(init);
        let last = entries[entries.len() - 1];
        assert(entries.last() == last);
        let rest = inactive_names(init);
        assert forall|j: int| 0 <= j < inactive_names(entries).len() implies (#[trigger] inactive_names(
            entries,
        )[j]).len() > 0 && !inactive_names(entries)[j].contains('|') by {
            if !last.1 && j == rest.len() {
                assert(inactive_names(entries)[j] == last.0);
            } else {
                assert(inactive_names(entries)[j] == rest[j]);
            }
        }
    }
}

proof fn lemma_join_starts_with_first(parts: Seq<Seq<char>>, sep: Seq<char>)
    requires
        parts.len() >= 1,
    ensures
        join_seq(parts, sep).len() >= parts[0].len(),
{
    if parts.len() > 1 {
        assert((parts[0] + sep + join_seq(parts.drop_first(), sep)).len() >= parts[0].len());
    }
}

} // verus!
