//! The bookkeeping done while the sky data files are loaded: each file is a
//! category of stars, deep-sky objects, lines or markers, shown unless the
//! settings say otherwise, and drawn in a colour chosen from the theme, the
//! file itself or the default.

use vstd::prelude::*;
use vstd::string::StringExecFns;
use crate::text::str_eq;

verus! {

broadcast use vstd::string::group_string_axioms;

/// Whether some entry is for `name`.
pub open spec fn is_named<V>(entries: Seq<(String, V)>, name: Seq<char>) -> bool {
    exists|i: int| 0 <= i < entries.len() && (#[trigger] entries[i]).0@ == name
}

/// Whether no name has two entries, as in the map the switches and colours
/// are kept in.
pub open spec fn entries_distinct<V>(entries: Seq<(String, V)>) -> bool {
    forall|i: int, j: int| 0 <= i < j < entries.len() ==> (#[trigger] entries[i]).0@ != (#[trigger] entries[j]).0@
}

/// The first entry for `name`, where there is one.
pub open spec fn first_named<V>(entries: Seq<(String, V)>, name: Seq<char>) -> int {
    choose|i: int|
        0 <= i < entries.len() && (#[trigger] entries[i]).0@ == name && forall|k: int| 0 <= k < i ==> (#[trigger] entries[k]).0@ != name
}

/// The position of the first entry for `name`, if there is one.
fn find_named<V>(entries: &Vec<(String, V)>, name: &str) -> (r: Option<usize>)
    ensures
        match r {
            Some(j) => j < entries@.len() && entries@[j as int].0@ == name@ && forall|k: int|
                0 <= k < j ==> (#[trigger] entries@[k]).0@ != name@,
            None => !is_named(entries@, name@),
        },
{
    let mut j: usize = 0;
    while j < entries.len()
        invariant
            j <= entries@.len(),
            forall|k: int| 0 <= k < j ==> (#[trigger] entries@[k]).0@ != name@,
        decreases entries@.len() - j,
    {
        if str_eq(entries[j].0.as_str(), name) {
            return Some(j);
        }
        j = j + 1;
    }
    None
}

/// Whether the category `name` is shown, by the switches `active`: as the
/// first switch for it says, and shown where there is none.
pub open spec fn spec_category_active(active: Seq<(String, bool)>, name: Seq<char>) -> bool {
    if is_named(active, name) {
        active[first_named(active, name)].1
    } else {
        true
    }
}

/// Whether the category `name` is shown; a category seen for the first time
/// is shown, and its switch is added, turned on.
pub fn category_active(active: &mut Vec<(String, bool)>, name: &str) -> (r: bool)
    ensures
        r == spec_category_active(old(active)@, name@),
        is_named(old(active)@, name@) ==> final(active)@ == old(active)@,
        !is_named(old(active)@, name@) ==> final(active)@.len() == old(active)@.len() + 1 && final(active)@.drop_last() == old(active)@ && final(active)@.last().0@ == name@
            && final(active)@.last().1,
        entries_distinct(old(active)@) ==> entries_distinct(final(active)@),
{
    match find_named(active, name) {
        Some(j) => {
            let ghost f = first_named(active@, name@);
            assert(f == j as int) by {
                if f < j {
                    assert(active@[f].0@ != name@);
                } else if f > j {
                    assert(active@[j as int].0@ != name@);
                }
            }
            active[j].1
        },
        None => {
            let ghost before = active@;
            active.push((String::from_str(name), true));
            assert(active@.drop_last() =~= before);
            assert(entries_distinct(before) ==> entries_distinct(active@)) by {
                if entries_distinct(before) {
                    assert forall|i: int, j: int| 0 <= i < j < active@.len() implies (#[trigger] active@[i]).0@ != (#[trigger] active@[j]).0@ by {
                        if j < before.len() {
                            assert(active@[i] == before[i] && active@[j] == before[j]);
                        } else {
                            assert(active@[i] == before[i]);
                        }
                    }
                }
            }
            true
        },
    }
}

/// The colour in which the category `name` is drawn: the theme's colour for
/// it, or else the colour the file gives, or else the default.
pub open spec fn spec_group_colour<C>(theme: Seq<(String, C)>, name: Seq<char>, from_file: Option<C>, default: C) -> C {
    if is_named(theme, name) {
        theme[first_named(theme, name)].1
    } else {
        match from_file {
            Some(c) => c,
            None => default,
        }
    }
}

/// The colour in which the category `name` is drawn; where the theme has
/// none for it, the colour chosen is added to the theme.
pub fn group_colour<C: Copy>(theme: &mut Vec<(String, C)>, name: &str, from_file: Option<C>, default: C) -> (r: C)
    ensures
        r == spec_group_colour(old(theme)@, name@, from_file, default),
        is_named(old(theme)@, name@) ==> final(theme)@ == old(theme)@,
        !is_named(old(theme)@, name@) ==> final(theme)@.len() == old(theme)@.len() + 1 && final(theme)@.drop_last() == old(theme)@ && final(theme)@.last().0@ == name@
            && final(theme)@.last().1 == r,
        entries_distinct(old(theme)@) ==> entries_distinct(final(theme)@),
{
    match find_named(theme, name) {
        Some(j) => {
            let ghost f = first_named(theme@, name@);
            assert(f == j as int) by {
                if f < j {
                    assert(theme@[f].0@ != name@);
                } else if f > j {
                    assert(theme@[j as int].0@ != name@);
                }
            }
            theme[j].1
        },
        None => {
            let c = match from_file {
                Some(c) => c,
                None => default,
            };
            let ghost before = theme@;
            theme.push((String::from_str(name), c));
            assert(theme@.drop_last() =~= before);
            assert(entries_distinct(before) ==> entries_distinct(theme@)) by {
                if entries_distinct(before) {
                    assert forall|i: int, j: int| 0 <= i < j < theme@.len() implies (#[trigger] theme@[i]).0@ != (#[trigger] theme@[j]).0@ by {
                        if j < before.len() {
                            assert(theme@[i] == before[i] && theme@[j] == before[j]);
                        } else {
                            assert(theme@[i] == before[i]);
                        }
                    }
                }
            }
            c
        },
    }
}

/// The first colour given in a file's rows, if any row gives one.
pub open spec fn spec_first_colour<C>(colours: Seq<Option<C>>) -> Option<C>
    decreases colours.len(),
{
    if colours.len() == 0 {
        None
    } else if colours[0] is Some {
        colours[0]
    } else {
        spec_first_colour(colours.drop_first())
    }
}

/// The first colour given in a file's rows, if any row gives one.
pub fn first_colour<C: Copy>(colours: &[Option<C>]) -> (r: Option<C>)
    ensures
        r == spec_first_colour(colours@),
{
    let mut k: usize = 0;
    assert(colours@.skip(0) =~= colours@);
    while k < colours.len()
        invariant
            k <= colours@.len(),
            spec_first_colour(colours@) == spec_first_colour(colours@.skip(k as int)),
        decreases colours@.len() - k,
    {
        assert(colours@.skip(k as int)[0] == colours@[k as int]);
        if let Some(c) = colours[k] {
            return Some(c);
        }
        assert(colours@.skip(k as int).drop_first() =~= colours@.skip(k + 1));
        k = k + 1;
    }
    assert(colours@.skip(k as int).len() == 0);
    None
}

/// Looking a category up twice gives the same answer: after the first
/// look-up the category is known, shown or hidden as it was found.
pub proof fn lemma_category_lookup_stable(active: Seq<(String, bool)>, after: Seq<(String, bool)>, name: Seq<char>)
    requires
        is_named(active, name) ==> after == active,
        !is_named(active, name) ==> after.len() == active.len() + 1 && after.drop_last() == active && after.last().0@ == name && after.last().1,
    ensures
        is_named(after, name),
        spec_category_active(after, name) == spec_category_active(active, name),
{
    if !is_named(active, name) {
        let n = after.len() - 1;
        assert(after[n].0@ == name);
        assert forall|k: int| 0 <= k < n implies (#[trigger] after[k]).0@ != name by {
            assert(after.drop_last()[k] == after[k]);
            assert(active[k] == after[k]);
        }
        let f = first_named(after, name);
        assert(0 <= f < after.len() && after[f].0@ == name);
        assert(f == n) by {
            if f < n {
                assert(after.drop_last()[f] == after[f]);
                assert(active[f] == after[f]);
            }
        }
    }
}

/// The colour of a category stays as first chosen: after the first look-up
/// the theme knows it, and a second look-up gives the same colour whatever
/// the file or the default say then.
pub proof fn lemma_group_colour_stable<C>(
    theme: Seq<(String, C)>,
    after: Seq<(String, C)>,
    name: Seq<char>,
    from_file: Option<C>,
    default: C,
    later_file: Option<C>,
    later_default: C,
)
    requires
        is_named(theme, name) ==> after == theme,
        !is_named(theme, name) ==> after.len() == theme.len() + 1 && after.drop_last() == theme && after.last().0@ == name && after.last().1 == spec_group_colour(
            theme,
            name,
            from_file,
            default,
        ),
    ensures
        is_named(after, name),
        spec_group_colour(after, name, later_file, later_default) == spec_group_colour(theme, name, from_file, default),
{
    if !is_named(theme, name) {
        let n = after.len() - 1;
        assert(after[n].0@ == name);
        assert forall|k: int| 0 <= k < n implies (#[trigger] after[k]).0@ != name by {
            assert(after.drop_last()[k] == after[k]);
            assert(theme[k] == after[k]);
        }
        let f = first_named(after, name);
        assert(0 <= f < after.len() && after[f].0@ == name);
        assert(f == n) by {
            if f < n {
                assert(after.drop_last()[f] == after[f]);
                assert(theme[f] == after[f]);
            }
        }
    }
}

/// An entry added at the end changes no look-up of a name that was there
/// already, nor of another name.
pub proof fn lemma_named_push<V>(es: Seq<(String, V)>, e: (String, V), name: Seq<char>)
    ensures
        is_named(es, name) ==> is_named(es.push(e), name) && es.push(e)[first_named(es.push(e), name)] == es[first_named(
            es,
            name,
        )],
        e.0@ != name ==> (is_named(es.push(e), name) == is_named(es, name)),
        e.0@ == name ==> is_named(es.push(e), name),
{
    let ps = es.push(e);
    if is_named(es, name) {
        let i = choose|i: int| 0 <= i < es.len() && (#[trigger] es[i]).0@ == name;
        assert(ps[i] == es[i]);
        let f = lemma_first_exists(es, name);
        assert(ps[f] == es[f]);
        assert forall|k: int| 0 <= k < f implies (#[trigger] ps[k]).0@ != name by {
            assert(ps[k] == es[k]);
        }
        let g = first_named(ps, name);
        let f0 = first_named(es, name);
        assert(f0 == f) by {
            if f0 < f {
                assert(es[f0].0@ != name);
            } else if f0 > f {
                assert(es[f].0@ != name);
            }
        }
        assert(g == f) by {
            if g < f {
                assert(ps[g].0@ != name);
            } else if g > f {
                assert(ps[f].0@ != name);
            }
        }
    }
    if e.0@ != name && is_named(ps, name) {
        let i = choose|i: int| 0 <= i < ps.len() && (#[trigger] ps[i]).0@ == name;
        assert(i < es.len());
        assert(es[i] == ps[i]);
    }
    if e.0@ == name {
        assert(ps[es.len() as int] == e);
    }
}

/// Where some entry is for `name`, a first one is, and `first_named` finds it.
proof fn lemma_first_exists<V>(es: Seq<(String, V)>, name: Seq<char>) -> (f: int)
    requires
        is_named(es, name),
    ensures
        0 <= f < es.len(),
        es[f].0@ == name,
        forall|k: int| 0 <= k < f ==> (#[trigger] es[k]).0@ != name,
        f == first_named(es, name),
    decreases es.len(),
{
    let ff = lemma_first_index(es, name, 0);
    let g = first_named(es, name);
    assert(0 <= g < es.len() && es[g].0@ == name && forall|k: int| 0 <= k < g ==> (#[trigger] es[k]).0@ != name);
    assert(g == ff) by {
        if g < ff {
            assert(es[g].0@ != name);
        } else if g > ff {
            assert(es[ff].0@ != name);
        }
    }
    ff
}

/// The first entry for `name` from offset `from` on, where one is there and
/// none comes before `from`.
proof fn lemma_first_index<V>(es: Seq<(String, V)>, name: Seq<char>, from: int) -> (f: int)
    requires
        0 <= from <= es.len(),
        exists|i: int| from <= i < es.len() && (#[trigger] es[i]).0@ == name,
        forall|k: int| 0 <= k < from ==> (#[trigger] es[k]).0@ != name,
    ensures
        from <= f < es.len(),
        es[f].0@ == name,
        forall|k: int| 0 <= k < f ==> (#[trigger] es[k]).0@ != name,
    decreases es.len() - from,
{
    if es[from].0@ == name {
        from
    } else {
        assert forall|k: int| 0 <= k < from + 1 implies (#[trigger] es[k]).0@ != name by {}
        lemma_first_index(es, name, from + 1)
    }
}

/// Looking up `name` with `category_active` changes no category's switch:
/// afterwards `name` is listed, and every name is on or off as before.
pub proof fn lemma_category_active_step(before: Seq<(String, bool)>, after: Seq<(String, bool)>, name: Seq<char>)
    requires
        is_named(before, name) ==> after == before,
        !is_named(before, name) ==> after.len() == before.len() + 1 && after.drop_last() == before && after.last().0@ == name
            && after.last().1,
    ensures
        is_named(after, name),
        forall|m: Seq<char>| is_named(before, m) ==> is_named(after, m),
        forall|m: Seq<char>| #[trigger] spec_category_active(after, m) == spec_category_active(before, m),
{
    if !is_named(before, name) {
        assert(after =~= before.push(after.last()));
        assert forall|m: Seq<char>| #[trigger] spec_category_active(after, m) == spec_category_active(before, m) by {
            lemma_named_push(before, after.last(), m);
            if m == name {
                let f = first_named(after, name);
                lemma_first_exists(after, name);
                assert(f == before.len()) by {
                    if f < before.len() {
                        assert(after[f] == before[f]);
                    }
                }
            }
        }
        assert forall|m: Seq<char>| is_named(before, m) implies is_named(after, m) by {
            lemma_named_push(before, after.last(), m);
        }
        lemma_named_push(before, after.last(), name);
    }
}

/// Where no name has two entries, looking a name up finds its one entry:
/// the list is read as the map it stands for.
pub proof fn lemma_distinct_lookup<V>(entries: Seq<(String, V)>, i: int)
    requires
        entries_distinct(entries),
        0 <= i < entries.len(),
    ensures
        is_named(entries, entries[i].0@),
        first_named(entries, entries[i].0@) == i,
{
    let n = entries[i].0@;
    assert(is_named(entries, n));
    let f = lemma_first_exists(entries, n);
    if f < i {
        assert(entries[f].0@ != entries[i].0@);
    } else if f > i {
        assert(entries[f].0@ == n);
    }
}

} // verus!
