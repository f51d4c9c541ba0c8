//! Which drawn objects are hidden. Stars and deep-sky objects are drawn in
//! named groups; a single object can be hidden (as when a question asks
//! which object is missing) and shown again, and rebuilding a group keeps
//! hidden what was hidden.

use vstd::prelude::*;
use vstd::string::StringExecFns;
use crate::sky::{category_active, entries_distinct, is_named, lemma_category_active_step, spec_category_active};
use crate::text::str_eq;

verus! {

/// One drawn object, as far as hiding it goes: which object it draws and
/// whether it is hidden.
#[derive(Clone, Copy, PartialEq, Eq, Structural, Debug)]
pub struct RendererState {
    pub object_id: u64,
    pub disabled: bool,
}

/// A named group of drawn objects.
pub struct RendererGroup {
    pub name: String,
    pub renderers: Vec<RendererState>,
}

/// A group as a pair of its name and its drawn objects.
pub open spec fn group_view(g: RendererGroup) -> (Seq<char>, Seq<RendererState>) {
    (g.name@, g.renderers@)
}

/// The drawn objects, with those of object `id` hidden or shown as `disabled` says.
pub open spec fn with_flag(rs: Seq<RendererState>, id: u64, disabled: bool) -> Seq<RendererState> {
    rs.map_values(|r: RendererState| if r.object_id == id { RendererState { object_id: id, disabled } } else { r })
}

/// Every group with the objects `id` hidden or shown.
pub open spec fn flag_groups(gs: Seq<(Seq<char>, Seq<RendererState>)>, id: u64, disabled: bool) -> Seq<(Seq<char>, Seq<RendererState>)> {
    gs.map_values(|g: (Seq<char>, Seq<RendererState>)| (g.0, with_flag(g.1, id, disabled)))
}

/// Whether object `id` is drawn hidden among `rs`.
pub open spec fn hidden_in(rs: Seq<RendererState>, id: u64) -> bool {
    exists|k: int| 0 <= k < rs.len() && #[trigger] rs[k] == (RendererState { object_id: id, disabled: true })
}

/// Whether no two groups have the same name.
pub open spec fn names_distinct(gs: Seq<(Seq<char>, Seq<RendererState>)>) -> bool {
    forall|i: int, j: int| 0 <= i < j < gs.len() ==> (#[trigger] gs[i]).0 != (#[trigger] gs[j]).0
}

/// Whether some group is called `name`.
pub open spec fn has_group(gs: Seq<(Seq<char>, Seq<RendererState>)>, name: Seq<char>) -> bool {
    exists|j: int| 0 <= j < gs.len() && (#[trigger] gs[j]).0 == name
}

/// The position of the group called `name`, where there is one.
pub open spec fn group_index(gs: Seq<(Seq<char>, Seq<RendererState>)>, name: Seq<char>) -> int {
    choose|j: int| 0 <= j < gs.len() && (#[trigger] gs[j]).0 == name
}

/// The drawn objects of the group called `name`; none where there is no
/// such group.
pub open spec fn group_of(gs: Seq<(Seq<char>, Seq<RendererState>)>, name: Seq<char>) -> Seq<RendererState> {
    if has_group(gs, name) {
        gs[group_index(gs, name)].1
    } else {
        seq![]
    }
}

/// The objects `ids` drawn anew, in that order, for the group called `name`:
/// an object is hidden exactly when it was hidden in that group before.
pub open spec fn fresh_of(gs: Seq<(Seq<char>, Seq<RendererState>)>, name: Seq<char>, ids: Seq<u64>) -> Seq<RendererState> {
    ids.map_values(|id: u64| RendererState { object_id: id, disabled: hidden_in(group_of(gs, name), id) })
}

/// The group called `name` drawn anew for the objects `ids`, in that order:
/// an object is hidden exactly when it was hidden in the group before.
/// The group takes its old place, or comes last where it is new.
pub open spec fn rebuilt(gs: Seq<(Seq<char>, Seq<RendererState>)>, name: Seq<char>, ids: Seq<u64>) -> Seq<(Seq<char>, Seq<RendererState>)> {
    let fresh = fresh_of(gs, name, ids);
    if has_group(gs, name) {
        gs.update(group_index(gs, name), (name, fresh))
    } else {
        gs.push((name, fresh))
    }
}

/// The names of the files of a category, in order.
pub open spec fn sky_names(sky: Seq<(String, Vec<u64>)>) -> Seq<Seq<char>> {
    sky.map_values(|g: (String, Vec<u64>)| g.0@)
}

/// Whether no two files of a category share a name.
pub open spec fn sky_names_distinct(sky: Seq<(String, Vec<u64>)>) -> bool {
    forall|i: int, j: int| 0 <= i < j < sky.len() ==> (#[trigger] sky[i]).0@ != (#[trigger] sky[j]).0@
}

/// A whole category drawn anew from its files `sky`: each file whose group
/// is switched on by `active` (a group not listed there is on) becomes a
/// group, in the order of the files, with its objects hidden where they were
/// hidden in the group of that name before; switched-off files get no group.
pub open spec fn rebuilt_category(
    gs: Seq<(Seq<char>, Seq<RendererState>)>,
    sky: Seq<(String, Vec<u64>)>,
    active: Seq<(String, bool)>,
) -> Seq<(Seq<char>, Seq<RendererState>)>
    decreases sky.len(),
{
    if sky.len() == 0 {
        seq![]
    } else {
        let rest = rebuilt_category(gs, sky.drop_last(), active);
        let last = sky.last();
        if spec_category_active(active, last.0@) {
            rest.push((last.0@, fresh_of(gs, last.0@, last.1@)))
        } else {
            rest
        }
    }
}

/// Every group of a rebuilt category is one of its switched-on files.
proof fn lemma_rebuilt_category_names(
    gs: Seq<(Seq<char>, Seq<RendererState>)>,
    sky: Seq<(String, Vec<u64>)>,
    active: Seq<(String, bool)>,
)
    requires
        sky_names_distinct(sky),
    ensures
        names_distinct(rebuilt_category(gs, sky, active)),
        forall|i: int| 0 <= i < rebuilt_category(gs, sky, active).len() ==> exists|j: int| 0 <= j < sky.len()
            && (#[trigger] rebuilt_category(gs, sky, active)[i]).0 == sky[j].0@,
    decreases sky.len(),
{
    if sky.len() > 0 {
        let init = sky.drop_last();
        assert(sky_names_distinct(init)) by {
            assert forall|i: int, j: int| 0 <= i < j < init.len() implies (#[trigger] init[i]).0@ != (#[trigger] init[j]).0@ by {
                assert(init[i] == sky[i]);
                assert(init[j] == sky[j]);
            }
        }
        lemma_rebuilt_category_names(gs, init, active);
        let rest = rebuilt_category(gs, init, active);
        let r = rebuilt_category(gs, sky, active);
        let n = sky.last().0@;
        assert forall|i: int| 0 <= i < rest.len() implies (#[trigger] rest[i]).0 != n by {
            let j = choose|j: int| 0 <= j < init.len() && rest[i].0 == init[j].0@;
            assert(init[j] == sky[j]);
            assert(sky[j].0@ != sky[sky.len() - 1].0@);
        }
        assert forall|i: int| 0 <= i < r.len() implies exists|j: int| 0 <= j < sky.len() && (#[trigger] r[i]).0 == sky[j].0@ by {
            if i < rest.len() {
                assert(r[i] == rest[i]);
                let j = choose|j: int| 0 <= j < init.len() && rest[i].0 == init[j].0@;
                assert(init[j] == sky[j]);
            } else {
                assert(r[i].0 == sky[sky.len() - 1].0@);
            }
        }
        assert forall|i: int, j: int| 0 <= i < j < r.len() implies (#[trigger] r[i]).0 != (#[trigger] r[j]).0 by {
            if j < rest.len() {
                assert(r[i] == rest[i]);
                assert(r[j] == rest[j]);
            } else {
                assert(r[i] == rest[i]);
                assert(r[j].0 == n);
            }
        }
    }
}

/// A group that is switched off gets no renderers: the rebuilt category has
/// no group of that name.
pub proof fn lemma_switched_off_not_drawn(
    gs: Seq<(Seq<char>, Seq<RendererState>)>,
    sky: Seq<(String, Vec<u64>)>,
    active: Seq<(String, bool)>,
    name: Seq<char>,
)
    requires
        !spec_category_active(active, name),
    ensures
        !has_group(rebuilt_category(gs, sky, active), name),
    decreases sky.len(),
{
    if sky.len() > 0 {
        lemma_switched_off_not_drawn(gs, sky.drop_last(), active, name);
        let rest = rebuilt_category(gs, sky.drop_last(), active);
        let r = rebuilt_category(gs, sky, active);
        if has_group(r, name) {
            let j = choose|j: int| 0 <= j < r.len() && (#[trigger] r[j]).0 == name;
            if j < rest.len() {
                assert(r[j] == rest[j]);
            }
        }
    }
}

/// Rebuilding a category keeps hidden what was hidden: where file `k` is
/// switched on, its group holds its objects in order, each hidden exactly
/// when it was hidden in the group of that name before.
pub proof fn lemma_category_keeps_hidden(
    gs: Seq<(Seq<char>, Seq<RendererState>)>,
    sky: Seq<(String, Vec<u64>)>,
    active: Seq<(String, bool)>,
    k: int,
)
    requires
        sky_names_distinct(sky),
        0 <= k < sky.len(),
        spec_category_active(active, sky[k].0@),
    ensures
        has_group(rebuilt_category(gs, sky, active), sky[k].0@),
        group_of(rebuilt_category(gs, sky, active), sky[k].0@) == fresh_of(gs, sky[k].0@, sky[k].1@),
    decreases sky.len(),
{
    let r = rebuilt_category(gs, sky, active);
    let n = sky[k].0@;
    lemma_rebuilt_category_names(gs, sky, active);
    let init = sky.drop_last();
    let rest = rebuilt_category(gs, init, active);
    let j: int = if k < sky.len() - 1 {
        assert(sky_names_distinct(init)) by {
            assert forall|a: int, b: int| 0 <= a < b < init.len() implies (#[trigger] init[a]).0@ != (#[trigger] init[b]).0@ by {
                assert(init[a] == sky[a]);
                assert(init[b] == sky[b]);
            }
        }
        assert(init[k] == sky[k]);
        lemma_category_keeps_hidden(gs, init, active, k);
        let j = choose|j: int| 0 <= j < rest.len() && (#[trigger] rest[j]).0 == n;
        assert(r[j] == rest[j]);
        assert(group_of(rest, n) == rest[group_index(rest, n)].1);
        lemma_rebuilt_category_names(gs, init, active);
        let gi = group_index(rest, n);
        assert(gi == j) by {
            if gi < j {
                assert(rest[gi].0 != rest[j].0);
            } else if gi > j {
                assert(rest[j].0 != rest[gi].0);
            }
        }
        j
    } else {
        assert(r[rest.len() as int].0 == n);
        rest.len() as int
    };
    assert(r[j].0 == n);
    assert(r[j].1 == fresh_of(gs, n, sky[k].1@));
    assert(has_group(r, n));
    let gi = group_index(r, n);
    assert(gi == j) by {
        if gi < j {
            assert(r[gi].0 != r[j].0);
        } else if gi > j {
            assert(r[j].0 != r[gi].0);
        }
    }
}

/// The named groups of one kind of drawn object; no two share a name.
pub struct RendererGroups {
    groups: Vec<RendererGroup>,
}

impl View for RendererGroups {
    type V = Seq<(Seq<char>, Seq<RendererState>)>;

    closed spec fn view(&self) -> Seq<(Seq<char>, Seq<RendererState>)> {
        self.groups@.map_values(|g: RendererGroup| group_view(g))
    }
}

impl RendererGroups {
    pub open spec fn wf(&self) -> bool {
        names_distinct(self@)
    }

    /// No groups.
    pub fn new() -> (r: RendererGroups)
        ensures
            r.wf(),
            r@ == Seq::<(Seq<char>, Seq<RendererState>)>::empty(),
    {
        let r = RendererGroups { groups: Vec::new() };
        assert(r@ =~= Seq::<(Seq<char>, Seq<RendererState>)>::empty());
        r
    }

    /// The position of the group called `name`, if there is one.
    fn find(&self, name: &str) -> (r: Option<usize>)
        requires
            self.wf(),
        ensures
            match r {
                Some(j) => j < self@.len() && self@[j as int].0 == name@ && group_index(self@, name@) == j,
                None => !has_group(self@, name@),
            },
    {
        let mut j: usize = 0;
        while j < self.groups.len()
            invariant
                j <= self.groups@.len(),
                self.wf(),
                self@.len() == self.groups@.len(),
                forall|i: int| 0 <= i < j ==> (#[trigger] self@[i]).0 != name@,
            decreases self.groups@.len() - j,
        {
            assert(self@[j as int] == group_view(self.groups@[j as int]));
            if str_eq(self.groups[j].name.as_str(), name) {
                assert(has_group(self@, name@));
                let ghost k = group_index(self@, name@);
                assert(self@[k].0 == name@);
                assert(k == j) by {
                    if k < j {
                        assert(self@[k].0 != self@[j as int].0);
                    } else if k > j {
                        assert(self@[j as int].0 != self@[k].0);
                    }
                }
                return Some(j);
            }
            j = j + 1;
        }
        None
    }

    /// The drawn objects of the group called `name`, if there is one.
    pub fn renderers_of(&self, name: &str) -> (r: Option<&[RendererState]>)
        requires
            self.wf(),
        ensures
            match r {
                Some(rs) => has_group(self@, name@) && rs@ == group_of(self@, name@),
                None => !has_group(self@, name@),
            },
    {
        match self.find(name) {
            Some(j) => {
                assert(self@[j as int] == group_view(self.groups@[j as int]));
                Some(self.groups[j].renderers.as_slice())
            },
            None => None,
        }
    }

    /// Draws the group called `name` anew for the objects `object_ids`,
    /// keeping hidden the objects that were hidden in it.
    /// The objects `object_ids` drawn anew for the group called `name`,
    /// hidden where they were hidden in it.
    fn fresh_renderers(&self, name: &str, object_ids: &[u64]) -> (r: Vec<RendererState>)
        requires
            self.wf(),
        ensures
            r@ == fresh_of(self@, name@, object_ids@),
    {
        let ghost gs = self@;
        let found = self.find(name);
        let ghost before = group_of(gs, name@);
        let mut fresh: Vec<RendererState> = Vec::new();
        let mut k: usize = 0;
        while k < object_ids.len()
            invariant
                k <= object_ids@.len(),
                self@ == gs,
                self.wf(),
                before == group_of(gs, name@),
                match found {
                    Some(j) => j < self.groups@.len() && gs[j as int].0 == name@ && group_index(gs, name@) == j,
                    None => !has_group(gs, name@),
                },
                fresh@ == object_ids@.take(k as int).map_values(|id: u64| RendererState { object_id: id, disabled: hidden_in(before, id) }),
            decreases object_ids@.len() - k,
        {
            let id = object_ids[k];
            let mut hidden = false;
            match found {
                Some(j) => {
                    assert(gs[j as int] == group_view(self.groups@[j as int]));
                    assert(has_group(gs, name@));
                    let rs = &self.groups[j].renderers;
                    let mut i: usize = 0;
                    while i < rs.len()
                        invariant
                            i <= rs@.len(),
                            rs@ == before,
                            hidden == exists|m: int| 0 <= m < i && #[trigger] rs@[m] == (RendererState { object_id: id, disabled: true }),
                        decreases rs@.len() - i,
                    {
                        if rs[i].object_id == id && rs[i].disabled {
                            hidden = true;
                        }
                        i = i + 1;
                    }
                },
                None => {},
            }
            assert(hidden == hidden_in(before, id));
            fresh.push(RendererState { object_id: id, disabled: hidden });
            k = k + 1;
            assert(fresh@ =~= object_ids@.take(k as int).map_values(|id: u64| RendererState { object_id: id, disabled: hidden_in(before, id) }));
        }
        assert(object_ids@.take(k as int) =~= object_ids@);
        fresh
    }

    /// Draws the group called `name` anew for the objects `object_ids`,
    /// keeping hidden the objects that were hidden in it.
    pub fn reinit_group(&mut self, name: &str, object_ids: &[u64])
        requires
            old(self).wf(),
        ensures
            final(self).wf(),
            final(self)@ == rebuilt(old(self)@, name@, object_ids@),
    {
        let ghost gs = self@;
        let fresh = self.fresh_renderers(name, object_ids);
        let found = self.find(name);
        let group = RendererGroup { name: String::from_str(name), renderers: fresh };
        match found {
            Some(j) => {
                self.groups.set(j, group);
            },
            None => {
                self.groups.push(group);
            },
        }
        assert(self@ =~= rebuilt(gs, name@, object_ids@));
    }

    /// Draws a whole category anew from its files `sky` (each file's name and
    /// the objects it holds): a file whose group `active` switches off gets
    /// no group; a file that `active` does not list is added to it switched
    /// on; objects hidden in a group stay hidden when it is drawn anew.
    pub fn reinit_category(&mut self, sky: &[(String, Vec<u64>)], active: &mut Vec<(String, bool)>)
        requires
            old(self).wf(),
            sky_names_distinct(sky@),
        ensures
            final(self).wf(),
            final(self)@ == rebuilt_category(old(self)@, sky@, old(active)@),
            forall|i: int| 0 <= i < sky@.len() ==> is_named(final(active)@, (#[trigger] sky@[i]).0@),
            forall|i: int|
                0 <= i < sky@.len() && !is_named(old(active)@, (#[trigger] sky@[i]).0@) ==> spec_category_active(
                    final(active)@,
                    sky@[i].0@,
                ),
            forall|n: Seq<char>| #[trigger] spec_category_active(final(active)@, n) == spec_category_active(old(active)@, n),
            entries_distinct(old(active)@) ==> entries_distinct(final(active)@),
    {
        let ghost gs = self@;
        let ghost orig = active@;
        let mut groups: Vec<RendererGroup> = Vec::new();
        let mut k: usize = 0;
        assert(sky@.take(0) =~= Seq::<(String, Vec<u64>)>::empty());
        assert(groups@.map_values(|g: RendererGroup| group_view(g)) =~= rebuilt_category(gs, sky@.take(0), orig));
        while k < sky.len()
            invariant
                k <= sky@.len(),
                self@ == gs,
                self.wf(),
                sky_names_distinct(sky@),
                groups@.map_values(|g: RendererGroup| group_view(g)) == rebuilt_category(gs, sky@.take(k as int), orig),
                forall|i: int| 0 <= i < k ==> is_named(active@, (#[trigger] sky@[i]).0@),
                forall|n: Seq<char>| #[trigger] spec_category_active(active@, n) == spec_category_active(orig, n),
                entries_distinct(orig) ==> entries_distinct(active@),
            decreases sky@.len() - k,
        {
            let name = &sky[k].0;
            let ghost n = name@;
            let ghost before = active@;
            let on = category_active(active, name.as_str());
            proof {
                lemma_category_active_step(before, active@, n);
            }
            assert(sky@.take(k + 1).drop_last() =~= sky@.take(k as int));
            assert(sky@.take(k + 1).last() == sky@[k as int]);
            if on {
                let fresh = self.fresh_renderers(name.as_str(), sky[k].1.as_slice());
                let ghost prev = groups@;
                groups.push(RendererGroup { name: String::from_str(name.as_str()), renderers: fresh });
                assert(groups@.map_values(|g: RendererGroup| group_view(g)) =~= prev.map_values(|g: RendererGroup| group_view(g)).push(
                    (n, fresh_of(gs, n, sky@[k as int].1@)),
                ));
            }
            k = k + 1;
        }
        assert(sky@.take(k as int) =~= sky@);
        proof {
            lemma_rebuilt_category_names(gs, sky@, orig);
        }
        self.groups = groups;
    }

    /// Empties the group called `name`, making it if it is not there.
    pub fn deinit_group(&mut self, name: &str)
        requires
            old(self).wf(),
        ensures
            final(self).wf(),
            final(self)@ == rebuilt(old(self)@, name@, seq![]),
    {
        let none: Vec<u64> = Vec::new();
        self.reinit_group(name, none.as_slice());
    }

    /// Hides (`disabled`) or shows every drawn object of object `id`.
    fn set_flag(&mut self, id: u64, disabled: bool)
        requires
            old(self).wf(),
        ensures
            final(self).wf(),
            final(self)@ == flag_groups(old(self)@, id, disabled),
    {
        let ghost gs = self@;
        let mut k: usize = 0;
        while k < self.groups.len()
            invariant
                k <= self.groups@.len() == gs.len(),
                forall|i: int| 0 <= i < k ==> #[trigger] self@[i] == flag_groups(gs, id, disabled)[i],
                forall|i: int| k <= i < gs.len() ==> #[trigger] self@[i] == gs[i],
            decreases gs.len() - k,
        {
            let ghost groups_before = self.groups@;
            let ghost view_before = self@;
            assert(forall|i: int| 0 <= i < gs.len() ==> #[trigger] view_before[i] == group_view(groups_before[i]));
            assert(self@[k as int] == gs[k as int]);
            let mut group = self.groups.remove(k);
            let ghost old_rs = group.renderers@;
            let ghost old_name = group.name@;
            assert(group_view(group) == gs[k as int]);
            let mut i: usize = 0;
            while i < group.renderers.len()
                invariant
                    i <= group.renderers@.len() == old_rs.len(),
                    group.name@ == old_name,
                    forall|m: int| 0 <= m < i ==> #[trigger] group.renderers@[m] == with_flag(old_rs, id, disabled)[m],
                    forall|m: int| i <= m < old_rs.len() ==> #[trigger] group.renderers@[m] == old_rs[m],
                decreases old_rs.len() - i,
            {
                if group.renderers[i].object_id == id {
                    group.renderers.set(i, RendererState { object_id: id, disabled });
                }
                i = i + 1;
            }
            assert(group.renderers@ =~= with_flag(old_rs, id, disabled));
            self.groups.insert(k, group);
            assert(self.groups@ =~= groups_before.update(k as int, group));
            assert forall|i: int| 0 <= i < gs.len() implies #[trigger] self@[i] == (if i <= k { flag_groups(gs, id, disabled)[i] } else { gs[i] }) by {
                assert(self@[i] == group_view(self.groups@[i]));
                if i != k {
                    assert(view_before[i] == group_view(groups_before[i]));
                } else {
                    assert(group_view(group) == (old_name, with_flag(old_rs, id, disabled)));
                }
            }
            k = k + 1;
        }
        assert(self@ =~= flag_groups(gs, id, disabled));
    }
}

/// The drawn stars and deep-sky objects, by group.
pub struct SkyRenderers {
    pub stars: RendererGroups,
    pub deepskies: RendererGroups,
}

impl SkyRenderers {
    pub open spec fn wf(&self) -> bool {
        self.stars.wf() && self.deepskies.wf()
    }

    /// Shows object `object_id` again wherever it is drawn.
    pub fn enable_single_renderer(&mut self, object_id: u64)
        requires
            old(self).wf(),
        ensures
            final(self).wf(),
            final(self).stars@ == flag_groups(old(self).stars@, object_id, false),
            final(self).deepskies@ == flag_groups(old(self).deepskies@, object_id, false),
    {
        self.stars.set_flag(object_id, false);
        self.deepskies.set_flag(object_id, false);
    }

    /// Hides object `object_id` wherever it is drawn.
    pub fn disable_single_renderer(&mut self, object_id: u64)
        requires
            old(self).wf(),
        ensures
            final(self).wf(),
            final(self).stars@ == flag_groups(old(self).stars@, object_id, true),
            final(self).deepskies@ == flag_groups(old(self).deepskies@, object_id, true),
    {
        self.stars.set_flag(object_id, true);
        self.deepskies.set_flag(object_id, true);
    }
}

/// After `rebuilt`, the group called `name` is found where it was put.
proof fn lemma_rebuilt_group(gs: Seq<(Seq<char>, Seq<RendererState>)>, name: Seq<char>, ids: Seq<u64>)
    requires
        names_distinct(gs),
    ensures
        names_distinct(rebuilt(gs, name, ids)),
        has_group(rebuilt(gs, name, ids), name),
        group_of(rebuilt(gs, name, ids), name) == ids.map_values(
            |id: u64| RendererState { object_id: id, disabled: hidden_in(group_of(gs, name), id) },
        ),
{
    let r = rebuilt(gs, name, ids);
    let j = if has_group(gs, name) { group_index(gs, name) } else { gs.len() as int };
    assert(r[j].0 == name);
    assert(has_group(r, name));
    let k = group_index(r, name);
    if k != j {
        assert(r[k].0 == name);
        if k < j {
            assert(r[k].0 != r[j].0);
        } else {
            assert(r[j].0 != r[k].0);
        }
    }
}

/// Rebuilding a group keeps hidden what was hidden: each object drawn anew
/// is hidden exactly when it was hidden in the group before, and the other
/// groups stay as they were.
pub proof fn lemma_rebuild_keeps_hidden(gs: Seq<(Seq<char>, Seq<RendererState>)>, name: Seq<char>, ids: Seq<u64>, m: int)
    requires
        names_distinct(gs),
        0 <= m < ids.len(),
    ensures
        group_of(rebuilt(gs, name, ids), name)[m] == (RendererState { object_id: ids[m], disabled: hidden_in(group_of(gs, name), ids[m]) }),
        forall|other: Seq<char>| other != name ==> group_of(rebuilt(gs, name, ids), other) == group_of(gs, other),
{
    lemma_rebuilt_group(gs, name, ids);
    let r = rebuilt(gs, name, ids);
    assert forall|other: Seq<char>| other != name implies group_of(r, other) == group_of(gs, other) by {
        if has_group(gs, other) {
            let j = group_index(gs, other);
            assert(r[j] == gs[j]);
            assert(has_group(r, other));
            let k = group_index(r, other);
            if k != j {
                if k < j {
                    assert(r[k].0 != r[j].0);
                } else {
                    assert(r[j].0 != r[k].0);
                }
            }
        } else if has_group(r, other) {
            let k = group_index(r, other);
            assert(r[k].0 == other);
            if k < gs.len() {
                assert(gs[k].0 == other);
            }
        }
    }
}

/// An object hidden in a group is still hidden there after the group is
/// drawn anew, wherever it is drawn in it.
pub proof fn lemma_hidden_survives_rebuild(gs: Seq<(Seq<char>, Seq<RendererState>)>, name: Seq<char>, ids: Seq<u64>, id: u64, k: int, m: int)
    requires
        names_distinct(gs),
        0 <= k < group_of(gs, name).len(),
        group_of(gs, name)[k].object_id == id,
        0 <= m < ids.len(),
        ids[m] == id,
    ensures
        group_of(rebuilt(flag_groups(gs, id, true), name, ids), name)[m].disabled,
{
    let hidden = flag_groups(gs, id, true);
    assert(names_distinct(hidden)) by {
        assert forall|i: int, j: int| 0 <= i < j < hidden.len() implies (#[trigger] hidden[i]).0 != (#[trigger] hidden[j]).0 by {
            assert(gs[i].0 != gs[j].0);
        }
    }
    assert(has_group(gs, name));
    let j = group_index(gs, name);
    assert(hidden[j].0 == name);
    assert(has_group(hidden, name));
    let jj = group_index(hidden, name);
    if jj != j {
        if jj < j {
            assert(hidden[jj].0 != hidden[j].0);
        } else {
            assert(hidden[j].0 != hidden[jj].0);
        }
    }
    assert(group_of(hidden, name)[k] == (RendererState { object_id: id, disabled: true }));
    lemma_rebuild_keeps_hidden(hidden, name, ids, m);
}

/// Showing an object after hiding it is the same as showing it: nothing
/// else changes on the way.
pub proof fn lemma_show_after_hide(gs: Seq<(Seq<char>, Seq<RendererState>)>, id: u64)
    ensures
        flag_groups(flag_groups(gs, id, true), id, false) == flag_groups(gs, id, false),
{
    let a = flag_groups(flag_groups(gs, id, true), id, false);
    let b = flag_groups(gs, id, false);
    assert forall|i: int| 0 <= i < gs.len() implies a[i] == b[i] by {
        assert(a[i].1 =~= b[i].1);
    }
    assert(a =~= b);
}

} // verus!
