//! What scheduling promises of the dates it gives: a task with dependencies starts the day
//! after the latest of them ends, a parent spans exactly its children, and a task without
//! children or dependencies starts on its manual start or the project's start.

use vstd::prelude::*;
use crate::model::TaskV;
use crate::lookup::{last_with_id, lemma_last_with_id, lemma_last_with_id_char, first_with_id, lemma_first_with_id_char};
use crate::hierarchy::{depth, depth_from, lemma_depth_fuel};
use crate::schedule::{
    Slots, RoundState, dep_ready, deps_ready, dep_end, latest_end, planned_start, planned_end, span,
    round_step, run_round, run_rounds, ids_of, first_pass, with_first_dates, scheduled, child_slot,
    children_dated, children_span, parent_keys, keys_at, deepest_first, parent_order, parents_orderable,
    fill_parent, fill_parents, final_slots,
};
use crate::chart::has_children;

verus! {

/// No two tasks share an id.
pub open spec fn ids_distinct(tasks: Seq<TaskV>) -> bool {
    forall|a: int, b: int| 0 <= a < b < tasks.len() ==> (#[trigger] tasks[a]).id != (#[trigger] tasks[b]).id
}

/// What a dated slot `y` holds: a parent spans its children, all of them dated; another task
/// has its dependencies ready and holds the dates it plans from them.
pub open spec fn settled_at(tasks: Seq<TaskV>, pstart: int, slots: Slots, y: int) -> bool {
    if has_children(tasks, tasks[y].id) {
        &&& children_dated(tasks, slots, tasks[y].id)
        &&& children_span(tasks, slots, tasks[y].id, tasks.len() as int) == slots[y]
    } else {
        let s = planned_start(tasks[y], tasks, slots, pstart);
        &&& deps_ready(tasks, slots, tasks[y].dependencies)
        &&& slots[y]->0 == (s, planned_end(tasks[y], s))
    }
}

/// Every dated slot is settled.
pub open spec fn slots_settled(tasks: Seq<TaskV>, pstart: int, slots: Slots) -> bool {
    &&& slots.len() == tasks.len()
    &&& forall|y: int| 0 <= y < slots.len() && (#[trigger] slots[y]) is Some ==> settled_at(tasks, pstart, slots, y)
}

/// Dating an undated slot `j` changes neither the readiness nor the latest end of a list
/// of dependencies that is ready without it.
proof fn lemma_latest_end_frame(tasks: Seq<TaskV>, slots: Slots, j: int, v: Option<(int, int)>, deps: Seq<u32>)
    requires
        slots.len() == tasks.len(),
        0 <= j < tasks.len(),
        slots[j] is None,
        deps_ready(tasks, slots, deps),
    ensures
        deps_ready(tasks, slots.update(j, v), deps),
        latest_end(tasks, slots.update(j, v), deps) == latest_end(tasks, slots, deps),
    decreases deps.len(),
{
    let s2 = slots.update(j, v);
    assert forall|k: int| 0 <= k < deps.len() implies dep_ready(tasks, s2, #[trigger] deps[k]) by {
        lemma_last_with_id(tasks, deps[k]);
        assert(dep_ready(tasks, slots, deps[k]));
    }
    if deps.len() > 0 {
        assert forall|k: int| 0 <= k < deps.drop_last().len() implies dep_ready(tasks, slots, #[trigger] deps.drop_last()[k]) by {
            assert(deps.drop_last()[k] == deps[k]);
        }
        lemma_latest_end_frame(tasks, slots, j, v, deps.drop_last());
        lemma_last_with_id(tasks, deps.last());
        assert(dep_ready(tasks, slots, deps[deps.len() - 1]));
        assert(dep_end(tasks, s2, deps.last()) == dep_end(tasks, slots, deps.last()));
    }
}

/// Dating an undated slot `j` changes neither whether the children of `p` are all dated nor
/// their span, when they are all dated without it.
proof fn lemma_children_frame(tasks: Seq<TaskV>, slots: Slots, j: int, v: Option<(int, int)>, p: u32, k: int)
    requires
        slots.len() == tasks.len(),
        0 <= j < tasks.len(),
        0 <= k <= tasks.len(),
        slots[j] is None,
        children_dated(tasks, slots, p),
    ensures
        children_dated(tasks, slots.update(j, v), p),
        children_span(tasks, slots.update(j, v), p, k) == children_span(tasks, slots, p, k),
    decreases k,
{
    let s2 = slots.update(j, v);
    assert forall|c: int| 0 <= c < tasks.len() && (#[trigger] tasks[c]).parent_id == Some(p)
        implies child_slot(tasks, s2, c) == child_slot(tasks, slots, c) by {
        lemma_last_with_id(tasks, tasks[c].id);
    }
    if k > 0 {
        lemma_children_frame(tasks, slots, j, v, p, k - 1);
        if tasks[k - 1].parent_id == Some(p) {
            assert(child_slot(tasks, s2, k - 1) == child_slot(tasks, slots, k - 1));
        }
    }
}

/// One step of a round keeps the slots settled.
proof fn lemma_step_settled(tasks: Seq<TaskV>, pstart: int, st: RoundState, id: u32)
    requires
        slots_settled(tasks, pstart, st.1),
    ensures
        slots_settled(tasks, pstart, round_step(tasks, pstart, st, id).1),
        forall|x: int| 0 <= x < st.1.len() && st.1[x] is Some ==> #[trigger] round_step(tasks, pstart, st, id).1[x] == st.1[x],
{
    lemma_last_with_id(tasks, id);
    match last_with_id(tasks, id) {
        None => {},
        Some(j) => {
            let t = tasks[j];
            let slots = st.1;
            let n = tasks.len() as int;
            let parent = has_children(tasks, t.id);
            let date_it = if parent {
                children_dated(tasks, slots, t.id) && children_span(tasks, slots, t.id, n) is Some
            } else {
                deps_ready(tasks, slots, t.dependencies)
            };
            if date_it {
                let v = if parent {
                    children_span(tasks, slots, t.id, n)
                } else {
                    let sj = planned_start(t, tasks, slots, pstart);
                    Some((sj, planned_end(t, sj)))
                };
                let s2 = slots.update(j, v);
                assert(round_step(tasks, pstart, st, id).1 == s2);
                if slots[j] is Some {
                    assert(s2 =~= slots);
                } else {
                    assert forall|y: int| 0 <= y < s2.len() && (#[trigger] s2[y]) is Some implies
                        settled_at(tasks, pstart, s2, y) by {
                        if y == j {
                            if parent {
                                lemma_children_frame(tasks, slots, j, v, t.id, n);
                            } else {
                                lemma_latest_end_frame(tasks, slots, j, v, t.dependencies);
                            }
                        } else {
                            assert(settled_at(tasks, pstart, slots, y));
                            if has_children(tasks, tasks[y].id) {
                                lemma_children_frame(tasks, slots, j, v, tasks[y].id, n);
                            } else {
                                lemma_latest_end_frame(tasks, slots, j, v, tasks[y].dependencies);
                            }
                        }
                    }
                }
            }
        },
    }
}

/// A round keeps the slots settled.
proof fn lemma_round_settled(tasks: Seq<TaskV>, pstart: int, st: RoundState, pending: Seq<u32>)
    requires
        slots_settled(tasks, pstart, st.1),
    ensures
        slots_settled(tasks, pstart, run_round(tasks, pstart, st, pending).1),
        forall|x: int| 0 <= x < st.1.len() && st.1[x] is Some ==> #[trigger] run_round(tasks, pstart, st, pending).1[x] == st.1[x],
    decreases pending.len(),
{
    if pending.len() > 0 {
        lemma_round_settled(tasks, pstart, st, pending.drop_last());
        lemma_step_settled(tasks, pstart, run_round(tasks, pstart, st, pending.drop_last()), pending.last());
    }
}

/// Any number of rounds keeps the slots settled.
proof fn lemma_rounds_settled(
    tasks: Seq<TaskV>,
    pstart: int,
    pending: Seq<u32>,
    slots: Slots,
    ok: bool,
    n: nat,
)
    requires
        slots_settled(tasks, pstart, slots),
    ensures
        slots_settled(tasks, pstart, run_rounds(tasks, pstart, pending, slots, ok, n).1),
        forall|x: int| 0 <= x < slots.len() && slots[x] is Some ==> #[trigger] run_rounds(tasks, pstart, pending, slots, ok, n).1[x] == slots[x],
    decreases n,
{
    if n > 0 && pending.len() > 0 {
        lemma_round_settled(tasks, pstart, (Seq::empty(), slots, ok), pending);
        let st = run_round(tasks, pstart, (Seq::empty(), slots, ok), pending);
        lemma_rounds_settled(tasks, pstart, st.0, st.1, st.2, (n - 1) as nat);
    }
}

/// The latest end of dependencies that are all dated is the end of one of them, and no
/// dependency ends later.
proof fn lemma_latest_end_bounds(tasks: Seq<TaskV>, slots: Slots, deps: Seq<u32>)
    requires
        deps.len() > 0,
        forall|k: int| 0 <= k < deps.len() ==> (#[trigger] dep_end(tasks, slots, deps[k])) is Some,
    ensures
        latest_end(tasks, slots, deps) is Some,
        forall|k: int| 0 <= k < deps.len() ==> (#[trigger] dep_end(tasks, slots, deps[k]))->0
            <= latest_end(tasks, slots, deps)->0,
        exists|k: int| 0 <= k < deps.len() && (#[trigger] dep_end(tasks, slots, deps[k]))->0
            == latest_end(tasks, slots, deps)->0,
    decreases deps.len(),
{
    let front = deps.drop_last();
    let last = deps.len() - 1;
    assert(dep_end(tasks, slots, deps[last]) is Some);
    if front.len() == 0 {
        assert(dep_end(tasks, slots, deps[0])->0 == latest_end(tasks, slots, deps)->0);
    } else {
        assert forall|k: int| 0 <= k < front.len() implies (#[trigger] dep_end(tasks, slots, front[k])) is Some by {
            assert(front[k] == deps[k]);
        }
        lemma_latest_end_bounds(tasks, slots, front);
        let m = latest_end(tasks, slots, front)->0;
        assert forall|k: int| 0 <= k < deps.len() implies (#[trigger] dep_end(tasks, slots, deps[k]))->0
            <= latest_end(tasks, slots, deps)->0 by {
            if k < last {
                assert(front[k] == deps[k]);
            }
        }
        let w = choose|k: int| 0 <= k < front.len() && (#[trigger] dep_end(tasks, slots, front[k]))->0 == m;
        assert(front[w] == deps[w]);
        if dep_end(tasks, slots, deps[last])->0 > m {
            assert(dep_end(tasks, slots, deps[last])->0 == latest_end(tasks, slots, deps)->0);
        } else {
            assert(dep_end(tasks, slots, deps[w])->0 == latest_end(tasks, slots, deps)->0);
        }
    }
}

/// The span of the dated children of `p` among the first `k` tasks contains each of their
/// dates, and its ends are dates of some of them.
proof fn lemma_children_span_bounds(tasks: Seq<TaskV>, slots: Slots, p: u32, k: int)
    requires
        0 <= k <= tasks.len(),
    ensures
        ({
            let r = children_span(tasks, slots, p, k);
            &&& forall|c: int| 0 <= c < k && (#[trigger] tasks[c]).parent_id == Some(p) && child_slot(tasks, slots, c) is Some
                ==> r is Some && (r->0).0 <= (child_slot(tasks, slots, c)->0).0 && (child_slot(tasks, slots, c)->0).1 <= (r->0).1
            &&& r is Some ==> exists|c: int| 0 <= c < k && (#[trigger] tasks[c]).parent_id == Some(p)
                && child_slot(tasks, slots, c) is Some && (child_slot(tasks, slots, c)->0).0 == (r->0).0
            &&& r is Some ==> exists|c: int| 0 <= c < k && (#[trigger] tasks[c]).parent_id == Some(p)
                && child_slot(tasks, slots, c) is Some && (child_slot(tasks, slots, c)->0).1 == (r->0).1
        }),
    decreases k,
{
    if k > 0 {
        lemma_children_span_bounds(tasks, slots, p, k - 1);
        let prev = children_span(tasks, slots, p, k - 1);
        let r = children_span(tasks, slots, p, k);
        let c = k - 1;
        if tasks[c].parent_id == Some(p) && child_slot(tasks, slots, c) is Some {
            let d = child_slot(tasks, slots, c)->0;
            match prev {
                Some(m) => {
                    if !(d.0 < m.0) {
                        let w = choose|w: int| 0 <= w < k - 1 && (#[trigger] tasks[w]).parent_id == Some(p)
                            && child_slot(tasks, slots, w) is Some && (child_slot(tasks, slots, w)->0).0 == m.0;
                        assert((child_slot(tasks, slots, w)->0).0 == (r->0).0);
                    }
                    if !(d.1 > m.1) {
                        let w = choose|w: int| 0 <= w < k - 1 && (#[trigger] tasks[w]).parent_id == Some(p)
                            && child_slot(tasks, slots, w) is Some && (child_slot(tasks, slots, w)->0).1 == m.1;
                        assert((child_slot(tasks, slots, w)->0).1 == (r->0).1);
                    }
                },
                None => {},
            }
        }
    }
}

/// The slots that the rounds give are settled.
proof fn lemma_first_pass_settled(tasks: Seq<TaskV>, pstart: int)
    ensures
        slots_settled(tasks, pstart, first_pass(tasks, pstart).0),
{
    let init: Slots = Seq::new(tasks.len(), |i: int| None);
    assert(slots_settled(tasks, pstart, init));
    lemma_rounds_settled(tasks, pstart, ids_of(tasks), init, true, 100);
}

/// A depth found with some fuel is smaller than that fuel.
proof fn lemma_depth_below_fuel(tasks: Seq<TaskV>, id: u32, f: nat)
    requires
        depth_from(tasks, id, f) is Some,
    ensures
        depth_from(tasks, id, f)->0 < f,
    decreases f,
{
    match first_with_id(tasks, id) {
        None => {},
        Some(i) => match tasks[i].parent_id {
            None => {},
            Some(p) => lemma_depth_below_fuel(tasks, p, (f - 1) as nat),
        },
    }
}

/// Every id that some task names as its parent is a key.
proof fn lemma_parent_keys(tasks: Seq<TaskV>, j: int)
    requires
        0 <= j < tasks.len(),
        tasks[j].parent_id is Some,
    ensures
        parent_keys(tasks).contains(tasks[j].parent_id->0),
    decreases tasks.len(),
{
    let keys = parent_keys(tasks.drop_last());
    if j < tasks.len() - 1 {
        assert(tasks.drop_last()[j] == tasks[j]);
        lemma_parent_keys(tasks.drop_last(), j);
        let x = tasks[j].parent_id->0;
        let k = choose|k: int| 0 <= k < keys.len() && keys[k] == x;
        match tasks.last().parent_id {
            Some(p) => if !keys.contains(p) {
                assert(keys.push(p)[k] == x);
            },
            None => {},
        }
    } else {
        match tasks.last().parent_id {
            Some(p) => if !keys.contains(p) {
                assert(keys.push(p)[keys.len() as int] == p);
            },
            None => {},
        }
    }
}

/// The keys of depth `d` are the keys with that depth.
proof fn lemma_keys_at(tasks: Seq<TaskV>, keys: Seq<u32>, d: nat)
    ensures
        forall|m: int| 0 <= m < keys_at(tasks, keys, d).len() ==>
            depth(tasks, #[trigger] keys_at(tasks, keys, d)[m]) == Some(d),
        forall|x: u32| keys.contains(x) && depth(tasks, x) == Some(d) ==> keys_at(tasks, keys, d).contains(x),
    decreases keys.len(),
{
    if keys.len() > 0 {
        let front = keys.drop_last();
        lemma_keys_at(tasks, front, d);
        let r = keys_at(tasks, front, d);
        assert forall|x: u32| keys.contains(x) && depth(tasks, x) == Some(d) implies keys_at(tasks, keys, d).contains(x) by {
            let k = choose|k: int| 0 <= k < keys.len() && keys[k] == x;
            if k < keys.len() - 1 {
                assert(front[k] == x);
                assert(front.contains(x));
                let m = choose|m: int| 0 <= m < r.len() && r[m] == x;
                if depth(tasks, keys.last()) == Some(d) {
                    assert(r.push(keys.last())[m] == x);
                }
            } else {
                assert(r.push(keys.last())[r.len() as int] == x);
            }
        }
        if depth(tasks, keys.last()) == Some(d) {
            assert forall|m: int| 0 <= m < keys_at(tasks, keys, d).len() implies
                depth(tasks, #[trigger] keys_at(tasks, keys, d)[m]) == Some(d) by {
                if m < r.len() {
                    assert(r.push(keys.last())[m] == r[m]);
                }
            }
        }
    }
}

/// The parents, deepest first: each has a depth no larger than `d`, each key of such a
/// depth is there, and a deeper key always comes before a shallower one.
proof fn lemma_deepest_first(tasks: Seq<TaskV>, keys: Seq<u32>, d: nat)
    ensures
        ({
            let s = deepest_first(tasks, keys, d);
            &&& forall|m: int| 0 <= m < s.len() ==> (#[trigger] depth(tasks, s[m])) is Some
                && depth(tasks, s[m])->0 <= d
            &&& forall|x: u32| keys.contains(x) && depth(tasks, x) is Some && depth(tasks, x)->0 <= d
                ==> s.contains(x)
            &&& forall|m1: int, m2: int| 0 <= m1 < s.len() && 0 <= m2 < s.len()
                && depth(tasks, #[trigger] s[m1])->0 > depth(tasks, #[trigger] s[m2])->0 ==> m1 < m2
        }),
    decreases d,
{
    lemma_keys_at(tasks, keys, d);
    let here = keys_at(tasks, keys, d);
    if d == 0 {
    } else {
        lemma_deepest_first(tasks, keys, (d - 1) as nat);
        let rest = deepest_first(tasks, keys, (d - 1) as nat);
        let s = deepest_first(tasks, keys, d);
        assert(s == here + rest);
        assert forall|m: int| 0 <= m < s.len() implies (#[trigger] depth(tasks, s[m])) is Some
            && depth(tasks, s[m])->0 <= d by {
            if m >= here.len() {
                assert(s[m] == rest[m - here.len()]);
            }
        }
        assert forall|x: u32| keys.contains(x) && depth(tasks, x) is Some && depth(tasks, x)->0 <= d
            implies s.contains(x) by {
            if depth(tasks, x)->0 == d {
                let m = choose|m: int| 0 <= m < here.len() && here[m] == x;
                assert(s[m] == x);
            } else {
                let m = choose|m: int| 0 <= m < rest.len() && rest[m] == x;
                assert(s[m + here.len()] == x);
            }
        }
        assert forall|m1: int, m2: int| 0 <= m1 < s.len() && 0 <= m2 < s.len()
            && depth(tasks, #[trigger] s[m1])->0 > depth(tasks, #[trigger] s[m2])->0 implies m1 < m2 by {
            if m1 >= here.len() && m2 >= here.len() {
                assert(s[m1] == rest[m1 - here.len()]);
                assert(s[m2] == rest[m2 - here.len()]);
            } else if m1 >= here.len() && m2 < here.len() {
                assert(s[m1] == rest[m1 - here.len()]);
                assert(s[m2] == here[m2]);
            } else if m1 < here.len() && m2 < here.len() {
                assert(s[m1] == here[m1]);
                assert(s[m2] == here[m2]);
            }
        }
    }
}

/// Every key of the parent order is the id of some task's parent.
proof fn lemma_order_has_children(tasks: Seq<TaskV>, m: int)
    requires
        0 <= m < parent_order(tasks).len(),
    ensures
        has_children(tasks, parent_order(tasks)[m]),
{
    let keys = parent_keys(tasks);
    let x = parent_order(tasks)[m];
    if keys.len() < 2 {
        assert(keys.contains(x));
    } else {
        lemma_deepest_in_keys(tasks, keys, (tasks.len() + 1) as nat, m);
    }
    lemma_keys_have_children(tasks, x);
}

/// The keys taken in the deepest-first order come from the keys.
proof fn lemma_deepest_in_keys(tasks: Seq<TaskV>, keys: Seq<u32>, d: nat, m: int)
    requires
        0 <= m < deepest_first(tasks, keys, d).len(),
    ensures
        keys.contains(deepest_first(tasks, keys, d)[m]),
    decreases d,
{
    let here = keys_at(tasks, keys, d);
    lemma_keys_at_in_keys(tasks, keys, d);
    if d == 0 {
        assert(here.contains(here[m]));
    } else {
        let rest = deepest_first(tasks, keys, (d - 1) as nat);
        let s = deepest_first(tasks, keys, d);
        assert(s == here + rest);
        if m < here.len() {
            assert(s[m] == here[m]);
            assert(here.contains(here[m]));
        } else {
            assert(s[m] == rest[m - here.len()]);
            lemma_deepest_in_keys(tasks, keys, (d - 1) as nat, m - here.len());
        }
    }
}

/// The keys of one depth come from the keys.
proof fn lemma_keys_at_in_keys(tasks: Seq<TaskV>, keys: Seq<u32>, d: nat)
    ensures
        forall|x: u32| #[trigger] keys_at(tasks, keys, d).contains(x) ==> keys.contains(x),
    decreases keys.len(),
{
    if keys.len() > 0 {
        let front = keys.drop_last();
        lemma_keys_at_in_keys(tasks, front, d);
        let r = keys_at(tasks, front, d);
        assert forall|x: u32| keys_at(tasks, keys, d).contains(x) implies keys.contains(x) by {
            let full = keys_at(tasks, keys, d);
            let k = choose|k: int| 0 <= k < full.len() && full[k] == x;
            assert(full == r || full == r.push(keys.last()));
            if k < r.len() {
                assert(full[k] == r[k]);
                assert(r[k] == x);
                assert(r.contains(x));
                let w = choose|w: int| 0 <= w < front.len() && front[w] == x;
                assert(keys[w] == x);
            } else {
                assert(keys[keys.len() - 1] == x);
            }
        }
    }
}

/// A key names the parent of some task.
proof fn lemma_keys_have_children(tasks: Seq<TaskV>, x: u32)
    requires
        parent_keys(tasks).contains(x),
    ensures
        has_children(tasks, x),
    decreases tasks.len(),
{
    let front = tasks.drop_last();
    let keys = parent_keys(front);
    if tasks.last().parent_id == Some(x) {
        assert(tasks[tasks.len() - 1].parent_id == Some(x));
    } else {
        assert(keys.contains(x)) by {
            let k = choose|k: int| 0 <= k < parent_keys(tasks).len() && parent_keys(tasks)[k] == x;
            match tasks.last().parent_id {
                Some(p) => if !keys.contains(p) {
                    assert(keys.push(p)[k] == x);
                    assert(keys[k] == x);
                },
                None => {},
            }
        }
        lemma_keys_have_children(front, x);
        let i = choose|i: int| 0 <= i < front.len() && (#[trigger] front[i]).parent_id == Some(x);
        assert(tasks[i] == front[i]);
    }
}


/// Where task `j` names task `i` as its parent, the id of `j` comes before every place of
/// the id of `i` in the parent order: deeper parents come first.
proof fn lemma_child_before_parent(tasks: Seq<TaskV>, i: int, j: int)
    requires
        ids_distinct(tasks),
        parents_orderable(tasks),
        0 <= i < tasks.len(),
        0 <= j < tasks.len(),
        i != j,
        tasks[j].parent_id == Some(tasks[i].id),
    ensures
        forall|m1: int, m2: int| 0 <= m1 < parent_order(tasks).len() && 0 <= m2 < parent_order(tasks).len()
            && parent_order(tasks)[m1] == tasks[j].id && parent_order(tasks)[m2] == tasks[i].id ==> m1 < m2,
{
    let p = tasks[i].id;
    let c = tasks[j].id;
    let keys = parent_keys(tasks);
    let order = parent_order(tasks);
    let n = tasks.len();
    lemma_parent_keys(tasks, j);
    if keys.len() < 2 {
        assert(keys.len() == 1);
        assert(keys[0] == p);
        assert(c != p);
    } else {
        lemma_deepest_first(tasks, keys, (n + 1) as nat);
        assert forall|m1: int, m2: int| 0 <= m1 < order.len() && 0 <= m2 < order.len()
            && order[m1] == c && order[m2] == p implies m1 < m2 by {
            assert(depth(tasks, order[m1]) is Some);
            assert(depth(tasks, order[m2]) is Some);
            lemma_first_with_id_char(tasks, c, j);
            assert(depth_from(tasks, p, n as nat) is Some);
            lemma_depth_fuel(tasks, p, n as nat, (n + 1) as nat);
            assert(depth(tasks, order[m1])->0 > depth(tasks, order[m2])->0);
        }
    }
}

/// One more parent of the order is one more fill.
proof fn lemma_fill_step(tasks: Seq<TaskV>, s0: Slots, order: Seq<u32>, k: int)
    requires
        0 <= k < order.len(),
    ensures
        fill_parents(tasks, s0, order.take(k + 1)) == fill_parent(tasks, fill_parents(tasks, s0, order.take(k)), order[k]),
{
    assert(order.take(k + 1).drop_last() =~= order.take(k));
}

/// Filling keeps the number of slots, keeps every dated slot, and dates only the slot of the
/// last task with a parent's id.
proof fn lemma_fill_frame(tasks: Seq<TaskV>, slots: Slots, q: u32)
    requires
        slots.len() == tasks.len(),
    ensures
        ({
            let r = fill_parent(tasks, slots, q);
            &&& r.len() == slots.len()
            &&& forall|x: int| 0 <= x < slots.len() && (slots[x] is Some || last_with_id(tasks, q) != Some(x))
                ==> #[trigger] r[x] == slots[x]
            &&& forall|x: int| 0 <= x < slots.len() && slots[x] is None && r[x] is Some ==>
                last_with_id(tasks, q) == Some(x) && #[trigger] r[x] == children_span(tasks, slots, q, tasks.len() as int)
        }),
{
    lemma_last_with_id(tasks, q);
}

/// Between two places of the order, a slot stays as it is when it was dated already or when no
/// parent in between is found at it; the number of slots stays.
proof fn lemma_fill_keeps(tasks: Seq<TaskV>, s0: Slots, order: Seq<u32>, x: int, k1: int, k2: int)
    requires
        s0.len() == tasks.len(),
        0 <= k1 <= k2 <= order.len(),
        0 <= x < tasks.len(),
        fill_parents(tasks, s0, order.take(k1))[x] is Some
            || forall|m: int| k1 <= m < k2 ==> last_with_id(tasks, #[trigger] order[m]) != Some(x),
    ensures
        fill_parents(tasks, s0, order.take(k2)).len() == tasks.len(),
        fill_parents(tasks, s0, order.take(k2))[x] == fill_parents(tasks, s0, order.take(k1))[x],
    decreases k2,
{
    if k2 == 0 {
        assert(order.take(0) =~= Seq::<u32>::empty());
    } else if k2 > k1 {
        lemma_fill_keeps(tasks, s0, order, x, k1, k2 - 1);
        lemma_fill_step(tasks, s0, order, k2 - 1);
        lemma_fill_frame(tasks, fill_parents(tasks, s0, order.take(k2 - 1)), order[k2 - 1]);
    } else {
        lemma_fill_len(tasks, s0, order, k2);
    }
}

/// Filling keeps the number of slots.
proof fn lemma_fill_len(tasks: Seq<TaskV>, s0: Slots, order: Seq<u32>, k: int)
    requires
        s0.len() == tasks.len(),
        0 <= k <= order.len(),
    ensures
        fill_parents(tasks, s0, order.take(k)).len() == tasks.len(),
    decreases k,
{
    if k == 0 {
        assert(order.take(0) =~= Seq::<u32>::empty());
    } else {
        lemma_fill_len(tasks, s0, order, k - 1);
        lemma_fill_step(tasks, s0, order, k - 1);
        lemma_fill_frame(tasks, fill_parents(tasks, s0, order.take(k - 1)), order[k - 1]);
    }
}

/// A slot that filling dates was dated at one place of the order, with the span of the
/// children found then.
proof fn lemma_fill_dated_at(tasks: Seq<TaskV>, s0: Slots, order: Seq<u32>, x: int, k: int) -> (k0: int)
    requires
        s0.len() == tasks.len(),
        0 <= k <= order.len(),
        0 <= x < tasks.len(),
        s0[x] is None,
        fill_parents(tasks, s0, order.take(k))[x] is Some,
    ensures
        0 <= k0 < k,
        last_with_id(tasks, order[k0]) == Some(x),
        fill_parents(tasks, s0, order.take(k0))[x] is None,
        fill_parents(tasks, s0, order.take(k))[x] == children_span(tasks, fill_parents(tasks, s0, order.take(k0)), order[k0], tasks.len() as int),
    decreases k,
{
    if k == 0 {
        assert(order.take(0) =~= Seq::<u32>::empty());
        0
    } else {
        let prev = fill_parents(tasks, s0, order.take(k - 1));
        lemma_fill_len(tasks, s0, order, k - 1);
        lemma_fill_step(tasks, s0, order, k - 1);
        lemma_fill_frame(tasks, prev, order[k - 1]);
        if prev[x] is Some {
            lemma_fill_dated_at(tasks, s0, order, x, k - 1)
        } else {
            k - 1
        }
    }
}

/// The span of the children of `p` depends only on the children's slots.
proof fn lemma_span_agree(tasks: Seq<TaskV>, s1: Slots, s2: Slots, p: u32, k: int)
    requires
        0 <= k <= tasks.len(),
        forall|c: int| 0 <= c < tasks.len() && (#[trigger] tasks[c]).parent_id == Some(p)
            ==> child_slot(tasks, s1, c) == child_slot(tasks, s2, c),
    ensures
        children_span(tasks, s1, p, k) == children_span(tasks, s2, p, k),
    decreases k,
{
    if k > 0 {
        lemma_span_agree(tasks, s1, s2, p, k - 1);
    }
}

/// Filling dates only parents: the slot of a task without children keeps what the rounds gave.
proof fn lemma_fill_keeps_leaf(tasks: Seq<TaskV>, pstart: int, y: int)
    requires
        ids_distinct(tasks),
        0 <= y < tasks.len(),
        !has_children(tasks, tasks[y].id),
    ensures
        final_slots(tasks, pstart)[y] == first_pass(tasks, pstart).0[y],
{
    reveal(final_slots);
    let order = parent_order(tasks);
    let s0 = first_pass(tasks, pstart).0;
    lemma_first_pass_settled(tasks, pstart);
    assert forall|m: int| 0 <= m < order.len() implies last_with_id(tasks, #[trigger] order[m]) != Some(y) by {
        lemma_order_has_children(tasks, m);
        lemma_last_with_id(tasks, order[m]);
    }
    lemma_fill_keeps(tasks, s0, order, y, 0, order.len() as int);
    assert(order.take(0) =~= Seq::<u32>::empty());
    assert(order.take(order.len() as int) =~= order);
}

/// Filling keeps every slot that the rounds dated.
proof fn lemma_fill_keeps_dated(tasks: Seq<TaskV>, pstart: int, x: int)
    requires
        0 <= x < tasks.len(),
        first_pass(tasks, pstart).0[x] is Some,
    ensures
        final_slots(tasks, pstart)[x] == first_pass(tasks, pstart).0[x],
{
    reveal(final_slots);
    let order = parent_order(tasks);
    let s0 = first_pass(tasks, pstart).0;
    lemma_first_pass_settled(tasks, pstart);
    assert(order.take(0) =~= Seq::<u32>::empty());
    lemma_fill_keeps(tasks, s0, order, x, 0, order.len() as int);
    assert(order.take(order.len() as int) =~= order);
}

/// The scheduled dates of task `i` are those of the slot of the last task with its id.
proof fn lemma_scheduled_slot(tasks: Seq<TaskV>, pstart: int, i: int) -> (x: int)
    requires
        0 <= i < tasks.len(),
    ensures
        0 <= x < tasks.len(),
        tasks[x].id == tasks[i].id,
        last_with_id(tasks, tasks[i].id) == Some(x),
        ({
            let r = scheduled(tasks, pstart);
            let sl = final_slots(tasks, pstart)[x];
            &&& r[i].start == (match sl { Some(d) => Some(d.0), None => None })
            &&& r[i].end == (match sl { Some(d) => Some(d.1), None => None })
            &&& sl is Some && has_children(tasks, tasks[i].id) ==> r[i].duration == ((sl->0).1 - (sl->0).0 + 1) as i64
        }),
{
    lemma_last_with_id(tasks, tasks[i].id);
    let x = last_with_id(tasks, tasks[i].id)->0;
    x
}

/// Scheduling makes a parent span its dated children: when a task that some task names as its
/// parent is dated, each dated child lies within its dates, its start is some dated child's
/// start, its end is some dated child's end, and its duration is the number of days from its
/// start to its end (as an `i64`).  A parent dated in the rounds has all its children dated;
/// one dated afterwards spans those that could be dated.  This holds where no two tasks share
/// an id, the parents can be ordered by depth, and the task is not its own parent.
pub proof fn law_parent_spans_children(tasks: Seq<TaskV>, pstart: int, p: int)
    requires
        ids_distinct(tasks),
        parents_orderable(tasks),
        0 <= p < tasks.len(),
        has_children(tasks, tasks[p].id),
        tasks[p].parent_id != Some(tasks[p].id),
        scheduled(tasks, pstart)[p].start is Some,
    ensures
        ({
            let r = scheduled(tasks, pstart);
            let pid = tasks[p].id;
            &&& r[p].end is Some
            &&& r[p].duration == (r[p].end->0 - r[p].start->0 + 1) as i64
            &&& forall|c: int| 0 <= c < tasks.len() && (#[trigger] tasks[c]).parent_id == Some(pid)
                && r[c].start is Some ==> {
                &&& r[c].end is Some
                &&& r[p].start->0 <= r[c].start->0
                &&& r[c].end->0 <= r[p].end->0
            }
            &&& exists|c: int| 0 <= c < tasks.len() && (#[trigger] tasks[c]).parent_id == Some(pid)
                && r[c].start == r[p].start
            &&& exists|c: int| 0 <= c < tasks.len() && (#[trigger] tasks[c]).parent_id == Some(pid)
                && r[c].end == r[p].end
        }),
{
    reveal(final_slots);
    let r = scheduled(tasks, pstart);
    let base = first_pass(tasks, pstart).0;
    let fs = final_slots(tasks, pstart);
    let order = parent_order(tasks);
    let n = tasks.len() as int;
    let pid = tasks[p].id;
    lemma_first_pass_settled(tasks, pstart);
    let x = lemma_scheduled_slot(tasks, pstart, p);
    lemma_last_with_id_char(tasks, pid, p);
    assert(x == p);
    assert(fs[p] is Some);
    assert(order.take(0) =~= Seq::<u32>::empty());
    assert(order.take(order.len() as int) =~= order);
    // Each child's scheduled dates are those of its own slot.
    assert forall|c: int| 0 <= c < n && (#[trigger] tasks[c]).parent_id == Some(pid) implies
        child_slot(tasks, fs, c) == fs[c] && r[c].start == (match fs[c] { Some(d) => Some(d.0), None => None })
        && r[c].end == (match fs[c] { Some(d) => Some(d.1), None => None }) by {
        lemma_last_with_id_char(tasks, tasks[c].id, c);
        let y = lemma_scheduled_slot(tasks, pstart, c);
    }
    if base[p] is Some {
        lemma_fill_keeps_dated(tasks, pstart, p);
        assert(settled_at(tasks, pstart, base, p));
        assert forall|c: int| 0 <= c < n && (#[trigger] tasks[c]).parent_id == Some(pid) implies
            child_slot(tasks, base, c) == child_slot(tasks, fs, c) by {
            lemma_last_with_id_char(tasks, tasks[c].id, c);
            lemma_fill_keeps_dated(tasks, pstart, c);
        }
        lemma_span_agree(tasks, base, fs, pid, n);
    } else {
        lemma_fill_len(tasks, base, order, order.len() as int);
        let k0 = lemma_fill_dated_at(tasks, base, order, p, order.len() as int);
        lemma_last_with_id(tasks, order[k0]);
        assert(order[k0] == pid);
        let sk = fill_parents(tasks, base, order.take(k0));
        assert forall|c: int| 0 <= c < n && (#[trigger] tasks[c]).parent_id == Some(pid) implies
            child_slot(tasks, sk, c) == child_slot(tasks, fs, c) by {
            lemma_last_with_id_char(tasks, tasks[c].id, c);
            if c != p {
                lemma_child_before_parent(tasks, p, c);
                assert forall|m: int| k0 <= m < order.len() implies last_with_id(tasks, #[trigger] order[m]) != Some(c) by {
                    lemma_last_with_id(tasks, order[m]);
                    if last_with_id(tasks, order[m]) == Some(c) {
                        assert(order[m] == tasks[c].id);
                    }
                }
                lemma_fill_keeps(tasks, base, order, c, k0, order.len() as int);
            }
        }
        lemma_span_agree(tasks, sk, fs, pid, n);
    }
    lemma_children_span_bounds(tasks, fs, pid, n);
    assert forall|c: int| 0 <= c < tasks.len() && (#[trigger] tasks[c]).parent_id == Some(pid)
        && r[c].start is Some implies {
        &&& r[c].end is Some
        &&& r[p].start->0 <= r[c].start->0
        &&& r[c].end->0 <= r[p].end->0
    } by {
        assert(child_slot(tasks, fs, c) is Some);
    }
    let c1 = choose|c: int| 0 <= c < n && (#[trigger] tasks[c]).parent_id == Some(pid)
        && child_slot(tasks, fs, c) is Some && (child_slot(tasks, fs, c)->0).0 == (fs[p]->0).0;
    assert(r[c1].start == r[p].start);
    let c2 = choose|c: int| 0 <= c < n && (#[trigger] tasks[c]).parent_id == Some(pid)
        && child_slot(tasks, fs, c) is Some && (child_slot(tasks, fs, c)->0).1 == (fs[p]->0).1;
    assert(r[c2].end == r[p].end);
}

/// Scheduling dates a task without children from its own duration: it ends `max(duration, 1)
/// - 1` days after its start, and without dependencies it starts on its manual start date, else
/// on the project's start.  This holds where no two tasks share an id (else a task takes the
/// dates of the last task with its id).
pub proof fn law_leaf_dates(tasks: Seq<TaskV>, pstart: int, y: int)
    requires
        ids_distinct(tasks),
        0 <= y < tasks.len(),
        !has_children(tasks, tasks[y].id),
        scheduled(tasks, pstart)[y].start is Some,
    ensures
        ({
            let r = scheduled(tasks, pstart);
            &&& r[y].end == Some(r[y].start->0 + span(tasks[y].duration) - 1)
            &&& tasks[y].dependencies.len() == 0 ==> r[y].start == Some(match tasks[y].manual_start {
                Some(m) => m,
                None => pstart,
            })
        }),
{
    let slots = first_pass(tasks, pstart).0;
    lemma_first_pass_settled(tasks, pstart);
    let x = lemma_scheduled_slot(tasks, pstart, y);
    lemma_last_with_id_char(tasks, tasks[y].id, y);
    lemma_fill_keeps_leaf(tasks, pstart, y);
    assert(settled_at(tasks, pstart, slots, y));
}

/// Scheduling starts a task with dependencies on the day after the latest end among them:
/// each dependency of a dated task `y` is dated and ends before `y` starts, and one of them
/// ends on the day before.  This holds where no two tasks share an id, every dependency of
/// `y` names a task, and `y` is no parent (a parent spans its children instead).
pub proof fn law_dependents_follow(tasks: Seq<TaskV>, pstart: int, y: int)
    requires
        ids_distinct(tasks),
        0 <= y < tasks.len(),
        tasks[y].dependencies.len() > 0,
        scheduled(tasks, pstart)[y].start is Some,
        !has_children(tasks, tasks[y].id),
        forall|k: int| 0 <= k < tasks[y].dependencies.len() ==>
            #[trigger] last_with_id(tasks, tasks[y].dependencies[k]) is Some,
    ensures
        ({
            let r = scheduled(tasks, pstart);
            let deps = tasks[y].dependencies;
            &&& forall|k: int| 0 <= k < deps.len() ==>
                r[last_with_id(tasks, #[trigger] deps[k])->0].end is Some
                && r[last_with_id(tasks, deps[k])->0].end->0 < r[y].start->0
            &&& exists|k: int| 0 <= k < deps.len()
                && r[last_with_id(tasks, #[trigger] deps[k])->0].end is Some
                && r[last_with_id(tasks, deps[k])->0].end->0 + 1 == r[y].start->0
        }),
{
    let deps = tasks[y].dependencies;
    let slots = first_pass(tasks, pstart).0;
    let r = scheduled(tasks, pstart);
    lemma_first_pass_settled(tasks, pstart);
    let xy = lemma_scheduled_slot(tasks, pstart, y);
    lemma_last_with_id_char(tasks, tasks[y].id, y);
    lemma_fill_keeps_leaf(tasks, pstart, y);
    assert(slots[y] is Some);
    assert(settled_at(tasks, pstart, slots, y));
    assert(deps_ready(tasks, slots, deps));
    assert forall|k: int| 0 <= k < deps.len() implies (#[trigger] dep_end(tasks, slots, deps[k])) is Some by {
        assert(dep_ready(tasks, slots, deps[k]));
    }
    lemma_latest_end_bounds(tasks, slots, deps);
    assert forall|k: int| 0 <= k < deps.len() implies
        r[last_with_id(tasks, #[trigger] deps[k])->0].end is Some
        && r[last_with_id(tasks, deps[k])->0].end->0 < r[y].start->0 by {
        let x = last_with_id(tasks, deps[k])->0;
        lemma_last_with_id(tasks, deps[k]);
        let xx = lemma_scheduled_slot(tasks, pstart, x);
        assert(dep_end(tasks, slots, deps[k]) is Some);
        lemma_fill_keeps_dated(tasks, pstart, x);
    }
    let w = choose|k: int| 0 <= k < deps.len() && (#[trigger] dep_end(tasks, slots, deps[k]))->0
        == latest_end(tasks, slots, deps)->0;
    let xw = last_with_id(tasks, deps[w])->0;
    lemma_last_with_id(tasks, deps[w]);
    let xx = lemma_scheduled_slot(tasks, pstart, xw);
    assert(dep_end(tasks, slots, deps[w]) is Some);
    lemma_fill_keeps_dated(tasks, pstart, xw);
    assert(r[xw].end->0 + 1 == r[y].start->0);
}


/// A round dates every task without children or dependencies whose id it visits (as the last
/// task with that id).
proof fn lemma_round_dates_free(tasks: Seq<TaskV>, pstart: int, st: RoundState, pending: Seq<u32>, y: int)
    requires
        slots_settled(tasks, pstart, st.1),
        0 <= y < tasks.len(),
        last_with_id(tasks, tasks[y].id) == Some(y),
        !has_children(tasks, tasks[y].id),
        tasks[y].dependencies.len() == 0,
        pending.contains(tasks[y].id),
    ensures
        run_round(tasks, pstart, st, pending).1[y] is Some,
    decreases pending.len(),
{
    let front = pending.drop_last();
    lemma_round_settled(tasks, pstart, st, front);
    let mid = run_round(tasks, pstart, st, front);
    if pending.last() == tasks[y].id {
        assert(deps_ready(tasks, mid.1, tasks[y].dependencies));
    } else {
        let k = choose|k: int| 0 <= k < pending.len() && pending[k] == tasks[y].id;
        assert(front[k] == tasks[y].id);
        lemma_round_dates_free(tasks, pstart, st, front, y);
        lemma_step_settled(tasks, pstart, mid, pending.last());
    }
}

/// Scheduling dates every task without children or dependencies: it gets a start (its manual
/// start date, else the project's start, by [`law_leaf_dates`]).  This holds where no two tasks
/// share an id.
pub proof fn law_free_tasks_dated(tasks: Seq<TaskV>, pstart: int, y: int)
    requires
        ids_distinct(tasks),
        0 <= y < tasks.len(),
        !has_children(tasks, tasks[y].id),
        tasks[y].dependencies.len() == 0,
    ensures
        scheduled(tasks, pstart)[y].start is Some,
        scheduled(tasks, pstart)[y].end is Some,
{
    let init: Slots = Seq::new(tasks.len(), |i: int| None);
    let ids = ids_of(tasks);
    assert(slots_settled(tasks, pstart, init));
    lemma_last_with_id_char(tasks, tasks[y].id, y);
    assert(ids[y] == tasks[y].id);
    let st0: RoundState = (Seq::empty(), init, true);
    lemma_round_dates_free(tasks, pstart, st0, ids, y);
    lemma_round_settled(tasks, pstart, st0, ids);
    let r1 = run_round(tasks, pstart, st0, ids);
    lemma_rounds_settled(tasks, pstart, r1.0, r1.1, r1.2, 99);
    assert(first_pass(tasks, pstart).0 == run_rounds(tasks, pstart, r1.0, r1.1, r1.2, 99).1);
    lemma_fill_keeps_dated(tasks, pstart, y);
    let x = lemma_scheduled_slot(tasks, pstart, y);
}


/// Every id that some task names as its parent has a place in the parent order, where the
/// parents can be ordered by depth.
proof fn lemma_order_contains_parent(tasks: Seq<TaskV>, c: int) -> (kp: int)
    requires
        parents_orderable(tasks),
        0 <= c < tasks.len(),
        tasks[c].parent_id is Some,
    ensures
        0 <= kp < parent_order(tasks).len(),
        parent_order(tasks)[kp] == tasks[c].parent_id->0,
{
    let q = tasks[c].parent_id->0;
    let keys = parent_keys(tasks);
    let order = parent_order(tasks);
    let n = tasks.len();
    lemma_parent_keys(tasks, c);
    if keys.len() >= 2 {
        let k = choose|k: int| 0 <= k < keys.len() && keys[k] == q;
        assert(depth(tasks, keys[k]) is Some);
        lemma_depth_below_fuel(tasks, q, (n + 1) as nat);
        lemma_deepest_first(tasks, keys, (n + 1) as nat);
    }
    assert(order.contains(q));
    choose|m: int| 0 <= m < order.len() && order[m] == q
}

/// Scheduling dates every parent that has a dated child: once some task that names `p` as its
/// parent has a start, so has `p` (and by [`law_parent_spans_children`] it spans its dated
/// children).  This holds where no two tasks share an id and the parents can be ordered by
/// depth.
pub proof fn law_parents_dated(tasks: Seq<TaskV>, pstart: int, p: int, c: int)
    requires
        ids_distinct(tasks),
        parents_orderable(tasks),
        0 <= p < tasks.len(),
        0 <= c < tasks.len(),
        tasks[c].parent_id == Some(tasks[p].id),
        scheduled(tasks, pstart)[c].start is Some,
    ensures
        scheduled(tasks, pstart)[p].start is Some,
        scheduled(tasks, pstart)[p].end is Some,
{
    reveal(final_slots);
    let base = first_pass(tasks, pstart).0;
    let fs = final_slots(tasks, pstart);
    let order = parent_order(tasks);
    let n = tasks.len() as int;
    let pid = tasks[p].id;
    lemma_first_pass_settled(tasks, pstart);
    assert(order.take(0) =~= Seq::<u32>::empty());
    assert(order.take(order.len() as int) =~= order);
    lemma_last_with_id_char(tasks, pid, p);
    lemma_last_with_id_char(tasks, tasks[c].id, c);
    let xc = lemma_scheduled_slot(tasks, pstart, c);
    assert(fs[c] is Some);
    if c != p && base[p] is None {
        let kp = lemma_order_contains_parent(tasks, c);
        let skp = fill_parents(tasks, base, order.take(kp));
        lemma_fill_len(tasks, base, order, kp);
        // The child is dated before the parent's place in the order.
        if base[c] is Some {
            lemma_fill_keeps(tasks, base, order, c, 0, kp);
        } else {
            lemma_fill_len(tasks, base, order, order.len() as int);
            let k0 = lemma_fill_dated_at(tasks, base, order, c, order.len() as int);
            lemma_last_with_id(tasks, order[k0]);
            assert(order[k0] == tasks[c].id);
            lemma_child_before_parent(tasks, p, c);
            assert(k0 < kp);
            lemma_fill_len(tasks, base, order, k0);
            lemma_fill_step(tasks, base, order, k0);
            lemma_fill_len(tasks, base, order, k0 + 1);
            assert(fill_parents(tasks, base, order.take(k0 + 1))[c] is Some);
            lemma_fill_keeps(tasks, base, order, c, k0 + 1, kp);
        }
        assert(skp[c] is Some);
        assert(child_slot(tasks, skp, c) is Some);
        lemma_children_span_bounds(tasks, skp, pid, n);
        lemma_fill_step(tasks, base, order, kp);
        lemma_last_with_id(tasks, pid);
        assert(fill_parents(tasks, base, order.take(kp + 1))[p] is Some);
        lemma_fill_keeps(tasks, base, order, p, kp + 1, order.len() as int);
    } else if c != p {
        lemma_fill_keeps_dated(tasks, pstart, p);
    }
    let xp = lemma_scheduled_slot(tasks, pstart, p);
}


/// What a task waits for before a round can date it: a parent waits for all its children, any
/// other task for each of its dependencies that names a task.
pub open spec fn ready_in(tasks: Seq<TaskV>, slots: Slots, y: int) -> bool {
    if has_children(tasks, tasks[y].id) {
        children_dated(tasks, slots, tasks[y].id)
    } else {
        deps_ready(tasks, slots, tasks[y].dependencies)
    }
}

/// `rank` orders the tasks of rank below 100 after what they wait for: each dependency that
/// names a task, and each child, has a smaller rank.  Such a rank exists exactly where, from
/// these tasks, following dependencies and children never comes back to a task and passes
/// through fewer than 100 tasks.
pub open spec fn ranked(tasks: Seq<TaskV>, rank: spec_fn(int) -> nat) -> bool {
    &&& forall|i: int, k: int| 0 <= i < tasks.len() && rank(i) < 100 && 0 <= k < tasks[i].dependencies.len()
        && (#[trigger] last_with_id(tasks, tasks[i].dependencies[k])) is Some
        ==> rank(last_with_id(tasks, tasks[i].dependencies[k])->0) < rank(i)
    &&& forall|i: int, c: int| #![trigger rank(i), tasks[c]] 0 <= i < tasks.len() && 0 <= c < tasks.len()
        && rank(i) < 100 && tasks[c].parent_id == Some(tasks[i].id) ==> rank(c) < rank(i)
}

/// One step of a round keeps the number of slots, keeps dated slots dated, and either keeps
/// the id for the next round or dates the slot of the last task with that id.
proof fn lemma_step_grow(tasks: Seq<TaskV>, pstart: int, st: RoundState, id: u32)
    requires
        st.1.len() == tasks.len(),
    ensures
        ({
            let r = round_step(tasks, pstart, st, id);
            &&& r.1.len() == tasks.len()
            &&& forall|x: int| 0 <= x < tasks.len() && st.1[x] is Some ==> (#[trigger] r.1[x]) is Some
            &&& r.0 == st.0 || r.0 == st.0.push(id)
            &&& r.0 == st.0 ==> last_with_id(tasks, id) is Some && r.1[last_with_id(tasks, id)->0] is Some
        }),
{
    lemma_last_with_id(tasks, id);
}

/// A round keeps the number of slots, keeps dated slots dated and kept ids kept, and keeps for
/// the next round each visited id whose task it leaves undated.
proof fn lemma_round_grow(tasks: Seq<TaskV>, pstart: int, st: RoundState, pending: Seq<u32>)
    requires
        st.1.len() == tasks.len(),
    ensures
        ({
            let r = run_round(tasks, pstart, st, pending);
            &&& r.1.len() == tasks.len()
            &&& forall|x: int| 0 <= x < tasks.len() && st.1[x] is Some ==> (#[trigger] r.1[x]) is Some
            &&& forall|v: u32| st.0.contains(v) ==> (#[trigger] r.0.contains(v))
            &&& forall|y: int| 0 <= y < tasks.len() && (#[trigger] r.1[y]) is None
                && last_with_id(tasks, tasks[y].id) == Some(y) && pending.contains(tasks[y].id)
                ==> r.0.contains(tasks[y].id)
        }),
    decreases pending.len(),
{
    if pending.len() > 0 {
        let front = pending.drop_last();
        let id = pending.last();
        lemma_round_grow(tasks, pstart, st, front);
        let mid = run_round(tasks, pstart, st, front);
        lemma_step_grow(tasks, pstart, mid, id);
        let r = run_round(tasks, pstart, st, pending);
        assert(r == round_step(tasks, pstart, mid, id));
        assert forall|v: u32| mid.0.contains(v) implies #[trigger] r.0.contains(v) by {
            let k = choose|k: int| 0 <= k < mid.0.len() && mid.0[k] == v;
            if r.0 != mid.0 {
                assert(r.0[k] == v);
            }
        }
        assert forall|y: int| 0 <= y < tasks.len() && (#[trigger] r.1[y]) is None
            && last_with_id(tasks, tasks[y].id) == Some(y) && pending.contains(tasks[y].id)
            implies r.0.contains(tasks[y].id) by {
            let k = choose|k: int| 0 <= k < pending.len() && pending[k] == tasks[y].id;
            if k < front.len() {
                assert(front[k] == tasks[y].id);
                assert(mid.1[y] is None);
                assert(mid.0.contains(tasks[y].id));
            } else {
                assert(id == tasks[y].id);
                assert(r.0 != mid.0);
                assert(r.0[mid.0.len() as int] == id);
            }
        }
    }
}

/// What a task waits for stays ready as more slots are dated.
proof fn lemma_ready_grows(tasks: Seq<TaskV>, s1: Slots, s2: Slots, y: int)
    requires
        s1.len() == tasks.len(),
        s2.len() == tasks.len(),
        0 <= y < tasks.len(),
        forall|x: int| 0 <= x < tasks.len() && s1[x] is Some ==> (#[trigger] s2[x]) is Some,
        ready_in(tasks, s1, y),
    ensures
        ready_in(tasks, s2, y),
{
    if has_children(tasks, tasks[y].id) {
        assert forall|c: int| 0 <= c < tasks.len() && (#[trigger] tasks[c]).parent_id == Some(tasks[y].id)
            implies child_slot(tasks, s2, c) is Some by {
            lemma_last_with_id(tasks, tasks[c].id);
            assert(child_slot(tasks, s1, c) is Some);
        }
    } else {
        let deps = tasks[y].dependencies;
        assert forall|k: int| 0 <= k < deps.len() implies dep_ready(tasks, s2, #[trigger] deps[k]) by {
            lemma_last_with_id(tasks, deps[k]);
            assert(dep_ready(tasks, s1, deps[k]));
        }
    }
}

/// A round dates each task that it visits (as the last task with its id) and that is ready
/// when the round begins.
proof fn lemma_round_visits(tasks: Seq<TaskV>, pstart: int, st: RoundState, pending: Seq<u32>, y: int)
    requires
        st.1.len() == tasks.len(),
        0 <= y < tasks.len(),
        last_with_id(tasks, tasks[y].id) == Some(y),
        pending.contains(tasks[y].id),
        ready_in(tasks, st.1, y),
    ensures
        run_round(tasks, pstart, st, pending).1[y] is Some,
    decreases pending.len(),
{
    let front = pending.drop_last();
    let id = pending.last();
    lemma_round_grow(tasks, pstart, st, front);
    let mid = run_round(tasks, pstart, st, front);
    lemma_step_grow(tasks, pstart, mid, id);
    if id == tasks[y].id {
        lemma_ready_grows(tasks, st.1, mid.1, y);
        if has_children(tasks, id) {
            let c = choose|c: int| 0 <= c < tasks.len() && (#[trigger] tasks[c]).parent_id == Some(id);
            assert(child_slot(tasks, mid.1, c) is Some);
            lemma_children_span_bounds(tasks, mid.1, id, tasks.len() as int);
        }
    } else {
        let k = choose|k: int| 0 <= k < pending.len() && pending[k] == tasks[y].id;
        assert(front[k] == tasks[y].id);
        lemma_round_visits(tasks, pstart, st, front, y);
    }
}

/// A task of rank `r` whose dependencies and children of smaller rank are all dated is ready.
proof fn lemma_ranked_ready(tasks: Seq<TaskV>, rank: spec_fn(int) -> nat, slots: Slots, i: int)
    requires
        ids_distinct(tasks),
        ranked(tasks, rank),
        slots.len() == tasks.len(),
        0 <= i < tasks.len(),
        rank(i) < 100,
        forall|x: int| 0 <= x < tasks.len() && rank(x) < rank(i) ==> (#[trigger] slots[x]) is Some,
    ensures
        ready_in(tasks, slots, i),
{
    if has_children(tasks, tasks[i].id) {
        assert forall|c: int| 0 <= c < tasks.len() && (#[trigger] tasks[c]).parent_id == Some(tasks[i].id)
            implies child_slot(tasks, slots, c) is Some by {
            lemma_last_with_id_char(tasks, tasks[c].id, c);
            assert(rank(c) < rank(i));
        }
    } else {
        let deps = tasks[i].dependencies;
        assert forall|k: int| 0 <= k < deps.len() implies dep_ready(tasks, slots, #[trigger] deps[k]) by {
            lemma_last_with_id(tasks, deps[k]);
            if last_with_id(tasks, tasks[i].dependencies[k]) is Some {
                assert(rank(last_with_id(tasks, tasks[i].dependencies[k])->0) < rank(i));
            }
        }
    }
}

/// After `m` more rounds, following `r0` rounds that dated every task of rank below `r0`, every
/// task of rank below `r0 + m` is dated: each round dates the ready tasks it visits, and every
/// undated task is visited.
proof fn lemma_rounds_date_ranked(
    tasks: Seq<TaskV>,
    pstart: int,
    rank: spec_fn(int) -> nat,
    pending: Seq<u32>,
    slots: Slots,
    ok: bool,
    r0: nat,
    m: nat,
)
    requires
        ids_distinct(tasks),
        ranked(tasks, rank),
        slots.len() == tasks.len(),
        r0 + m <= 100,
        forall|y: int| 0 <= y < tasks.len() && (#[trigger] slots[y]) is None ==> pending.contains(tasks[y].id),
        forall|i: int| 0 <= i < tasks.len() && rank(i) < r0 ==> (#[trigger] slots[i]) is Some,
    ensures
        forall|i: int| 0 <= i < tasks.len() && rank(i) < r0 + m
            ==> (#[trigger] run_rounds(tasks, pstart, pending, slots, ok, m).1[i]) is Some,
    decreases m,
{
    if m > 0 && pending.len() > 0 {
        let st0: RoundState = (Seq::empty(), slots, ok);
        lemma_round_grow(tasks, pstart, st0, pending);
        let st = run_round(tasks, pstart, st0, pending);
        assert forall|y: int| 0 <= y < tasks.len() && (#[trigger] st.1[y]) is None implies st.0.contains(tasks[y].id) by {
            lemma_last_with_id_char(tasks, tasks[y].id, y);
        }
        assert forall|i: int| 0 <= i < tasks.len() && rank(i) < r0 + 1 implies (#[trigger] st.1[i]) is Some by {
            if slots[i] is None {
                lemma_last_with_id_char(tasks, tasks[i].id, i);
                lemma_ranked_ready(tasks, rank, slots, i);
                lemma_round_visits(tasks, pstart, st0, pending, i);
            }
        }
        lemma_rounds_date_ranked(tasks, pstart, rank, st.0, st.1, st.2, r0 + 1, (m - 1) as nat);
    }
}

/// Scheduling dates every task whose dependencies and sub-tasks can be ranked: where no two
/// tasks share an id and `rank` puts each task of rank below 100 after each of its dependencies
/// that names a task and after each of its children, every task of rank below 100 gets a start
/// and an end.  So a task with dependencies is dated (the day after its last dependency ends,
/// by [`law_dependents_follow`]) whenever following its dependencies and sub-tasks never comes
/// back to a task and passes through fewer than 100 tasks.
pub proof fn law_dependents_dated(tasks: Seq<TaskV>, pstart: int, rank: spec_fn(int) -> nat, y: int)
    requires
        ids_distinct(tasks),
        ranked(tasks, rank),
        0 <= y < tasks.len(),
        rank(y) < 100,
    ensures
        scheduled(tasks, pstart)[y].start is Some,
        scheduled(tasks, pstart)[y].end is Some,
{
    let init: Slots = Seq::new(tasks.len(), |i: int| None);
    let ids = ids_of(tasks);
    assert forall|x: int| 0 <= x < tasks.len() && (#[trigger] init[x]) is None implies ids.contains(tasks[x].id) by {
        assert(ids[x] == tasks[x].id);
    }
    lemma_rounds_date_ranked(tasks, pstart, rank, ids, init, true, 0, 100);
    assert(first_pass(tasks, pstart).0 == run_rounds(tasks, pstart, ids, init, true, 100).1);
    lemma_fill_keeps_dated(tasks, pstart, y);
    lemma_last_with_id_char(tasks, tasks[y].id, y);
    let x = lemma_scheduled_slot(tasks, pstart, y);
}

/// Scheduling starts a task with dependencies the day after its last dependency ends, whenever
/// its dependencies and sub-tasks can be ranked as [`law_dependents_dated`] asks: the task is
/// dated, every dependency is dated and ends before it starts, and one of them ends on the day
/// before.  This holds where no two tasks share an id, every dependency of the task names a
/// task, and the task is no parent (a parent spans its children instead).
pub proof fn law_dependents_start_after_last(tasks: Seq<TaskV>, pstart: int, rank: spec_fn(int) -> nat, y: int)
    requires
        ids_distinct(tasks),
        ranked(tasks, rank),
        0 <= y < tasks.len(),
        rank(y) < 100,
        tasks[y].dependencies.len() > 0,
        !has_children(tasks, tasks[y].id),
        forall|k: int| 0 <= k < tasks[y].dependencies.len() ==>
            #[trigger] last_with_id(tasks, tasks[y].dependencies[k]) is Some,
    ensures
        ({
            let r = scheduled(tasks, pstart);
            let deps = tasks[y].dependencies;
            &&& r[y].start is Some
            &&& forall|k: int| 0 <= k < deps.len() ==>
                r[last_with_id(tasks, #[trigger] deps[k])->0].end is Some
                && r[last_with_id(tasks, deps[k])->0].end->0 < r[y].start->0
            &&& exists|k: int| 0 <= k < deps.len()
                && r[last_with_id(tasks, #[trigger] deps[k])->0].end is Some
                && r[last_with_id(tasks, deps[k])->0].end->0 + 1 == r[y].start->0
        }),
{
    law_dependents_dated(tasks, pstart, rank, y);
    law_dependents_follow(tasks, pstart, y);
}

} // verus!
