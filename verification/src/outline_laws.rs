//! What moving families promises: moving a task down right after moving it up puts every task
//! back in its place.

use vstd::prelude::*;
use crate::model::TaskV;
use crate::hierarchy::{level, depth, depth_from};
use crate::lookup::{first_with_id, lemma_first_with_id, lemma_first_with_id_char};
use crate::outline::{level_at, scan_family, family_end, scan_up, moved_up, moved_down, MoveOutcome};
use crate::schedule_laws::ids_distinct;

verus! {

/// `s2` holds the tasks of `s1` and no others: the task at `i` of `s1` is at `to(i)` of `s2`,
/// and the task at `j` of `s2` is at `from(j)` of `s1`.
pub open spec fn same_tasks(s1: Seq<TaskV>, s2: Seq<TaskV>, to: spec_fn(int) -> int, from: spec_fn(int) -> int) -> bool {
    &&& s1.len() == s2.len()
    &&& forall|i: int| 0 <= i < s1.len() ==> 0 <= #[trigger] to(i) < s2.len() && s2[to(i)] == s1[i]
    &&& forall|j: int| 0 <= j < s2.len() ==> 0 <= #[trigger] from(j) < s1.len() && s1[from(j)] == s2[j]
}

/// In two lists of the same tasks, each with distinct ids, a depth is the same.
proof fn lemma_depth_same(s1: Seq<TaskV>, s2: Seq<TaskV>, to: spec_fn(int) -> int, from: spec_fn(int) -> int, id: u32, f: nat)
    requires
        ids_distinct(s1),
        ids_distinct(s2),
        same_tasks(s1, s2, to, from),
    ensures
        depth_from(s2, id, f) == depth_from(s1, id, f),
    decreases f,
{
    if f > 0 {
        lemma_first_with_id(s1, id);
        lemma_first_with_id(s2, id);
        match first_with_id(s1, id) {
            Some(i) => {
                let j = to(i);
                assert forall|k: int| 0 <= k < j implies s2[k].id != id by {
                    assert(s2[k].id != s2[j].id);
                }
                lemma_first_with_id_char(s2, id, j);
                match s1[i].parent_id {
                    Some(p) => lemma_depth_same(s1, s2, to, from, p, (f - 1) as nat),
                    None => {},
                }
            },
            None => {
                if first_with_id(s2, id) is Some {
                    let j = first_with_id(s2, id)->0;
                    let i = from(j);
                    assert(s1[i].id == id);
                }
            },
        }
    }
}

/// In two lists of the same tasks, each with distinct ids, a task has the same level.
proof fn lemma_level_same(s1: Seq<TaskV>, s2: Seq<TaskV>, to: spec_fn(int) -> int, from: spec_fn(int) -> int, t: TaskV)
    requires
        ids_distinct(s1),
        ids_distinct(s2),
        same_tasks(s1, s2, to, from),
    ensures
        level(s2, t) == level(s1, t),
{
    match t.parent_id {
        Some(p) => lemma_depth_same(s1, s2, to, from, p, (s1.len() + 1) as nat),
        None => {},
    }
}

/// What a scan for the end of a run of deeper tasks found: every task in the run is deeper than
/// `lvl`, and the task where it stopped, if any, is not.
proof fn lemma_scan_family_facts(s: Seq<TaskV>, lvl: nat, a: int)
    requires
        0 <= a <= s.len(),
        scan_family(s, lvl, a) is Some,
    ensures
        a <= scan_family(s, lvl, a)->0 <= s.len(),
        forall|i: int| a <= i < scan_family(s, lvl, a)->0 ==> (#[trigger] level_at(s, i)) is Some
            && level_at(s, i)->0 > lvl,
        scan_family(s, lvl, a)->0 < s.len() ==> level_at(s, scan_family(s, lvl, a)->0) is Some
            && level_at(s, scan_family(s, lvl, a)->0)->0 <= lvl,
    decreases s.len() - a,
{
    if a < s.len() {
        if level_at(s, a)->0 > lvl {
            lemma_scan_family_facts(s, lvl, a + 1);
        }
    }
}

/// A run of tasks deeper than `lvl` from `a` to `b`, where the task at `b`, if any, is not, is
/// what the scan finds.
proof fn lemma_scan_family_is(s: Seq<TaskV>, lvl: nat, a: int, b: int)
    requires
        0 <= a <= b <= s.len(),
        forall|i: int| a <= i < b ==> (#[trigger] level_at(s, i)) is Some && level_at(s, i)->0 > lvl,
        b < s.len() ==> level_at(s, b) is Some && level_at(s, b)->0 <= lvl,
    ensures
        scan_family(s, lvl, a) == Some(b),
    decreases b - a,
{
    if a < b {
        assert(level_at(s, a) is Some);
        lemma_scan_family_is(s, lvl, a + 1, b);
    }
}

/// What the scan back over deeper tasks found: it stopped at or before `t`, and every task after
/// it up to `t` is deeper than `lvl`.
proof fn lemma_scan_up_facts(s: Seq<TaskV>, lvl: nat, t: int)
    requires
        0 <= t,
        scan_up(s, lvl, t) is Some,
    ensures
        0 <= scan_up(s, lvl, t)->0 <= t,
        forall|i: int| scan_up(s, lvl, t)->0 < i <= t ==> (#[trigger] level_at(s, i)) is Some
            && level_at(s, i)->0 > lvl,
        scan_up(s, lvl, t)->0 > 0 ==> level_at(s, scan_up(s, lvl, t)->0) is Some
            && level_at(s, scan_up(s, lvl, t)->0)->0 <= lvl,
    decreases t,
{
    if t > 0 {
        if level_at(s, t)->0 > lvl {
            lemma_scan_up_facts(s, lvl, t - 1);
        }
    }
}

/// Where the task at index `i` of the list after moving the family `[sel, e)` above `target`
/// comes from.
pub open spec fn moved_from(target: int, sel: int, e: int, i: int) -> int {
    let m = e - sel;
    if i < target {
        i
    } else if i < target + m {
        sel + (i - target)
    } else if i < e {
        target + (i - target - m)
    } else {
        i
    }
}

/// Moving a task up moves its family (the task and the deeper tasks right after it) above the
/// previous family of its level: every task between the new place and the old one is deeper
/// than the moved task, the task it lands above has its level (or, at the very top, no smaller
/// one), and the list is the old one with the family taken out and put back there.
pub proof fn law_move_up_above_sibling(tasks: Seq<TaskV>, sel: int)
    requires
        0 <= sel,
        moved_up(tasks, sel) is Moved,
    ensures
        ({
            let t2 = moved_up(tasks, sel)->0;
            let target = moved_up(tasks, sel)->1;
            let n = tasks.len() as int;
            let lvl = level_at(tasks, sel)->0;
            let e = family_end(tasks, sel)->0;
            &&& level_at(tasks, sel) is Some
            &&& 0 <= target < sel < e <= n
            &&& forall|i: int| target < i < sel ==> (#[trigger] level_at(tasks, i)) is Some && level_at(tasks, i)->0 > lvl
            &&& level_at(tasks, target) is Some && level_at(tasks, target)->0 >= lvl
            &&& target > 0 ==> level_at(tasks, target) == Some(lvl)
            &&& forall|i: int| sel < i < e ==> (#[trigger] level_at(tasks, i)) is Some && level_at(tasks, i)->0 > lvl
            &&& e < n ==> level_at(tasks, e) is Some && level_at(tasks, e)->0 <= lvl
            &&& t2.len() == n
            &&& forall|i: int| 0 <= i < n ==> #[trigger] t2[i] == tasks[moved_from(target, sel, e, i)]
        }),
{
    lemma_moved_up_facts(tasks, sel);
    let e = family_end(tasks, sel)->0;
    let target = moved_up(tasks, sel)->1;
    let n = tasks.len() as int;
    assert forall|i: int| 0 <= i < n implies #[trigger] moved_up(tasks, sel)->0[i] == tasks[moved_from(target, sel, e, i)] by {
        lemma_moved_index(tasks, target, sel, e, i);
    }
    lemma_moved_index(tasks, target, sel, e, 0);
}

/// Moving a task down moves its family (the task and the deeper tasks right after it) below the
/// next family of its level: the task right after the family has the moved task's level, every
/// task of that next family after it is deeper, and the list is the old one with the two
/// families exchanged; the moved task is then right after the next family.
pub proof fn law_move_down_below_sibling(tasks: Seq<TaskV>, sel: int)
    requires
        0 <= sel,
        moved_down(tasks, sel) is Moved,
    ensures
        ({
            let t2 = moved_down(tasks, sel)->0;
            let n = tasks.len() as int;
            let lvl = level_at(tasks, sel)->0;
            let e = family_end(tasks, sel)->0;
            let e2 = family_end(tasks, e)->0;
            &&& level_at(tasks, sel) is Some
            &&& 0 <= sel < e < e2 <= n
            &&& forall|i: int| sel < i < e ==> (#[trigger] level_at(tasks, i)) is Some && level_at(tasks, i)->0 > lvl
            &&& level_at(tasks, e) == Some(lvl)
            &&& forall|i: int| e < i < e2 ==> (#[trigger] level_at(tasks, i)) is Some && level_at(tasks, i)->0 > lvl
            &&& e2 < n ==> level_at(tasks, e2) is Some && level_at(tasks, e2)->0 <= lvl
            &&& moved_down(tasks, sel)->1 == sel + (e2 - e)
            &&& t2.len() == n
            &&& forall|i: int| 0 <= i < n ==> #[trigger] t2[i] == tasks[moved_from(sel, e, e2, i)]
        }),
{
    let n = tasks.len() as int;
    if sel >= n {
        assert(moved_down(tasks, sel) == MoveOutcome::Stays);
        assert(false);
    }
    let fe = family_end(tasks, sel);
    let la = level_at(tasks, sel);
    if fe is None || la is None {
        assert(moved_down(tasks, sel) == MoveOutcome::Stuck);
    }
    let e = fe->0;
    let lvl = la->0;
    crate::outline::lemma_family_end_bounds(tasks, sel);
    lemma_scan_family_facts(tasks, lvl, sel + 1);
    if e >= n {
        assert(moved_down(tasks, sel) == MoveOutcome::Stays);
    }
    if level_at(tasks, e) is None {
        assert(moved_down(tasks, sel) == MoveOutcome::Stuck);
    }
    if level_at(tasks, e)->0 < lvl {
        assert(moved_down(tasks, sel) == MoveOutcome::Stays);
    }
    if family_end(tasks, e) is None {
        assert(moved_down(tasks, sel) == MoveOutcome::Stuck);
    }
    let e2 = family_end(tasks, e)->0;
    crate::outline::lemma_family_end_bounds(tasks, e);
    lemma_scan_family_facts(tasks, lvl, e + 1);
    reveal(moved_above);
    assert(moved_down(tasks, sel)->0 == moved_above(tasks, sel, e, e2));
    assert forall|i: int| 0 <= i < n implies #[trigger] moved_down(tasks, sel)->0[i] == tasks[moved_from(sel, e, e2, i)] by {
        lemma_moved_index(tasks, sel, e, e2, i);
    }
    lemma_moved_index(tasks, sel, e, e2, 0);
}

/// Where the task at index `x` goes when the family `[sel, e)` moves above `target`.
pub open spec fn moved_to(target: int, sel: int, e: int, x: int) -> int {
    let m = e - sel;
    if x < target {
        x
    } else if x < sel {
        x + m
    } else if x < e {
        target + (x - sel)
    } else {
        x
    }
}

/// The list after moving the family `[sel, e)` above the task at `target`.
#[verifier::opaque]
pub open spec fn moved_above(tasks: Seq<TaskV>, target: int, sel: int, e: int) -> Seq<TaskV> {
    tasks.take(target) + tasks.subrange(sel, e) + tasks.subrange(target, sel) + tasks.skip(e)
}

/// What a move up that happened did: the family `[sel, e)` of level `lvl` went above the task at
/// `target`, every task between which is deeper.
proof fn lemma_moved_up_facts(tasks: Seq<TaskV>, sel: int)
    requires
        0 <= sel,
        moved_up(tasks, sel) is Moved,
    ensures
        0 < sel < tasks.len(),
        family_end(tasks, sel) is Some,
        level_at(tasks, sel) is Some,
        ({
            let e = family_end(tasks, sel)->0;
            let lvl = level_at(tasks, sel)->0;
            let target = moved_up(tasks, sel)->1;
            &&& sel < e <= tasks.len()
            &&& scan_up(tasks, lvl, sel - 1) == Some(target)
            &&& 0 <= target < sel
            &&& moved_up(tasks, sel)->0 == moved_above(tasks, target, sel, e)
            &&& forall|i: int| sel < i < e ==> (#[trigger] level_at(tasks, i)) is Some && level_at(tasks, i)->0 > lvl
            &&& e < tasks.len() ==> level_at(tasks, e) is Some && level_at(tasks, e)->0 <= lvl
            &&& forall|i: int| target < i < sel ==> (#[trigger] level_at(tasks, i)) is Some && level_at(tasks, i)->0 > lvl
            &&& level_at(tasks, target) is Some && level_at(tasks, target)->0 >= lvl
            &&& target > 0 ==> level_at(tasks, target)->0 <= lvl
        }),
{
    if sel == 0 || sel >= tasks.len() {
        assert(moved_up(tasks, sel) == MoveOutcome::Stays);
        assert(false);
    }
    assert(0 < sel < tasks.len());
    let fe = family_end(tasks, sel);
    let la = level_at(tasks, sel);
    if fe is None || la is None {
        assert(moved_up(tasks, sel) == MoveOutcome::Stuck);
    }
    let e = fe->0;
    let lvl = la->0;
    if scan_up(tasks, lvl, sel - 1) is None {
        assert(moved_up(tasks, sel) == MoveOutcome::Stuck);
    }
    crate::outline::lemma_family_end_bounds(tasks, sel);
    lemma_scan_family_facts(tasks, lvl, sel + 1);
    lemma_scan_up_facts(tasks, lvl, sel - 1);
    reveal(moved_above);
}

/// Where each task of the list after moving a family up comes from.
proof fn lemma_moved_index(tasks: Seq<TaskV>, target: int, sel: int, e: int, i: int)
    requires
        0 <= target < sel < e <= tasks.len(),
        0 <= i < tasks.len(),
    ensures
        moved_above(tasks, target, sel, e).len() == tasks.len(),
        moved_above(tasks, target, sel, e)[i] == tasks[moved_from(target, sel, e, i)],
{
    reveal(moved_above);
    let a = tasks.take(target);
    let b = tasks.subrange(sel, e);
    let c = tasks.subrange(target, sel);
    let d = tasks.skip(e);
    let ab = a + b;
    let abc = ab + c;
    let t2 = abc + d;
    assert(t2 == moved_above(tasks, target, sel, e));
    let m = e - sel;
    if i < target {
        assert(t2[i] == abc[i]);
        assert(abc[i] == ab[i]);
        assert(ab[i] == a[i]);
    } else if i < target + m {
        assert(t2[i] == abc[i]);
        assert(abc[i] == ab[i]);
        assert(ab[i] == b[i - target]);
    } else if i < e {
        assert(t2[i] == abc[i]);
        assert(abc[i] == c[i - target - m]);
    } else {
        assert(t2[i] == d[i - e]);
    }
}

/// Different places of the moved list come from different places of the list.
proof fn lemma_moved_from_injective(target: int, sel: int, e: int, n: int, a: int, b: int)
    requires
        0 <= target < sel < e <= n,
        0 <= a < n,
        0 <= b < n,
        a != b,
    ensures
        0 <= moved_from(target, sel, e, a) < n,
        moved_from(target, sel, e, a) != moved_from(target, sel, e, b),
{
}

/// The list after moving a family up holds the same tasks, with distinct ids.
proof fn lemma_moved_same(tasks: Seq<TaskV>, target: int, sel: int, e: int)
    requires
        ids_distinct(tasks),
        0 <= target < sel < e <= tasks.len(),
        moved_above(tasks, target, sel, e).len() == tasks.len(),
        forall|i: int| 0 <= i < tasks.len() ==> #[trigger] moved_above(tasks, target, sel, e)[i] == tasks[moved_from(target, sel, e, i)],
    ensures
        same_tasks(tasks, moved_above(tasks, target, sel, e), |x: int| moved_to(target, sel, e, x), |j: int| moved_from(target, sel, e, j)),
        ids_distinct(moved_above(tasks, target, sel, e)),
{
    let n = tasks.len() as int;
    let t2 = moved_above(tasks, target, sel, e);
    assert forall|x: int| 0 <= x < n implies 0 <= moved_to(target, sel, e, x) < n
        && t2[moved_to(target, sel, e, x)] == tasks[x] by {
        let j = moved_to(target, sel, e, x);
        assert(moved_from(target, sel, e, j) == x);
        assert(t2[j] == tasks[moved_from(target, sel, e, j)]);
    }
    assert forall|j: int| 0 <= j < n implies 0 <= moved_from(target, sel, e, j) < n
        && tasks[moved_from(target, sel, e, j)] == t2[j] by {
        lemma_moved_from_injective(target, sel, e, n, j, if j == 0 { 1 } else { 0 });
        assert(t2[j] == tasks[moved_from(target, sel, e, j)]);
    }
    assert forall|a: int, b: int| 0 <= a < b < n implies (#[trigger] t2[a]).id != (#[trigger] t2[b]).id by {
        let pa = moved_from(target, sel, e, a);
        let pb = moved_from(target, sel, e, b);
        lemma_moved_from_injective(target, sel, e, n, a, b);
        lemma_moved_from_injective(target, sel, e, n, b, a);
        assert(t2[a] == tasks[pa]);
        assert(t2[b] == tasks[pb]);
        if pa < pb {
            assert(tasks[pa].id != tasks[pb].id);
        } else {
            assert(tasks[pb].id != tasks[pa].id);
        }
    }
}

/// The list after moving a family up holds the same tasks, each with its level, at the places
/// that [`moved_from`] gives.
proof fn lemma_moved_above(tasks: Seq<TaskV>, target: int, sel: int, e: int)
    requires
        ids_distinct(tasks),
        0 <= target < sel < e <= tasks.len(),
    ensures
        ({
            let t2 = moved_above(tasks, target, sel, e);
            &&& t2.len() == tasks.len()
            &&& forall|i: int| 0 <= i < tasks.len() ==> #[trigger] t2[i] == tasks[moved_from(target, sel, e, i)]
            &&& forall|i: int| 0 <= i < tasks.len() ==> #[trigger] level_at(t2, i) == level_at(tasks, moved_from(target, sel, e, i))
        }),
{
    let n = tasks.len() as int;
    let t2 = moved_above(tasks, target, sel, e);
    lemma_moved_index(tasks, target, sel, e, 0);
    assert forall|i: int| 0 <= i < n implies #[trigger] t2[i] == tasks[moved_from(target, sel, e, i)] by {
        lemma_moved_index(tasks, target, sel, e, i);
    }
    lemma_moved_same(tasks, target, sel, e);
    assert forall|i: int| 0 <= i < n implies #[trigger] level_at(t2, i) == level_at(tasks, moved_from(target, sel, e, i)) by {
        lemma_level_same(tasks, t2, |x: int| moved_to(target, sel, e, x), |j: int| moved_from(target, sel, e, j), t2[i]);
        assert(t2[i] == tasks[moved_from(target, sel, e, i)]);
    }
}

/// Moving a task down right after moving it up gives back the list as it was, with the same
/// task selected, where the task moved above a task of its own level.  (Where it moved to the
/// top above a deeper task, that task would count as part of its family on the way down.)
#[verifier::rlimit(40)]
pub proof fn law_down_undoes_up(tasks: Seq<TaskV>, sel: int)
    requires
        ids_distinct(tasks),
        0 <= sel,
        moved_up(tasks, sel) is Moved,
        level_at(tasks, moved_up(tasks, sel)->1) == level_at(tasks, sel),
    ensures
        moved_down(moved_up(tasks, sel)->0, moved_up(tasks, sel)->1) == MoveOutcome::Moved(tasks, sel),
{
    lemma_moved_up_facts(tasks, sel);
    let n = tasks.len() as int;
    let e = family_end(tasks, sel)->0;
    let lvl = level_at(tasks, sel)->0;
    let target = moved_up(tasks, sel)->1;
    let t2 = moved_above(tasks, target, sel, e);
    lemma_moved_above(tasks, target, sel, e);
    let m = e - sel;
    let e1 = target + m;
    // The moved family ends where the task it moved above begins.
    assert(moved_from(target, sel, e, target) == sel);
    assert(level_at(t2, target) == Some(lvl));
    assert forall|i: int| target + 1 <= i < e1 implies (#[trigger] level_at(t2, i)) is Some && level_at(t2, i)->0 > lvl by {
        assert(level_at(t2, i) == level_at(tasks, moved_from(target, sel, e, i)));
    }
    assert(moved_from(target, sel, e, e1) == target);
    assert(level_at(t2, e1) == Some(lvl));
    lemma_scan_family_is(t2, lvl, target + 1, e1);
    assert(family_end(t2, target) == Some(e1));
    // The family it moved above ends where the moved family ended.
    assert forall|i: int| e1 + 1 <= i < e implies (#[trigger] level_at(t2, i)) is Some && level_at(t2, i)->0 > lvl by {
        assert(level_at(t2, i) == level_at(tasks, moved_from(target, sel, e, i)));
    }
    if e < n {
        assert(moved_from(target, sel, e, e) == e);
        assert(level_at(t2, e) == level_at(tasks, e));
    }
    lemma_scan_family_is(t2, lvl, e1 + 1, e);
    assert(family_end(t2, e1) == Some(e));
    let back = t2.take(target) + t2.subrange(e1, e) + t2.subrange(target, e1) + t2.skip(e);
    assert(moved_down(t2, target) == MoveOutcome::Moved(back, e - (e1 - target)));
    assert(back =~= tasks) by {
        assert forall|i: int| 0 <= i < n implies back[i] == tasks[i] by {
            if i < target {
                assert(back[i] == t2[i]);
            } else if i < target + (e - e1) {
                assert(back[i] == t2[e1 + (i - target)]);
                assert(moved_from(target, sel, e, e1 + (i - target)) == i);
            } else if i < e {
                assert(back[i] == t2[target + (i - target - (e - e1))]);
                assert(moved_from(target, sel, e, target + (i - target - (e - e1))) == i);
            } else {
                assert(back[i] == t2[i]);
            }
        }
    }
}

} // verus!
