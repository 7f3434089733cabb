//! The outline of a project's tasks: families (a task with the tasks indented under it),
//! moving families, indenting, and the outline numbers shown for tasks.

use vstd::prelude::*;
use crate::model::{Task, TaskV};
use crate::hierarchy::{level, task_level};
use crate::lookup::{first_with_id, lemma_first_with_id, find_first};

verus! {

/// Level of the task at index `i`.
pub open spec fn level_at(tasks: Seq<TaskV>, i: int) -> Option<nat> {
    level(tasks, tasks[i])
}

/// End of the run of tasks from `e` on that are deeper than `lvl`; `None` when a level on
/// the way has no end (a cycle of parents).
pub open spec fn scan_family(tasks: Seq<TaskV>, lvl: nat, e: int) -> Option<int>
    decreases tasks.len() - e,
{
    if e < 0 || e >= tasks.len() {
        Some(tasks.len() as int)
    } else {
        match level_at(tasks, e) {
            None => None,
            Some(l) => if l > lvl {
                scan_family(tasks, lvl, e + 1)
            } else {
                Some(e)
            },
        }
    }
}

/// End (exclusive) of the family that starts at `start`: the task and the tasks after it
/// that are deeper than it.
pub open spec fn family_end(tasks: Seq<TaskV>, start: int) -> Option<int> {
    if start >= tasks.len() {
        Some(start)
    } else {
        match level_at(tasks, start) {
            None => None,
            Some(l) => scan_family(tasks, l, start + 1),
        }
    }
}

proof fn lemma_scan_family_bounds(tasks: Seq<TaskV>, lvl: nat, e: int)
    requires
        0 <= e,
    ensures
        scan_family(tasks, lvl, e) matches Some(x) ==> (e <= x <= tasks.len() || (e > tasks.len() && x == tasks.len())),
    decreases tasks.len() - e,
{
    if e < tasks.len() {
        match level_at(tasks, e) {
            Some(l) => if l > lvl {
                lemma_scan_family_bounds(tasks, lvl, e + 1);
            },
            None => {},
        }
    }
}

/// The family of a task lies between it and the end of the list.
pub proof fn lemma_family_end_bounds(tasks: Seq<TaskV>, start: int)
    requires
        0 <= start < tasks.len(),
    ensures
        family_end(tasks, start) matches Some(x) ==> start < x <= tasks.len(),
{
    match level_at(tasks, start) {
        Some(l) => lemma_scan_family_bounds(tasks, l, start + 1),
        None => {},
    }
}

/// Level of the task at index `i`, or `None` on a cycle of parents.
pub fn level_of(tasks: &Vec<Task>, i: usize) -> (r: Option<u32>)
    requires
        tasks@.len() < u32::MAX - 2,
        i < tasks@.len(),
    ensures
        match level_at(tasks.deep_view(), i as int) {
            Some(d) => r == Some(d as u32) && d <= tasks@.len() + 2,
            None => r is None,
        },
{
    proof {
        assert(tasks.deep_view()[i as int] == tasks@[i as int].deep_view());
    }
    task_level(tasks, &tasks[i])
}

/// The family range of the task at `start`, or `None` on a cycle of parents.
pub fn family_range(tasks: &Vec<Task>, start: usize) -> (r: Option<usize>)
    requires
        tasks@.len() < u32::MAX - 2,
    ensures
        match family_end(tasks.deep_view(), start as int) {
            Some(x) => r == Some(x as usize),
            None => r is None,
        },
{
    let ghost tv = tasks.deep_view();
    let n = tasks.len();
    if start >= n {
        return Some(start);
    }
    let lvl = match level_of(tasks, start) {
        Some(l) => l,
        None => {
            return None;
        },
    };
    let mut e = start + 1;
    while e < n
        invariant
            tv == tasks.deep_view(),
            n == tasks@.len(),
            tasks@.len() < u32::MAX - 2,
            start < e <= n,
            family_end(tv, start as int) == scan_family(tv, lvl as nat, e as int),
            level_at(tv, start as int) == Some(lvl as nat),
        decreases n - e,
    {
        match level_of(tasks, e) {
            None => {
                return None;
            },
            Some(l) => {
                if l > lvl {
                    e = e + 1;
                } else {
                    return Some(e);
                }
            },
        }
    }
    Some(e)
}

/// What moving a task can do.
pub enum MoveOutcome {
    /// A level the move needs has no end (a cycle of parents): the move never finishes.
    Stuck,
    /// The task cannot move that way.
    Stays,
    /// The reordered tasks and the new index of the moved task.
    Moved(Seq<TaskV>, int),
}

/// Index above the family start where the family goes: back over deeper tasks, stopping at 0.
pub open spec fn scan_up(tasks: Seq<TaskV>, lvl: nat, t: int) -> Option<int>
    decreases t,
{
    if t > 0 {
        match level_at(tasks, t) {
            None => None,
            Some(l) => if l > lvl {
                scan_up(tasks, lvl, t - 1)
            } else {
                Some(t)
            },
        }
    } else {
        Some(t)
    }
}

/// Moving the family of the task at `sel` above its previous sibling.
pub open spec fn moved_up(tasks: Seq<TaskV>, sel: int) -> MoveOutcome {
    if sel == 0 || sel >= tasks.len() {
        MoveOutcome::Stays
    } else {
        match (family_end(tasks, sel), level_at(tasks, sel)) {
            (Some(e), Some(lvl)) => match scan_up(tasks, lvl, sel - 1) {
                Some(target) => match level_at(tasks, target) {
                    Some(tl) => if tl < lvl {
                        MoveOutcome::Stays
                    } else {
                        MoveOutcome::Moved(
                            tasks.take(target) + tasks.subrange(sel, e) + tasks.subrange(target, sel)
                                + tasks.skip(e),
                            target,
                        )
                    },
                    None => MoveOutcome::Stuck,
                },
                None => MoveOutcome::Stuck,
            },
            _ => MoveOutcome::Stuck,
        }
    }
}

/// Moving the family of the task at `sel` below the family that follows it.
pub open spec fn moved_down(tasks: Seq<TaskV>, sel: int) -> MoveOutcome {
    if sel >= tasks.len() {
        MoveOutcome::Stays
    } else {
        match (family_end(tasks, sel), level_at(tasks, sel)) {
            (Some(e), Some(lvl)) => if e >= tasks.len() {
                MoveOutcome::Stays
            } else {
                match level_at(tasks, e) {
                    None => MoveOutcome::Stuck,
                    Some(tl) => if tl < lvl {
                        MoveOutcome::Stays
                    } else {
                        match family_end(tasks, e) {
                            None => MoveOutcome::Stuck,
                            Some(e2) => MoveOutcome::Moved(
                                tasks.take(sel) + tasks.subrange(e, e2) + tasks.subrange(sel, e)
                                    + tasks.skip(e2),
                                e2 - (e - sel),
                            ),
                        }
                    },
                }
            },
            _ => MoveOutcome::Stuck,
        }
    }
}

/// Appends copies of `src[from..to]`.
pub(crate) fn push_range(dst: &mut Vec<Task>, src: &Vec<Task>, from: usize, to: usize)
    requires
        from <= to <= src@.len(),
    ensures
        final(dst).deep_view() == old(dst).deep_view() + src.deep_view().subrange(from as int, to as int),
{
    let ghost d0 = dst.deep_view();
    let ghost n0 = dst@.len();
    let mut i = from;
    while i < to
        invariant
            from <= i <= to <= src@.len(),
            dst@.len() == n0 + (i - from),
            d0.len() == n0,
            forall|k: int| 0 <= k < n0 ==> #[trigger] dst@[k].deep_view() == d0[k],
            forall|k: int| n0 <= k < dst@.len() ==> #[trigger] dst@[k].deep_view() == src@[k - n0 + from].deep_view(),
        decreases to - i,
    {
        dst.push(src[i].copy());
        i = i + 1;
    }
    assert(dst.deep_view() =~= d0 + src.deep_view().subrange(from as int, to as int));
}

/// The executable outcome of a move.
pub enum Move {
    Stuck,
    Stays,
    Moved(Vec<Task>, usize),
}

/// The outcome of a move matches its description.
pub open spec fn move_matches(m: Move, o: MoveOutcome) -> bool {
    match (m, o) {
        (Move::Stuck, MoveOutcome::Stuck) => true,
        (Move::Stays, MoveOutcome::Stays) => true,
        (Move::Moved(v, i), MoveOutcome::Moved(s, j)) => v.deep_view() == s && i == j,
        _ => false,
    }
}

/// Moves the family of the task at `sel` above its previous sibling.
pub fn move_up(tasks: &Vec<Task>, sel: usize) -> (r: Move)
    requires
        tasks@.len() < u32::MAX - 2,
    ensures
        move_matches(r, moved_up(tasks.deep_view(), sel as int)),
{
    let ghost tv = tasks.deep_view();
    let n = tasks.len();
    if sel == 0 || sel >= n {
        return Move::Stays;
    }
    let e = match family_range(tasks, sel) {
        Some(e) => e,
        None => {
            return Move::Stuck;
        },
    };
    proof {
        lemma_family_end_bounds(tv, sel as int);
    }
    let lvl = match level_of(tasks, sel) {
        Some(l) => l,
        None => {
            return Move::Stuck;
        },
    };
    let mut target = sel - 1;
    loop
        invariant
            tv == tasks.deep_view(),
            n == tasks@.len(),
            tasks@.len() < u32::MAX - 2,
            target < sel < n,
            0 < sel,
            family_end(tv, sel as int) == Some(e as int),
            level_at(tv, sel as int) == Some(lvl as nat),
            scan_up(tv, lvl as nat, (sel - 1) as int) == scan_up(tv, lvl as nat, target as int),
        ensures
            scan_up(tv, lvl as nat, (sel - 1) as int) == Some(target as int),
        decreases target,
    {
        if target == 0 {
            break;
        }
        match level_of(tasks, target) {
            None => {
                return Move::Stuck;
            },
            Some(l) => {
                if l > lvl {
                    target = target - 1;
                } else {
                    break;
                }
            },
        }
    }
    proof {
        assert(scan_up(tv, lvl as nat, (sel - 1) as int) == Some(target as int));
    }
    match level_of(tasks, target) {
        None => Move::Stuck,
        Some(tl) => {
            if tl < lvl {
                Move::Stays
            } else {
                let mut out: Vec<Task> = Vec::new();
                push_range(&mut out, tasks, 0, target);
                push_range(&mut out, tasks, sel, e);
                push_range(&mut out, tasks, target, sel);
                push_range(&mut out, tasks, e, n);
                proof {
                    assert(tv.subrange(0, target as int) =~= tv.take(target as int));
                    assert(tv.subrange(e as int, n as int) =~= tv.skip(e as int));
                }
                Move::Moved(out, target)
            }
        },
    }
}

/// Moves the family of the task at `sel` below the family that follows it.
pub fn move_down(tasks: &Vec<Task>, sel: usize) -> (r: Move)
    requires
        tasks@.len() < u32::MAX - 2,
    ensures
        move_matches(r, moved_down(tasks.deep_view(), sel as int)),
{
    let ghost tv = tasks.deep_view();
    let n = tasks.len();
    if sel >= n {
        return Move::Stays;
    }
    let e = match family_range(tasks, sel) {
        Some(e) => e,
        None => {
            return Move::Stuck;
        },
    };
    proof {
        lemma_family_end_bounds(tv, sel as int);
    }
    let lvl = match level_of(tasks, sel) {
        Some(l) => l,
        None => {
            return Move::Stuck;
        },
    };
    if e >= n {
        return Move::Stays;
    }
    match level_of(tasks, e) {
        None => Move::Stuck,
        Some(tl) => {
            if tl < lvl {
                return Move::Stays;
            }
            let e2 = match family_range(tasks, e) {
                Some(x) => x,
                None => {
                    return Move::Stuck;
                },
            };
            proof {
                lemma_family_end_bounds(tv, e as int);
            }
            let mut out: Vec<Task> = Vec::new();
            push_range(&mut out, tasks, 0, sel);
            push_range(&mut out, tasks, e, e2);
            push_range(&mut out, tasks, sel, e);
            push_range(&mut out, tasks, e2, n);
            proof {
                assert(tv.subrange(0, sel as int) =~= tv.take(sel as int));
                assert(tv.subrange(e2 as int, n as int) =~= tv.skip(e2 as int));
            }
            Move::Moved(out, e2 - (e - sel))
        },
    }
}

/// A move only reorders the tasks: none is lost and none is added.
pub proof fn law_move_keeps_tasks(tasks: Seq<TaskV>, sel: int)
    requires
        0 <= sel,
    ensures
        moved_up(tasks, sel) matches MoveOutcome::Moved(s, _) ==> s.to_multiset() == tasks.to_multiset(),
        moved_down(tasks, sel) matches MoveOutcome::Moved(s, _) ==> s.to_multiset() == tasks.to_multiset(),
{
    if 0 < sel < tasks.len() {
        lemma_family_end_bounds(tasks, sel);
        match (family_end(tasks, sel), level_at(tasks, sel)) {
            (Some(e), Some(lvl)) => {
                lemma_scan_up_bounds(tasks, lvl, sel - 1);
                match scan_up(tasks, lvl, sel - 1) {
                    Some(target) => {
                        lemma_four_pieces(tasks, target, sel, e);
                    },
                    None => {},
                }
            },
            _ => {},
        }
    }
    if 0 <= sel < tasks.len() {
        lemma_family_end_bounds(tasks, sel);
        match (family_end(tasks, sel), level_at(tasks, sel)) {
            (Some(e), Some(lvl)) => {
                if e < tasks.len() {
                    lemma_family_end_bounds(tasks, e);
                    match family_end(tasks, e) {
                        Some(e2) => {
                            lemma_four_pieces(tasks, sel, e, e2);
                        },
                        None => {},
                    }
                }
            },
            _ => {},
        }
    }
}

proof fn lemma_scan_up_bounds(tasks: Seq<TaskV>, lvl: nat, t: int)
    requires
        t >= 0,
    ensures
        scan_up(tasks, lvl, t) matches Some(x) ==> 0 <= x <= t,
    decreases t,
{
    if t > 0 {
        match level_at(tasks, t) {
            Some(l) => if l > lvl {
                lemma_scan_up_bounds(tasks, lvl, t - 1);
            },
            None => {},
        }
    }
}

/// Exchanging two adjacent pieces of a list keeps its elements.
proof fn lemma_four_pieces(s: Seq<TaskV>, a: int, b: int, c: int)
    requires
        0 <= a <= b <= c <= s.len(),
    ensures
        (s.take(a) + s.subrange(b, c) + s.subrange(a, b) + s.skip(c)).to_multiset() == s.to_multiset(),
{
    let p1 = s.take(a);
    let p2 = s.subrange(a, b);
    let p3 = s.subrange(b, c);
    let p4 = s.skip(c);
    assert(s =~= p1 + p2 + p3 + p4);
    vstd::seq_lib::lemma_multiset_commutative(p1, p3);
    vstd::seq_lib::lemma_multiset_commutative(p1 + p3, p2);
    vstd::seq_lib::lemma_multiset_commutative(p1 + p3 + p2, p4);
    vstd::seq_lib::lemma_multiset_commutative(p1, p2);
    vstd::seq_lib::lemma_multiset_commutative(p1 + p2, p3);
    vstd::seq_lib::lemma_multiset_commutative(p1 + p2 + p3, p4);
    vstd::seq_lib::lemma_multiset_commutative(p2, p3);
    assert(p1.to_multiset().add(p3.to_multiset()).add(p2.to_multiset()) =~= p1.to_multiset().add(p2.to_multiset()).add(p3.to_multiset()));
}


/// Whether walking up the parents from the task found for `cur` meets the id `target`,
/// with at most `fuel` lookups; `None` when the fuel runs out first.
pub open spec fn reaches(tasks: Seq<TaskV>, cur: u32, target: u32, fuel: nat) -> Option<bool>
    decreases fuel,
{
    if cur == target {
        Some(true)
    } else if fuel == 0 {
        None
    } else {
        match first_with_id(tasks, cur) {
            None => Some(false),
            Some(i) => match tasks[i].parent_id {
                None => Some(false),
                Some(p) => reaches(tasks, p, target, (fuel - 1) as nat),
            },
        }
    }
}

/// What indenting a task can do.
pub enum IndentOutcome {
    /// The walk up the parents never ends (a cycle of parents).
    Stuck,
    /// The task keeps its parent.
    Stays,
    /// The tasks with the task made a child of the task above it.
    Indented(Seq<TaskV>),
}

/// Indenting the task at `sel` (with `0 < sel < tasks.len()`): it becomes a child of the
/// task above it, unless that would make it its own ancestor.
pub open spec fn indented(tasks: Seq<TaskV>, sel: int) -> IndentOutcome {
    let tid = tasks[sel].id;
    let np = tasks[sel - 1].id;
    if tid == np {
        IndentOutcome::Stays
    } else {
        match reaches(tasks, np, tid, (tasks.len() + 1) as nat) {
            None => IndentOutcome::Stuck,
            Some(true) => IndentOutcome::Stays,
            Some(false) => IndentOutcome::Indented(
                tasks.update(sel, TaskV { parent_id: Some(np), ..tasks[sel] }),
            ),
        }
    }
}

/// The parent of the task found for `p`.
pub open spec fn grandparent(tasks: Seq<TaskV>, p: u32) -> Option<u32> {
    match first_with_id(tasks, p) {
        Some(i) => tasks[i].parent_id,
        None => None,
    }
}

/// Unindenting the task at `sel`: it takes its parent's parent as parent.
pub open spec fn unindented(tasks: Seq<TaskV>, sel: int) -> Option<Seq<TaskV>> {
    if 0 <= sel < tasks.len() {
        match tasks[sel].parent_id {
            Some(p) => Some(tasks.update(sel, TaskV { parent_id: grandparent(tasks, p), ..tasks[sel] })),
            None => None,
        }
    } else {
        None
    }
}

fn walk_reaches(tasks: &Vec<Task>, cur: u32, target: u32, fuel: usize) -> (r: Option<bool>)
    ensures
        match reaches(tasks.deep_view(), cur, target, fuel as nat) {
            Some(b) => r == Some(b),
            None => r is None,
        },
    decreases fuel,
{
    if cur == target {
        return Some(true);
    }
    if fuel == 0 {
        return None;
    }
    proof {
        lemma_first_with_id(tasks.deep_view(), cur);
    }
    match find_first(tasks, cur) {
        None => Some(false),
        Some(i) => {
            proof {
                assert(tasks.deep_view()[i as int].parent_id == tasks@[i as int].parent_id);
            }
            match tasks[i].parent_id {
                None => Some(false),
                Some(p) => walk_reaches(tasks, p, target, fuel - 1),
            }
        },
    }
}

/// The executable outcome of indenting.
pub enum Indent {
    Stuck,
    Stays,
    Indented(Vec<Task>),
}

/// Indents the task at `sel`.
pub fn indent(tasks: &Vec<Task>, sel: usize) -> (r: Indent)
    requires
        0 < sel < tasks@.len(),
        tasks@.len() < u32::MAX - 2,
    ensures
        match (r, indented(tasks.deep_view(), sel as int)) {
            (Indent::Stuck, IndentOutcome::Stuck) => true,
            (Indent::Stays, IndentOutcome::Stays) => true,
            (Indent::Indented(v), IndentOutcome::Indented(s)) => v.deep_view() == s,
            _ => false,
        },
{
    let ghost tv = tasks.deep_view();
    let tid = tasks[sel].id;
    let np = tasks[sel - 1].id;
    proof {
        assert(tv[sel as int].id == tid);
        assert(tv[sel - 1].id == np);
    }
    if tid == np {
        return Indent::Stays;
    }
    match walk_reaches(tasks, np, tid, tasks.len() + 1) {
        None => Indent::Stuck,
        Some(true) => Indent::Stays,
        Some(false) => {
            let mut out: Vec<Task> = Vec::new();
            push_range(&mut out, tasks, 0, tasks.len());
            let mut t = tasks[sel].copy();
            t.parent_id = Some(np);
            out.set(sel, t);
            proof {
                assert(tv.subrange(0, tv.len() as int) =~= tv);
                assert(out.deep_view() =~= tv.update(sel as int, TaskV { parent_id: Some(np), ..tv[sel as int] }));
            }
            Indent::Indented(out)
        },
    }
}

/// Unindents the task at `sel`, if it has a parent.
pub fn unindent(tasks: &Vec<Task>, sel: usize) -> (r: Option<Vec<Task>>)
    ensures
        match unindented(tasks.deep_view(), sel as int) {
            Some(s) => r matches Some(v) && v.deep_view() == s,
            None => r is None,
        },
{
    let ghost tv = tasks.deep_view();
    if sel >= tasks.len() {
        return None;
    }
    match tasks[sel].parent_id {
        None => None,
        Some(p) => {
            proof {
                lemma_first_with_id(tv, p);
            }
            let gp = match find_first(tasks, p) {
                Some(i) => tasks[i].parent_id,
                None => None,
            };
            let mut out: Vec<Task> = Vec::new();
            push_range(&mut out, tasks, 0, tasks.len());
            let mut t = tasks[sel].copy();
            t.parent_id = gp;
            out.set(sel, t);
            proof {
                assert(tv.subrange(0, tv.len() as int) =~= tv);
                assert(out.deep_view() =~= tv.update(sel as int, TaskV { parent_id: grandparent(tv, p), ..tv[sel as int] }));
            }
            Some(out)
        },
    }
}

/// Unindenting a task just indented under its previous sibling gives back the tasks as
/// they were, when the task above is the one its id finds.
pub proof fn law_indent_then_unindent(tasks: Seq<TaskV>, sel: int)
    requires
        0 < sel < tasks.len(),
        tasks[sel].parent_id == tasks[sel - 1].parent_id,
        first_with_id(tasks, tasks[sel - 1].id) == Some(sel - 1),
    ensures
        indented(tasks, sel) matches IndentOutcome::Indented(s) ==> unindented(s, sel) == Some(tasks),
{
    match indented(tasks, sel) {
        IndentOutcome::Indented(s) => {
            crate::lookup::lemma_lookup_same_ids(tasks, s, tasks[sel - 1].id);
            assert(s[sel - 1] == tasks[sel - 1]);
            assert(unindented(s, sel) == Some(s.update(sel, TaskV { parent_id: tasks[sel - 1].parent_id, ..s[sel] })));
            assert(s.update(sel, TaskV { parent_id: tasks[sel - 1].parent_id, ..s[sel] }) =~= tasks);
        },
        _ => {},
    }
}

} // verus!
