//! Scheduling: dates of tasks from their dependencies, durations and sub-tasks.
//!
//! Tasks are visited in list order, repeatedly (at most 100 rounds).  A task that no task
//! names as its parent is dated once each of its dependencies is dated or names no task: with
//! dependencies it starts the day after the latest end among them; without, on its manual
//! start date, else on the project's start; it ends `max(duration, 1) - 1` days after its
//! start.  A task that is some task's parent is dated once all its children are: it spans
//! them, from the earliest start to the latest end among them.  So a task that depends on a
//! parent waits until the parent spans its children, and starts after it.  After the rounds,
//! each parent still undated (one of its children could not be dated), deepest first, spans
//! those of its children that are dated.

use vstd::prelude::*;
use crate::date::{Date, valid_day};
use crate::model::{Task, TaskV};
use crate::lookup::{last_with_id, lemma_last_with_id, find_last};
use crate::hierarchy::{depth, task_depth};
use crate::chart::{has_children, is_parent};

verus! {

/// Computed (start, end) of the task at each index, where computed.
pub type Slots = Seq<Option<(int, int)>>;

/// State of a round: ids kept for the next round, dates so far, and whether every
/// date computed so far lies in the supported range.
pub type RoundState = (Seq<u32>, Slots, bool);

/// The number of days a task covers.
pub open spec fn span(duration: i64) -> int {
    if duration < 1 {
        1
    } else {
        duration as int
    }
}

/// A dependency is ready when it is dated, or names no task.
pub open spec fn dep_ready(tasks: Seq<TaskV>, slots: Slots, d: u32) -> bool {
    match last_with_id(tasks, d) {
        None => true,
        Some(j) => slots[j] is Some,
    }
}

/// All dependencies are ready.
pub open spec fn deps_ready(tasks: Seq<TaskV>, slots: Slots, deps: Seq<u32>) -> bool {
    forall|k: int| 0 <= k < deps.len() ==> dep_ready(tasks, slots, #[trigger] deps[k])
}

/// The end of a dated dependency.
pub open spec fn dep_end(tasks: Seq<TaskV>, slots: Slots, d: u32) -> Option<int> {
    match last_with_id(tasks, d) {
        None => None,
        Some(j) => match slots[j] {
            Some(p) => Some(p.1),
            None => None,
        },
    }
}

/// The latest end among the dated dependencies.
pub open spec fn latest_end(tasks: Seq<TaskV>, slots: Slots, deps: Seq<u32>) -> Option<int>
    decreases deps.len(),
{
    if deps.len() == 0 {
        None
    } else {
        let rest = latest_end(tasks, slots, deps.drop_last());
        match dep_end(tasks, slots, deps.last()) {
            Some(e) => match rest {
                Some(m) => Some(if e > m { e } else { m }),
                None => Some(e),
            },
            None => rest,
        }
    }
}

/// Start of a task whose dependencies are ready.
pub open spec fn planned_start(t: TaskV, tasks: Seq<TaskV>, slots: Slots, pstart: int) -> int {
    if t.dependencies.len() > 0 {
        match latest_end(tasks, slots, t.dependencies) {
            Some(m) => m + 1,
            None => pstart,
        }
    } else {
        match t.manual_start {
            Some(m) => m,
            None => pstart,
        }
    }
}

/// End of a task that starts on `start`.
pub open spec fn planned_end(t: TaskV, start: int) -> int {
    start + span(t.duration) - 1
}

/// The dates of the task at index `c`, as the last task with its id holds them.
pub open spec fn child_slot(tasks: Seq<TaskV>, slots: Slots, c: int) -> Option<(int, int)> {
    match last_with_id(tasks, tasks[c].id) {
        Some(j) => slots[j],
        None => None,
    }
}

/// Every task that names `p` as its parent is dated.
pub open spec fn children_dated(tasks: Seq<TaskV>, slots: Slots, p: u32) -> bool {
    forall|c: int| 0 <= c < tasks.len() && (#[trigger] tasks[c]).parent_id == Some(p)
        ==> child_slot(tasks, slots, c) is Some
}

/// The earliest start and the latest end among the dated children of `p` among the first
/// `k` tasks.
pub open spec fn children_span(tasks: Seq<TaskV>, slots: Slots, p: u32, k: int) -> Option<(int, int)>
    decreases k,
{
    if k <= 0 {
        None
    } else {
        let r = children_span(tasks, slots, p, k - 1);
        if tasks[k - 1].parent_id == Some(p) {
            match child_slot(tasks, slots, k - 1) {
                Some(d) => match r {
                    Some(m) => Some((if d.0 < m.0 { d.0 } else { m.0 }, if d.1 > m.1 { d.1 } else { m.1 })),
                    None => Some(d),
                },
                None => r,
            }
        } else {
            r
        }
    }
}

/// Visiting one id in a round.
pub open spec fn round_step(tasks: Seq<TaskV>, pstart: int, st: RoundState, id: u32) -> RoundState {
    match last_with_id(tasks, id) {
        None => (st.0.push(id), st.1, st.2),
        Some(j) => {
            let t = tasks[j];
            if has_children(tasks, t.id) {
                if children_dated(tasks, st.1, t.id) {
                    match children_span(tasks, st.1, t.id, tasks.len() as int) {
                        Some(p) => (st.0, st.1.update(j, Some(p)), st.2 && valid_day(p.0) && valid_day(p.1)),
                        None => (st.0.push(id), st.1, st.2),
                    }
                } else {
                    (st.0.push(id), st.1, st.2)
                }
            } else if deps_ready(tasks, st.1, t.dependencies) {
                let s = planned_start(t, tasks, st.1, pstart);
                let e = planned_end(t, s);
                (st.0, st.1.update(j, Some((s, e))), st.2 && valid_day(s) && valid_day(e))
            } else {
                (st.0.push(id), st.1, st.2)
            }
        },
    }
}

/// Visiting the ids of `pending` in order, from state `st`.
pub open spec fn run_round(tasks: Seq<TaskV>, pstart: int, st: RoundState, pending: Seq<u32>) -> RoundState
    decreases pending.len(),
{
    if pending.len() == 0 {
        st
    } else {
        round_step(tasks, pstart, run_round(tasks, pstart, st, pending.drop_last()), pending.last())
    }
}

/// Rounds until nothing is pending or `n` rounds are done.
pub open spec fn run_rounds(
    tasks: Seq<TaskV>,
    pstart: int,
    pending: Seq<u32>,
    slots: Slots,
    ok: bool,
    n: nat,
) -> RoundState
    decreases n,
{
    if n == 0 || pending.len() == 0 {
        (pending, slots, ok)
    } else {
        let st = run_round(tasks, pstart, (Seq::empty(), slots, ok), pending);
        run_rounds(tasks, pstart, st.0, st.1, st.2, (n - 1) as nat)
    }
}

/// The ids of the tasks, in order.
pub open spec fn ids_of(tasks: Seq<TaskV>) -> Seq<u32> {
    Seq::new(tasks.len(), |i: int| tasks[i].id)
}

/// Outcome of the first pass: dates by index, and whether all of them are in range.
pub open spec fn first_pass(tasks: Seq<TaskV>, pstart: int) -> (Slots, bool) {
    let r = run_rounds(
        tasks,
        pstart,
        ids_of(tasks),
        Seq::new(tasks.len(), |i: int| None),
        true,
        100,
    );
    (r.1, r.2)
}

proof fn lemma_round_not_ok(tasks: Seq<TaskV>, pstart: int, st: RoundState, pending: Seq<u32>)
    requires
        !st.2,
    ensures
        !run_round(tasks, pstart, st, pending).2,
    decreases pending.len(),
{
    if pending.len() > 0 {
        lemma_round_not_ok(tasks, pstart, st, pending.drop_last());
    }
}

proof fn lemma_round_len(tasks: Seq<TaskV>, pstart: int, st: RoundState, pending: Seq<u32>)
    requires
        st.1.len() == tasks.len(),
    ensures
        run_round(tasks, pstart, st, pending).1.len() == tasks.len(),
    decreases pending.len(),
{
    if pending.len() > 0 {
        lemma_round_len(tasks, pstart, st, pending.drop_last());
        lemma_last_with_id(tasks, pending.last());
    }
}

proof fn lemma_round_append(
    tasks: Seq<TaskV>,
    pstart: int,
    st: RoundState,
    a: Seq<u32>,
    b: Seq<u32>,
)
    ensures
        run_round(tasks, pstart, st, a + b) == run_round(
            tasks,
            pstart,
            run_round(tasks, pstart, st, a),
            b,
        ),
    decreases b.len(),
{
    if b.len() == 0 {
        assert(a + b =~= a);
    } else {
        assert((a + b).drop_last() =~= a + b.drop_last());
        lemma_round_append(tasks, pstart, st, a, b.drop_last());
    }
}

proof fn lemma_rounds_not_ok(
    tasks: Seq<TaskV>,
    pstart: int,
    pending: Seq<u32>,
    slots: Slots,
    n: nat,
)
    ensures
        !run_rounds(tasks, pstart, pending, slots, false, n).2,
    decreases n,
{
    if n > 0 && pending.len() > 0 {
        lemma_round_not_ok(tasks, pstart, (Seq::empty(), slots, false), pending);
        let st = run_round(tasks, pstart, (Seq::empty(), slots, false), pending);
        lemma_rounds_not_ok(tasks, pstart, st.0, st.1, (n - 1) as nat);
    }
}

/// The view of computed dates.
pub open spec fn slots_view(v: Seq<Option<(Date, Date)>>) -> Slots {
    Seq::new(
        v.len(),
        |i: int|
            match v[i] {
                Some(p) => Some((p.0@, p.1@)),
                None => None,
            },
    )
}

/// The day numbers of an optional pair of dates.
pub open spec fn pair_view(p: Option<(Date, Date)>) -> Option<(int, int)> {
    match p {
        Some(d) => Some((d.0@, d.1@)),
        None => None,
    }
}

/// Whether dependency `d` is ready.
fn dep_is_ready(tasks: &Vec<Task>, slots: &Vec<Option<(Date, Date)>>, d: u32) -> (r: bool)
    requires
        slots@.len() == tasks@.len(),
    ensures
        r == dep_ready(tasks.deep_view(), slots_view(slots@), d),
{
    proof {
        lemma_last_with_id(tasks.deep_view(), d);
    }
    match find_last(tasks, d) {
        None => true,
        Some(j) => slots[j].is_some(),
    }
}

/// The end of dependency `d`, if dated.
fn dep_end_of(tasks: &Vec<Task>, slots: &Vec<Option<(Date, Date)>>, d: u32) -> (r: Option<Date>)
    requires
        slots@.len() == tasks@.len(),
    ensures
        crate::date::day_of(r) == dep_end(tasks.deep_view(), slots_view(slots@), d),
{
    proof {
        lemma_last_with_id(tasks.deep_view(), d);
    }
    match find_last(tasks, d) {
        None => None,
        Some(j) => match slots[j] {
            Some(p) => Some(p.1),
            None => None,
        },
    }
}

/// Whether all dependencies are ready.
fn all_deps_ready(tasks: &Vec<Task>, slots: &Vec<Option<(Date, Date)>>, deps: &Vec<u32>) -> (r:
    bool)
    requires
        slots@.len() == tasks@.len(),
    ensures
        r == deps_ready(tasks.deep_view(), slots_view(slots@), deps@),
{
    let mut k: usize = 0;
    while k < deps.len()
        invariant
            slots@.len() == tasks@.len(),
            k <= deps@.len(),
            forall|m: int| 0 <= m < k ==> dep_ready(tasks.deep_view(), slots_view(slots@), #[trigger] deps@[m]),
        decreases deps@.len() - k,
    {
        if !dep_is_ready(tasks, slots, deps[k]) {
            return false;
        }
        k = k + 1;
    }
    true
}

/// The latest end among the dated dependencies.
fn latest_dep_end(tasks: &Vec<Task>, slots: &Vec<Option<(Date, Date)>>, deps: &Vec<u32>) -> (r:
    Option<Date>)
    requires
        slots@.len() == tasks@.len(),
    ensures
        crate::date::day_of(r) == latest_end(tasks.deep_view(), slots_view(slots@), deps@),
{
    let ghost tv = tasks.deep_view();
    let ghost sv = slots_view(slots@);
    let mut best: Option<Date> = None;
    let mut k: usize = 0;
    while k < deps.len()
        invariant
            slots@.len() == tasks@.len(),
            tv == tasks.deep_view(),
            sv == slots_view(slots@),
            k <= deps@.len(),
            crate::date::day_of(best) == latest_end(tv, sv, deps@.take(k as int)),
        decreases deps@.len() - k,
    {
        let e = dep_end_of(tasks, slots, deps[k]);
        proof {
            assert(deps@.take(k + 1).drop_last() =~= deps@.take(k as int));
        }
        match e {
            Some(ed) => {
                match best {
                    Some(bd) => {
                        if bd.before(&ed) {
                            best = Some(ed);
                        }
                    },
                    None => {
                        best = Some(ed);
                    },
                }
            },
            None => {},
        }
        k = k + 1;
    }
    assert(deps@.take(k as int) =~= deps@);
    best
}

/// The first pass, or `None` where some date leaves the supported range.
fn compute_first_pass(tasks: &Vec<Task>, pstart: Date) -> (r: Option<Vec<Option<(Date, Date)>>>)
    ensures
        r is Some <==> first_pass(tasks.deep_view(), pstart@).1,
        r matches Some(v) ==> slots_view(v@) == first_pass(tasks.deep_view(), pstart@).0,
        r matches Some(v) ==> v@.len() == tasks@.len(),
{
    let ghost tv = tasks.deep_view();
    let n = tasks.len();
    let mut slots: Vec<Option<(Date, Date)>> = Vec::new();
    let mut pending: Vec<u32> = Vec::new();
    let mut i: usize = 0;
    while i < n
        invariant
            n == tasks@.len(),
            tv == tasks.deep_view(),
            i <= n,
            slots@.len() == i,
            forall|m: int| 0 <= m < i ==> slots@[m] is None,
            pending@ == ids_of(tv).take(i as int),
        decreases n - i,
    {
        slots.push(None);
        pending.push(tasks[i].id);
        i = i + 1;
        proof {
            assert(pending@ =~= ids_of(tv).take(i as int));
        }
    }
    assert(pending@ =~= ids_of(tv));
    assert(slots_view(slots@) =~= Seq::new(tv.len(), |i: int| None::<(int, int)>));
    let ghost full = run_rounds(tv, pstart@, ids_of(tv), slots_view(slots@), true, 100);
    let mut rounds: usize = 0;
    while pending.len() > 0 && rounds < 100
        invariant
            n == tasks@.len(),
            tv == tasks.deep_view(),
            slots@.len() == n,
            rounds <= 100,
            run_rounds(tv, pstart@, pending@, slots_view(slots@), true, (100 - rounds) as nat)
                == full,
            first_pass(tv, pstart@).0 == full.1,
            first_pass(tv, pstart@).1 == full.2,
        decreases 100 - rounds,
    {
        let ghost st0: RoundState = (Seq::empty(), slots_view(slots@), true);
        let ghost pend0 = pending@;
        let mut kept: Vec<u32> = Vec::new();
        let mut k: usize = 0;
        while k < pending.len()
            invariant
                n == tasks@.len(),
                tv == tasks.deep_view(),
                slots@.len() == n,
                pend0 == pending@,
                k <= pending@.len(),
                run_round(tv, pstart@, st0, pend0.take(k as int)) == (
                    kept@,
                    slots_view(slots@),
                    true,
                ),
                run_rounds(tv, pstart@, pend0, st0.1, true, (100 - rounds) as nat) == full,
                pend0.len() > 0,
                rounds < 100,
                st0 == (Seq::<u32>::empty(), st0.1, true),
                first_pass(tv, pstart@).1 == full.2,
            decreases pending@.len() - k,
        {
            let id = pending[k];
            let ghost cur: RoundState = (kept@, slots_view(slots@), true);
            proof {
                assert(pend0.take(k + 1).drop_last() =~= pend0.take(k as int));
                assert(pend0.take(k + 1).last() == id);
                assert(run_round(tv, pstart@, st0, pend0.take(k + 1)) == round_step(tv, pstart@, cur, id));
                lemma_last_with_id(tv, id);
            }
            match find_last(tasks, id) {
                None => {
                    kept.push(id);
                    assert(run_round(tv, pstart@, st0, pend0.take(k + 1)) == (kept@, slots_view(slots@), true));
                },
                Some(j) => {
                    if is_parent(tasks, tasks[j].id) {
                        let (all, span) = children_dates(tasks, &slots, tasks[j].id);
                        let mut dated = false;
                        if all {
                            match span {
                                Some(d) => {
                                    let _sd: i32 = d.0.day();
                                    let _ed: i32 = d.1.day();
                                    slots.set(j, Some(d));
                                    dated = true;
                                    proof {
                                        assert(slots_view(slots@) =~= run_round(
                                            tv,
                                            pstart@,
                                            st0,
                                            pend0.take(k + 1),
                                        ).1);
                                        assert(run_round(tv, pstart@, st0, pend0.take(k + 1)) == (kept@, slots_view(slots@), true));
                                    }
                                },
                                None => {},
                            }
                        }
                        if !dated {
                            kept.push(id);
                            assert(run_round(tv, pstart@, st0, pend0.take(k + 1)) == (kept@, slots_view(slots@), true));
                        }
                    } else if all_deps_ready(tasks, &slots, &tasks[j].dependencies) {
                        let start: Option<Date> = if tasks[j].dependencies.len() > 0 {
                            match latest_dep_end(tasks, &slots, &tasks[j].dependencies) {
                                Some(m) => m.add_days(1),
                                None => Some(pstart),
                            }
                        } else {
                            match tasks[j].manual_start_date {
                                Some(m) => Some(m),
                                None => Some(pstart),
                            }
                        };
                        let span: i64 = if tasks[j].duration < 1 {
                            1
                        } else {
                            tasks[j].duration
                        };
                        let end: Option<Date> = match start {
                            Some(s) => s.add_days(span - 1),
                            None => None,
                        };
                        match (start, end) {
                            (Some(s), Some(e)) => {
                                let _sd: i32 = s.day();
                                let _ed: i32 = e.day();
                                slots.set(j, Some((s, e)));
                                proof {
                                    assert(slots_view(slots@) =~= run_round(
                                        tv,
                                        pstart@,
                                        st0,
                                        pend0.take(k + 1),
                                    ).1);
                                    assert(run_round(tv, pstart@, st0, pend0.take(k + 1)) == (kept@, slots_view(slots@), true));
                                }
                            },
                            _ => {
                                proof {
                                    let after = run_round(tv, pstart@, st0, pend0.take(k + 1));
                                    assert(!after.2);
                                    let nn: nat = (100 - rounds) as nat;
                                    assert(nn != 0);
                                    assert(st0 == (Seq::<u32>::empty(), st0.1, true));
                                    assert(run_rounds(tv, pstart@, pend0, st0.1, true, nn) == run_rounds(tv, pstart@, run_round(tv, pstart@, st0, pend0).0, run_round(tv, pstart@, st0, pend0).1, run_round(tv, pstart@, st0, pend0).2, (nn - 1) as nat));
                                    assert(full == run_rounds(tv, pstart@, run_round(tv, pstart@, st0, pend0).0, run_round(tv, pstart@, st0, pend0).1, run_round(tv, pstart@, st0, pend0).2, (100 - rounds - 1) as nat));
                                    lemma_round_append(
                                        tv,
                                        pstart@,
                                        st0,
                                        pend0.take(k + 1),
                                        pend0.skip(k + 1),
                                    );
                                    assert(pend0.take(k + 1) + pend0.skip(k + 1) =~= pend0);
                                    lemma_round_not_ok(tv, pstart@, after, pend0.skip(k + 1));
                                    let whole = run_round(tv, pstart@, st0, pend0);
                                    assert(!whole.2);
                                    lemma_rounds_not_ok(
                                        tv,
                                        pstart@,
                                        whole.0,
                                        whole.1,
                                        (100 - rounds - 1) as nat,
                                    );
                                    assert(!full.2);
                                }
                                return None;
                            },
                        }
                    } else {
                        kept.push(id);
                        assert(run_round(tv, pstart@, st0, pend0.take(k + 1)) == (kept@, slots_view(slots@), true));
                    }
                },
            }
            k = k + 1;
        }
        proof {
            assert(pend0.take(k as int) =~= pend0);
        }
        pending = kept;
        rounds = rounds + 1;
    }
    Some(slots)
}


/// Tasks with the dates of the rounds: each task takes the dates computed for the last task
/// that has its id, and a dated parent lasts from its start to its end.
pub open spec fn with_first_dates(tasks: Seq<TaskV>, slots: Slots) -> Seq<TaskV> {
    Seq::new(
        tasks.len(),
        |i: int|
            {
                let sl = match last_with_id(tasks, tasks[i].id) {
                    Some(j) => slots[j],
                    None => None,
                };
                TaskV {
                    start: match sl {
                        Some(p) => Some(p.0),
                        None => None,
                    },
                    end: match sl {
                        Some(p) => Some(p.1),
                        None => None,
                    },
                    duration: match sl {
                        Some(p) => if has_children(tasks, tasks[i].id) { (p.1 - p.0 + 1) as i64 } else { tasks[i].duration },
                        None => tasks[i].duration,
                    },
                    ..tasks[i]
                }
            },
    )
}

/// The ids that are some task's parent, in order of first appearance.
pub open spec fn parent_keys(tasks: Seq<TaskV>) -> Seq<u32>
    decreases tasks.len(),
{
    if tasks.len() == 0 {
        Seq::empty()
    } else {
        let keys = parent_keys(tasks.drop_last());
        match tasks.last().parent_id {
            Some(p) => if keys.contains(p) {
                keys
            } else {
                keys.push(p)
            },
            None => keys,
        }
    }
}

/// The keys whose depth is `d`, in order.
pub open spec fn keys_at(tasks: Seq<TaskV>, keys: Seq<u32>, d: nat) -> Seq<u32>
    decreases keys.len(),
{
    if keys.len() == 0 {
        Seq::empty()
    } else {
        let r = keys_at(tasks, keys.drop_last(), d);
        if depth(tasks, keys.last()) == Some(d) {
            r.push(keys.last())
        } else {
            r
        }
    }
}

/// The keys of depth `d` down to 0, deepest first.
pub open spec fn deepest_first(tasks: Seq<TaskV>, keys: Seq<u32>, d: nat) -> Seq<u32>
    decreases d,
{
    if d == 0 {
        keys_at(tasks, keys, 0)
    } else {
        keys_at(tasks, keys, d) + deepest_first(tasks, keys, (d - 1) as nat)
    }
}

/// The parents ordered deepest first, and in order of first appearance among parents of
/// equal depth: the order in which parents left undated are spread over their children.
pub open spec fn parent_order(tasks: Seq<TaskV>) -> Seq<u32> {
    let keys = parent_keys(tasks);
    if keys.len() < 2 {
        keys
    } else {
        deepest_first(tasks, keys, (tasks.len() + 1) as nat)
    }
}

/// The depths of the parents are all defined, as ordering them by depth needs (it looks at
/// depths only when there are two parents or more); on a cycle of parents they are not.
pub open spec fn parents_orderable(tasks: Seq<TaskV>) -> bool {
    let keys = parent_keys(tasks);
    keys.len() < 2 || forall|k: int| 0 <= k < keys.len() ==> (#[trigger] depth(tasks, keys[k])) is Some
}

/// Dating a parent that the rounds left undated, found for the id `p`, with the span of its
/// dated children, when it has any.
pub open spec fn fill_parent(tasks: Seq<TaskV>, slots: Slots, p: u32) -> Slots {
    match last_with_id(tasks, p) {
        Some(j) => if slots[j] is None {
            match children_span(tasks, slots, p, tasks.len() as int) {
                Some(d) => slots.update(j, Some(d)),
                None => slots,
            }
        } else {
            slots
        },
        None => slots,
    }
}

/// Dating the undated parents of `order`, in order.
pub open spec fn fill_parents(tasks: Seq<TaskV>, slots: Slots, order: Seq<u32>) -> Slots
    decreases order.len(),
{
    if order.len() == 0 {
        slots
    } else {
        fill_parent(tasks, fill_parents(tasks, slots, order.drop_last()), order.last())
    }
}

/// The dates of the rounds, then of the parents they left undated, deepest first.
#[verifier::opaque]
pub open spec fn final_slots(tasks: Seq<TaskV>, pstart: int) -> Slots {
    fill_parents(tasks, first_pass(tasks, pstart).0, parent_order(tasks))
}

/// The tasks with the dates (and the durations of parents) that scheduling gives.
pub open spec fn scheduled(tasks: Seq<TaskV>, pstart: int) -> Seq<TaskV> {
    with_first_dates(tasks, final_slots(tasks, pstart))
}

/// Scheduling completes: every date lies in the supported range and the parents can
/// be ordered by depth.
pub open spec fn schedule_completes(tasks: Seq<TaskV>, pstart: int) -> bool {
    first_pass(tasks, pstart).1 && parents_orderable(tasks)
}


/// The tasks with the dates of the first pass.
fn apply_first_dates(tasks: &Vec<Task>, slots: &Vec<Option<(Date, Date)>>) -> (r: Vec<Task>)
    requires
        slots@.len() == tasks@.len(),
    ensures
        r.deep_view() == with_first_dates(tasks.deep_view(), slots_view(slots@)),
{
    let ghost tv = tasks.deep_view();
    let ghost want = with_first_dates(tv, slots_view(slots@));
    let mut r: Vec<Task> = Vec::new();
    let mut i: usize = 0;
    while i < tasks.len()
        invariant
            slots@.len() == tasks@.len(),
            tv == tasks.deep_view(),
            want == with_first_dates(tv, slots_view(slots@)),
            i <= tasks@.len(),
            r@.len() == i,
            forall|k: int| 0 <= k < i ==> #[trigger] r@[k].deep_view() == want[k],
        decreases tasks@.len() - i,
    {
        let mut t = tasks[i].copy();
        proof {
            lemma_last_with_id(tv, tasks@[i as int].id);
        }
        match find_last(tasks, tasks[i].id) {
            Some(j) => match slots[j] {
                Some(p) => {
                    t.start_date = Some(p.0);
                    t.end_date = Some(p.1);
                    if is_parent(tasks, tasks[i].id) {
                        t.duration = p.1.days_since(&p.0) + 1;
                    }
                },
                None => {
                    t.start_date = None;
                    t.end_date = None;
                },
            },
            None => {
                t.start_date = None;
                t.end_date = None;
            },
        }
        r.push(t);
        proof {
            assert(r@[i as int].deep_view() =~= want[i as int]);
        }
        i = i + 1;
    }
    assert(r.deep_view() =~= want);
    r
}

/// Whether a list of ids holds `x`.
pub(crate) fn ids_contain(v: &Vec<u32>, x: u32) -> (r: bool)
    ensures
        r == v@.contains(x),
{
    let mut i: usize = 0;
    while i < v.len()
        invariant
            i <= v@.len(),
            forall|k: int| 0 <= k < i ==> v@[k] != x,
        decreases v@.len() - i,
    {
        if v[i] == x {
            assert(v@[i as int] == x);
            return true;
        }
        i = i + 1;
    }
    false
}

/// The ids that are some task's parent, in order of first appearance.
fn collect_parent_keys(tasks: &Vec<Task>) -> (r: Vec<u32>)
    ensures
        r@ == parent_keys(tasks.deep_view()),
{
    let ghost tv = tasks.deep_view();
    let mut keys: Vec<u32> = Vec::new();
    let mut i: usize = 0;
    while i < tasks.len()
        invariant
            tv == tasks.deep_view(),
            i <= tasks@.len(),
            keys@ == parent_keys(tv.take(i as int)),
        decreases tasks@.len() - i,
    {
        proof {
            assert(tv.take(i + 1).drop_last() =~= tv.take(i as int));
            assert(tv.take(i + 1).last() == tv[i as int]);
        }
        match tasks[i].parent_id {
            Some(p) => {
                if !ids_contain(&keys, p) {
                    keys.push(p);
                }
            },
            None => {},
        }
        i = i + 1;
    }
    assert(tv.take(i as int) =~= tv);
    keys
}

/// The keys whose depth is `d`.
fn keys_at_depth(keys: &Vec<u32>, depths: &Vec<u32>, d: u32, Ghost(tv): Ghost<Seq<TaskV>>) -> (r: Vec<u32>)
    requires
        depths@.len() == keys@.len(),
        forall|k: int| 0 <= k < keys@.len() ==> depth(tv, #[trigger] keys@[k]) == Some(depths@[k] as nat),
    ensures
        r@ == keys_at(tv, keys@, d as nat),
{
    let mut r: Vec<u32> = Vec::new();
    let mut i: usize = 0;
    while i < keys.len()
        invariant
            depths@.len() == keys@.len(),
            forall|k: int| 0 <= k < keys@.len() ==> depth(tv, #[trigger] keys@[k]) == Some(depths@[k] as nat),
            i <= keys@.len(),
            r@ == keys_at(tv, keys@.take(i as int), d as nat),
        decreases keys@.len() - i,
    {
        proof {
            assert(keys@.take(i + 1).drop_last() =~= keys@.take(i as int));
            assert(keys@.take(i + 1).last() == keys@[i as int]);
            assert(depth(tv, keys@[i as int]) == Some(depths@[i as int] as nat));
        }
        if depths[i] == d {
            r.push(keys[i]);
        }
        i = i + 1;
    }
    assert(keys@.take(i as int) =~= keys@);
    r
}

/// The keys of depth `d` down to 0, deepest first.
fn keys_deepest_first(keys: &Vec<u32>, depths: &Vec<u32>, d: u32, Ghost(tv): Ghost<Seq<TaskV>>) -> (r: Vec<u32>)
    requires
        depths@.len() == keys@.len(),
        forall|k: int| 0 <= k < keys@.len() ==> depth(tv, #[trigger] keys@[k]) == Some(depths@[k] as nat),
    ensures
        r@ == deepest_first(tv, keys@, d as nat),
    decreases d,
{
    let mut r = keys_at_depth(keys, depths, d, Ghost(tv));
    if d > 0 {
        let mut rest = keys_deepest_first(keys, depths, d - 1, Ghost(tv));
        r.append(&mut rest);
    }
    r
}

/// The parents ordered deepest first, or `None` when a depth that this needs is undefined.
fn order_parents(tasks: &Vec<Task>) -> (r: Option<Vec<u32>>)
    requires
        tasks@.len() < u32::MAX - 2,
    ensures
        r is Some <==> parents_orderable(tasks.deep_view()),
        r matches Some(v) ==> v@ == parent_order(tasks.deep_view()),
{
    let ghost tv = tasks.deep_view();
    let keys = collect_parent_keys(tasks);
    if keys.len() < 2 {
        return Some(keys);
    }
    let mut depths: Vec<u32> = Vec::new();
    let mut i: usize = 0;
    while i < keys.len()
        invariant
            tv == tasks.deep_view(),
            tasks@.len() < u32::MAX - 2,
            keys@ == parent_keys(tv),
            keys@.len() >= 2,
            i <= keys@.len(),
            depths@.len() == i,
            forall|k: int| 0 <= k < i ==> depth(tv, #[trigger] keys@[k]) == Some(depths@[k] as nat),
        decreases keys@.len() - i,
    {
        match task_depth(tasks, keys[i]) {
            Some(d) => {
                depths.push(d);
            },
            None => {
                assert(depth(tv, keys@[i as int]) is None);
                return None;
            },
        }
        i = i + 1;
    }
    let top: u32 = (tasks.len() + 1) as u32;
    let order = keys_deepest_first(&keys, &depths, top, Ghost(tv));
    Some(order)
}

/// Whether every child of `p` is dated, and the earliest start and latest end among them.
fn children_dates(tasks: &Vec<Task>, slots: &Vec<Option<(Date, Date)>>, p: u32) -> (r: (bool, Option<(Date, Date)>))
    requires
        slots@.len() == tasks@.len(),
    ensures
        r.0 == children_dated(tasks.deep_view(), slots_view(slots@), p),
        pair_view(r.1) == children_span(tasks.deep_view(), slots_view(slots@), p, tasks@.len() as int),
{
    let ghost tv = tasks.deep_view();
    let ghost sv = slots_view(slots@);
    let mut all = true;
    let mut span: Option<(Date, Date)> = None;
    let mut k: usize = 0;
    while k < tasks.len()
        invariant
            slots@.len() == tasks@.len(),
            tv == tasks.deep_view(),
            sv == slots_view(slots@),
            k <= tasks@.len(),
            all == (forall|c: int| 0 <= c < k && (#[trigger] tv[c]).parent_id == Some(p)
                ==> child_slot(tv, sv, c) is Some),
            pair_view(span) == children_span(tv, sv, p, k as int),
        decreases tasks@.len() - k,
    {
        if tasks[k].parent_id == Some(p) {
            proof {
                lemma_last_with_id(tv, tv[k as int].id);
            }
            match find_last(tasks, tasks[k].id) {
                Some(j) => match slots[j] {
                    Some(d) => {
                        span = match span {
                            Some(m) => Some((
                                if d.0.before(&m.0) { d.0 } else { m.0 },
                                if m.1.before(&d.1) { d.1 } else { m.1 },
                            )),
                            None => Some(d),
                        };
                    },
                    None => {
                        all = false;
                    },
                },
                None => {
                    all = false;
                },
            }
        }
        k = k + 1;
    }
    (all, span)
}

/// Scheduling of a project's tasks, or `None` where it does not complete.
pub fn schedule_tasks(tasks: &Vec<Task>, pstart: Date) -> (r: Option<Vec<Task>>)
    requires
        tasks@.len() < u32::MAX - 2,
    ensures
        r is Some <==> schedule_completes(tasks.deep_view(), pstart@),
        r matches Some(v) ==> v.deep_view() == scheduled(tasks.deep_view(), pstart@),
{
    let ghost tv = tasks.deep_view();
    let mut slots = match compute_first_pass(tasks, pstart) {
        Some(s) => s,
        None => {
            return None;
        },
    };
    let order = match order_parents(tasks) {
        Some(o) => o,
        None => {
            return None;
        },
    };
    let ghost base = slots_view(slots@);
    let mut k: usize = 0;
    while k < order.len()
        invariant
            tv == tasks.deep_view(),
            slots@.len() == tasks@.len(),
            k <= order@.len(),
            slots_view(slots@) == fill_parents(tv, base, order@.take(k as int)),
        decreases order@.len() - k,
    {
        let p = order[k];
        proof {
            assert(order@.take(k + 1).drop_last() =~= order@.take(k as int));
            assert(order@.take(k + 1).last() == p);
            lemma_last_with_id(tv, p);
        }
        match find_last(tasks, p) {
            Some(j) => {
                if slots[j].is_none() {
                    let (_, span) = children_dates(tasks, &slots, p);
                    match span {
                        Some(d) => {
                            slots.set(j, Some(d));
                            proof {
                                assert(slots_view(slots@) =~= fill_parents(tv, base, order@.take(k + 1)));
                            }
                        },
                        None => {},
                    }
                }
            },
            None => {},
        }
        k = k + 1;
    }
    proof {
        assert(order@.take(k as int) =~= order@);
        reveal(final_slots);
    }
    Some(apply_first_dates(tasks, &slots))
}

/// Two task lists agree on everything but dates and durations.
pub open spec fn same_but_dates(a: Seq<TaskV>, b: Seq<TaskV>) -> bool {
    &&& a.len() == b.len()
    &&& forall|i: int|
        0 <= i < a.len() ==> (#[trigger] b[i]) == (TaskV {
            start: b[i].start,
            end: b[i].end,
            duration: b[i].duration,
            ..a[i]
        })
}

/// Scheduling changes only dates and durations.
pub proof fn lemma_scheduled_shape(tasks: Seq<TaskV>, pstart: int)
    ensures
        same_but_dates(tasks, scheduled(tasks, pstart)),
{
    let r = scheduled(tasks, pstart);
    assert forall|i: int| 0 <= i < tasks.len() implies (#[trigger] r[i]) == (TaskV {
        start: r[i].start,
        end: r[i].end,
        duration: r[i].duration,
        ..tasks[i]
    }) by {}
}

} // verus!
