//! Renumbering: after tasks move, each task takes its position (counted from 1) as id,
//! and parent and dependency ids follow.

use vstd::prelude::*;
use crate::model::{Task, TaskV, clone_ids};
use crate::lookup::{last_with_id, lemma_last_with_id, lemma_last_with_id_char, find_last};

verus! {

/// The new id of the task that an old id names (the last task with that id), if any.
pub open spec fn new_id_of(tasks: Seq<TaskV>, old: u32) -> Option<u32> {
    match last_with_id(tasks, old) {
        Some(j) => Some((j + 1) as u32),
        None => None,
    }
}

/// Dependencies with their new ids; those that name no task are dropped.
pub open spec fn renumber_deps(tasks: Seq<TaskV>, deps: Seq<u32>) -> Seq<u32>
    decreases deps.len(),
{
    if deps.len() == 0 {
        Seq::empty()
    } else {
        let r = renumber_deps(tasks, deps.drop_last());
        match new_id_of(tasks, deps.last()) {
            Some(x) => r.push(x),
            None => r,
        }
    }
}

/// The task at index `i` after renumbering.
pub open spec fn renumbered_task(tasks: Seq<TaskV>, i: int) -> TaskV {
    TaskV {
        id: (i + 1) as u32,
        parent_id: match tasks[i].parent_id {
            Some(p) => new_id_of(tasks, p),
            None => None,
        },
        dependencies: renumber_deps(tasks, tasks[i].dependencies),
        ..tasks[i]
    }
}

/// The tasks after renumbering.
pub open spec fn renumbered(tasks: Seq<TaskV>) -> Seq<TaskV> {
    Seq::new(tasks.len(), |i: int| renumbered_task(tasks, i))
}

/// Each task's id is its position counted from 1.
pub open spec fn ids_are_positions(tasks: Seq<TaskV>) -> bool {
    forall|i: int| 0 <= i < tasks.len() ==> (#[trigger] tasks[i]).id == i + 1
}

/// Every parent id and dependency names a task of the list.
pub open spec fn references_resolve(tasks: Seq<TaskV>) -> bool {
    &&& forall|i: int|
        0 <= i < tasks.len() && (#[trigger] tasks[i]).parent_id is Some ==> last_with_id(
            tasks,
            tasks[i].parent_id->0,
        ) is Some
    &&& forall|i: int, k: int|
        0 <= i < tasks.len() && 0 <= k < tasks[i].dependencies.len() ==> last_with_id(
            tasks,
            #[trigger] tasks[i].dependencies[k],
        ) is Some
}

/// Dependencies with their new ids.
fn renumber_dep_list(tasks: &Vec<Task>, deps: &Vec<u32>) -> (r: Vec<u32>)
    ensures
        r@ == renumber_deps(tasks.deep_view(), deps@),
{
    let n = tasks.len();
    let mut r: Vec<u32> = Vec::new();
    let mut k: usize = 0;
    while k < deps.len()
        invariant
            n == tasks@.len(),
            k <= deps@.len(),
            r@ == renumber_deps(tasks.deep_view(), deps@.take(k as int)),
        decreases deps@.len() - k,
    {
        proof {
            assert(deps@.take(k + 1).drop_last() =~= deps@.take(k as int));
            assert(deps@.take(k + 1).last() == deps@[k as int]);
            lemma_last_with_id(tasks.deep_view(), deps@[k as int]);
        }
        match find_last(tasks, deps[k]) {
            Some(j) => {
                assert(j < tasks@.len());
                r.push((j + 1) as u32);
            },
            None => {},
        }
        k = k + 1;
    }
    assert(deps@.take(k as int) =~= deps@);
    r
}

/// Renumbers the tasks.
pub fn renumber(tasks: &Vec<Task>) -> (r: Vec<Task>)
    ensures
        r.deep_view() == renumbered(tasks.deep_view()),
        r@.len() == tasks@.len(),
{
    let ghost tv = tasks.deep_view();
    let mut r: Vec<Task> = Vec::new();
    let mut i: usize = 0;
    while i < tasks.len()
        invariant
            tv == tasks.deep_view(),
            i <= tasks@.len(),
            r@.len() == i,
            forall|k: int| 0 <= k < i ==> #[trigger] r@[k].deep_view() == renumbered_task(tv, k),
        decreases tasks@.len() - i,
    {
        let old = &tasks[i];
        let parent_id = match old.parent_id {
            Some(p) => {
                proof {
                    lemma_last_with_id(tv, p);
                }
                match find_last(tasks, p) {
                    Some(j) => Some((j + 1) as u32),
                    None => None,
                }
            },
            None => None,
        };
        let t = Task {
            id: (i + 1) as u32,
            name: old.name.clone(),
            assigned_to: old.assigned_to.clone(),
            duration: old.duration,
            progress: old.progress,
            dependencies: renumber_dep_list(tasks, &old.dependencies),
            manual_start_date: old.manual_start_date,
            details: crate::model::clone_opt_text(&old.details),
            parent_id,
            start_date: old.start_date,
            end_date: old.end_date,
        };
        r.push(t);
        proof {
            assert(r@[i as int].deep_view() =~= renumbered_task(tv, i as int));
        }
        i = i + 1;
    }
    assert(r.deep_view() =~= renumbered(tv));
    r
}

/// After renumbering, each task's id is its position when there are fewer tasks than ids.
pub proof fn lemma_renumbered_ids(tasks: Seq<TaskV>)
    requires
        tasks.len() < u32::MAX,
    ensures
        ids_are_positions(renumbered(tasks)),
{
}

/// In a list whose ids are positions, an id names the task at that position.
pub proof fn lemma_positions_lookup(tasks: Seq<TaskV>, x: u32)
    requires
        ids_are_positions(tasks),
    ensures
        last_with_id(tasks, x) == (if 1 <= x <= tasks.len() { Some(x - 1) } else { None::<int> }),
{
    lemma_last_with_id(tasks, x);
    if 1 <= x <= tasks.len() {
        assert(tasks[x - 1].id == x);
        lemma_last_with_id_char(tasks, x, x - 1);
    }
}

/// After renumbering, every parent id and dependency names a task.
pub proof fn lemma_renumbered_resolve(tasks: Seq<TaskV>)
    requires
        tasks.len() < u32::MAX,
    ensures
        references_resolve(renumbered(tasks)),
{
    let r = renumbered(tasks);
    assert forall|i: int| 0 <= i < r.len() && (#[trigger] r[i]).parent_id is Some implies last_with_id(r, r[i].parent_id->0) is Some by {
        let p = tasks[i].parent_id->0;
        lemma_last_with_id(tasks, p);
        lemma_positions_lookup(r, r[i].parent_id->0);
    }
    assert forall|i: int, k: int| 0 <= i < r.len() && 0 <= k < r[i].dependencies.len() implies last_with_id(r, #[trigger] r[i].dependencies[k]) is Some by {
        lemma_renumber_deps_range(tasks, tasks[i].dependencies);
        lemma_positions_lookup(r, r[i].dependencies[k]);
    }
}

proof fn lemma_renumber_deps_range(tasks: Seq<TaskV>, deps: Seq<u32>)
    requires
        tasks.len() < u32::MAX,
    ensures
        forall|k: int| 0 <= k < renumber_deps(tasks, deps).len() ==> 1 <= #[trigger] renumber_deps(tasks, deps)[k] <= tasks.len(),
    decreases deps.len(),
{
    if deps.len() > 0 {
        lemma_renumber_deps_range(tasks, deps.drop_last());
        lemma_last_with_id(tasks, deps.last());
        let r0 = renumber_deps(tasks, deps.drop_last());
        let r = renumber_deps(tasks, deps);
        assert forall|k: int| 0 <= k < r.len() implies 1 <= #[trigger] r[k] <= tasks.len() by {
            if k < r0.len() {
                assert(r[k] == r0[k]);
            }
        }
    }
}

/// Renumbering a list whose ids are positions and whose references resolve leaves it unchanged.
pub proof fn lemma_renumber_fixed(tasks: Seq<TaskV>)
    requires
        ids_are_positions(tasks),
        references_resolve(tasks),
        tasks.len() < u32::MAX,
    ensures
        renumbered(tasks) == tasks,
{
    assert forall|i: int| 0 <= i < tasks.len() implies #[trigger] renumbered(tasks)[i] == tasks[i] by {
        match tasks[i].parent_id {
            Some(p) => {
                lemma_positions_lookup(tasks, p);
            },
            None => {},
        }
        lemma_renumber_deps_fixed(tasks, tasks[i].dependencies, i);
        assert(renumbered_task(tasks, i) =~= tasks[i]);
    }
    assert(renumbered(tasks) =~= tasks);
}

proof fn lemma_renumber_deps_fixed(tasks: Seq<TaskV>, deps: Seq<u32>, i: int)
    requires
        ids_are_positions(tasks),
        forall|k: int| 0 <= k < deps.len() ==> last_with_id(tasks, #[trigger] deps[k]) is Some,
    ensures
        renumber_deps(tasks, deps) == deps,
    decreases deps.len(),
{
    if deps.len() > 0 {
        lemma_renumber_deps_fixed(tasks, deps.drop_last(), i);
        assert(last_with_id(tasks, deps[deps.len() - 1]) is Some);
        lemma_positions_lookup(tasks, deps.last());
        assert(deps.drop_last().push(deps.last()) =~= deps);
    }
}

/// Renumbering twice is renumbering once.
pub proof fn law_renumber_idempotent(tasks: Seq<TaskV>)
    requires
        tasks.len() < u32::MAX,
    ensures
        renumbered(renumbered(tasks)) == renumbered(tasks),
{
    lemma_renumbered_ids(tasks);
    lemma_renumbered_resolve(tasks);
    lemma_renumber_fixed(renumbered(tasks));
}

/// Renumbered dependencies are the dependencies that name a task, in order, each replaced by
/// the new id of the task it names.
proof fn lemma_renumber_deps_mapped(tasks: Seq<TaskV>, deps: Seq<u32>)
    ensures
        renumber_deps(tasks, deps) == deps.filter(|d: u32| last_with_id(tasks, d) is Some).map_values(
            |d: u32| renumbered(tasks)[last_with_id(tasks, d)->0].id,
        ),
    decreases deps.len(),
{
    reveal(Seq::filter);
    let f = |d: u32| last_with_id(tasks, d) is Some;
    let g = |d: u32| renumbered(tasks)[last_with_id(tasks, d)->0].id;
    if deps.len() == 0 {
        assert(deps.filter(f).map_values(g) =~= Seq::<u32>::empty());
    } else {
        let front = deps.drop_last();
        lemma_renumber_deps_mapped(tasks, front);
        lemma_last_with_id(tasks, deps.last());
        if f(deps.last()) {
            assert(deps.filter(f) == front.filter(f).push(deps.last()));
            assert(deps.filter(f).map_values(g) =~= front.filter(f).map_values(g).push(g(deps.last())));
        } else {
            assert(deps.filter(f) == front.filter(f));
        }
    }
}

/// Renumbering keeps the links between tasks: each task takes its position counted from 1 as
/// its id; its parent becomes the new id of the task that it named (none where it named no
/// task); its dependencies become, in order, the new ids of the tasks that they named, those
/// that named no task dropped; and all else of the task stays.
pub proof fn law_renumber_keeps_links(tasks: Seq<TaskV>, i: int)
    requires
        0 <= i < tasks.len(),
    ensures
        ({
            let r = renumbered(tasks);
            let t = tasks[i];
            &&& r.len() == tasks.len()
            &&& r[i].id == (i + 1) as u32
            &&& r[i].parent_id == match t.parent_id {
                Some(p) => match last_with_id(tasks, p) {
                    Some(j) => Some(r[j].id),
                    None => None,
                },
                None => None,
            }
            &&& r[i].dependencies == t.dependencies.filter(|d: u32| last_with_id(tasks, d) is Some).map_values(
                |d: u32| r[last_with_id(tasks, d)->0].id,
            )
            &&& r[i] == TaskV { id: r[i].id, parent_id: r[i].parent_id, dependencies: r[i].dependencies, ..t }
        }),
{
    lemma_renumber_deps_mapped(tasks, tasks[i].dependencies);
    match tasks[i].parent_id {
        Some(p) => lemma_last_with_id(tasks, p),
        None => {},
    }
}

} // verus!
