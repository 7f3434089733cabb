//! The parent/child structure of tasks: depth of a task in the tree.

use vstd::prelude::*;
use crate::model::{Task, TaskV};
use crate::lookup::{first_with_id, lemma_first_with_id, find_first};

verus! {

/// Number of ancestors reached from the task found for `id` by following parent ids
/// (each looked up as the first task with that id), using at most `fuel` lookups;
/// `None` when `fuel` runs out.
pub open spec fn depth_from(tasks: Seq<TaskV>, id: u32, fuel: nat) -> Option<nat>
    decreases fuel,
{
    if fuel == 0 {
        None
    } else {
        match first_with_id(tasks, id) {
            None => Some(0),
            Some(i) => match tasks[i].parent_id {
                None => Some(0),
                Some(p) => match depth_from(tasks, p, (fuel - 1) as nat) {
                    Some(d) => Some(d + 1),
                    None => None,
                },
            },
        }
    }
}

/// Depth of the task found for `id`: `None` when its chain of parents does not end
/// within as many steps as there are tasks, which happens only on a cycle.
pub open spec fn depth(tasks: Seq<TaskV>, id: u32) -> Option<nat> {
    depth_from(tasks, id, (tasks.len() + 1) as nat)
}

/// Level of a task in the tree: 0 for a top-level task, else one more than the depth of its parent.
pub open spec fn level(tasks: Seq<TaskV>, t: TaskV) -> Option<nat> {
    match t.parent_id {
        None => Some(0),
        Some(p) => match depth(tasks, p) {
            Some(d) => Some(d + 1),
            None => None,
        },
    }
}

/// Every parent chain in the list ends.
pub open spec fn chains_end(tasks: Seq<TaskV>) -> bool {
    forall|i: int| 0 <= i < tasks.len() ==> (#[trigger] level(tasks, tasks[i])) is Some
}

/// More fuel never turns a found depth into another one.
pub proof fn lemma_depth_fuel(tasks: Seq<TaskV>, id: u32, f: nat, g: nat)
    requires
        f <= g,
        depth_from(tasks, id, f) is Some,
    ensures
        depth_from(tasks, id, g) == depth_from(tasks, id, f),
    decreases f,
{
    lemma_first_with_id(tasks, id);
    match first_with_id(tasks, id) {
        None => {},
        Some(i) => match tasks[i].parent_id {
            None => {},
            Some(p) => {
                lemma_depth_fuel(tasks, p, (f - 1) as nat, (g - 1) as nat);
            },
        },
    }
}

/// Depth of the task found for `id` by walking its parents, with `fuel` lookups at most.
fn depth_walk(tasks: &Vec<Task>, id: u32, fuel: usize) -> (r: Option<u32>)
    requires
        fuel < u32::MAX - 1,
    ensures
        match depth_from(tasks.deep_view(), id, fuel as nat) {
            Some(d) => r == Some(d as u32) && d <= fuel,
            None => r is None,
        },
    decreases fuel,
{
    if fuel == 0 {
        return None;
    }
    proof {
        lemma_first_with_id(tasks.deep_view(), id);
    }
    match find_first(tasks, id) {
        None => Some(0),
        Some(i) => match tasks[i].parent_id {
            None => Some(0),
            Some(p) => {
                proof {
                    assert(tasks.deep_view()[i as int].parent_id == tasks@[i as int].parent_id);
                }
                match depth_walk(tasks, p, fuel - 1) {
                    Some(d) => {
                        proof {
                            assert(d < fuel);
                        }
                        Some(d + 1)
                    },
                    None => None,
                }
            },
        },
    }
}

/// Depth of the task found for `id`, or `None` on a cycle of parents.
pub fn task_depth(tasks: &Vec<Task>, id: u32) -> (r: Option<u32>)
    requires
        tasks@.len() < u32::MAX - 2,
    ensures
        match depth(tasks.deep_view(), id) {
            Some(d) => r == Some(d as u32) && d <= tasks@.len() + 1,
            None => r is None,
        },
{
    let r = depth_walk(tasks, id, tasks.len() + 1);
    r
}

/// Level of a task in the tree, or `None` on a cycle of parents.
pub fn task_level(tasks: &Vec<Task>, t: &Task) -> (r: Option<u32>)
    requires
        tasks@.len() < u32::MAX - 2,
    ensures
        match level(tasks.deep_view(), t.deep_view()) {
            Some(d) => r == Some(d as u32) && d <= tasks@.len() + 2,
            None => r is None,
        },
{
    match t.parent_id {
        None => Some(0),
        Some(p) => match task_depth(tasks, p) {
            Some(d) => Some(d + 1),
            None => None,
        },
    }
}

} // verus!
