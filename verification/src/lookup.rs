//! Finding tasks by their id.

use vstd::prelude::*;
use crate::model::{Task, TaskV};

verus! {

/// Index of the last task with the given id: the one that a map built from the
/// list, entry by entry, keeps.
pub open spec fn last_with_id(tasks: Seq<TaskV>, id: u32) -> Option<int>
    decreases tasks.len(),
{
    if tasks.len() == 0 {
        None
    } else if tasks.last().id == id {
        Some(tasks.len() - 1)
    } else {
        last_with_id(tasks.drop_last(), id)
    }
}

/// Index of the first task with the given id: the one that a search from the front finds.
pub open spec fn first_with_id(tasks: Seq<TaskV>, id: u32) -> Option<int>
    decreases tasks.len(),
{
    if tasks.len() == 0 {
        None
    } else {
        match first_with_id(tasks.drop_last(), id) {
            Some(i) => Some(i),
            None => if tasks.last().id == id {
                Some(tasks.len() - 1)
            } else {
                None
            },
        }
    }
}

/// `last_with_id` finds the last match, and finds none only when there is none.
pub proof fn lemma_last_with_id(tasks: Seq<TaskV>, id: u32)
    ensures
        match last_with_id(tasks, id) {
            Some(i) => 0 <= i < tasks.len() && tasks[i].id == id && forall|j: int|
                i < j < tasks.len() ==> tasks[j].id != id,
            None => forall|j: int| 0 <= j < tasks.len() ==> tasks[j].id != id,
        },
    decreases tasks.len(),
{
    if tasks.len() > 0 {
        lemma_last_with_id(tasks.drop_last(), id);
        assert forall|j: int| 0 <= j < tasks.len() - 1 implies tasks.drop_last()[j] == tasks[j] by {}
    }
}

/// `first_with_id` finds the first match, and finds none only when there is none.
pub proof fn lemma_first_with_id(tasks: Seq<TaskV>, id: u32)
    ensures
        match first_with_id(tasks, id) {
            Some(i) => 0 <= i < tasks.len() && tasks[i].id == id && forall|j: int|
                0 <= j < i ==> tasks[j].id != id,
            None => forall|j: int| 0 <= j < tasks.len() ==> tasks[j].id != id,
        },
    decreases tasks.len(),
{
    if tasks.len() > 0 {
        lemma_first_with_id(tasks.drop_last(), id);
        assert forall|j: int| 0 <= j < tasks.len() - 1 implies tasks.drop_last()[j] == tasks[j] by {}
    }
}

/// `last_with_id` is determined by which tasks carry the id.
pub proof fn lemma_last_with_id_char(tasks: Seq<TaskV>, id: u32, i: int)
    requires
        0 <= i < tasks.len(),
        tasks[i].id == id,
        forall|j: int| i < j < tasks.len() ==> tasks[j].id != id,
    ensures
        last_with_id(tasks, id) == Some(i),
{
    lemma_last_with_id(tasks, id);
}

/// `first_with_id` is determined by which tasks carry the id.
pub proof fn lemma_first_with_id_char(tasks: Seq<TaskV>, id: u32, i: int)
    requires
        0 <= i < tasks.len(),
        tasks[i].id == id,
        forall|j: int| 0 <= j < i ==> tasks[j].id != id,
    ensures
        first_with_id(tasks, id) == Some(i),
{
    lemma_first_with_id(tasks, id);
}

/// Two lists whose ids agree at every index find the same indices.
pub proof fn lemma_lookup_same_ids(a: Seq<TaskV>, b: Seq<TaskV>, id: u32)
    requires
        a.len() == b.len(),
        forall|j: int| 0 <= j < a.len() ==> a[j].id == b[j].id,
    ensures
        last_with_id(a, id) == last_with_id(b, id),
        first_with_id(a, id) == first_with_id(b, id),
{
    lemma_last_with_id(a, id);
    lemma_last_with_id(b, id);
    lemma_first_with_id(a, id);
    lemma_first_with_id(b, id);
    match last_with_id(a, id) {
        Some(i) => lemma_last_with_id_char(b, id, i),
        None => {},
    }
    match first_with_id(a, id) {
        Some(i) => lemma_first_with_id_char(b, id, i),
        None => {},
    }
}

/// Index of the last task with the given id.
pub fn find_last(tasks: &Vec<Task>, id: u32) -> (r: Option<usize>)
    ensures
        match r {
            Some(i) => last_with_id(tasks.deep_view(), id) == Some(i as int),
            None => last_with_id(tasks.deep_view(), id) is None,
        },
{
    let ghost tv = tasks.deep_view();
    let mut i: usize = tasks.len();
    while i > 0
        invariant
            i <= tasks@.len(),
            tv == tasks.deep_view(),
            forall|j: int| i <= j < tasks@.len() ==> tv[j].id != id,
        decreases i,
    {
        if tasks[i - 1].id == id {
            proof {
                lemma_last_with_id_char(tv, id, i - 1);
            }
            return Some(i - 1);
        }
        i = i - 1;
    }
    proof {
        lemma_last_with_id(tv, id);
    }
    None
}

/// Index of the first task with the given id.
pub fn find_first(tasks: &Vec<Task>, id: u32) -> (r: Option<usize>)
    ensures
        match r {
            Some(i) => first_with_id(tasks.deep_view(), id) == Some(i as int),
            None => first_with_id(tasks.deep_view(), id) is None,
        },
{
    let ghost tv = tasks.deep_view();
    let mut i: usize = 0;
    while i < tasks.len()
        invariant
            i <= tasks@.len(),
            tv == tasks.deep_view(),
            forall|j: int| 0 <= j < i ==> tv[j].id != id,
        decreases tasks@.len() - i,
    {
        if tasks[i].id == id {
            proof {
                lemma_first_with_id_char(tv, id, i as int);
            }
            return Some(i);
        }
        i = i + 1;
    }
    proof {
        lemma_first_with_id(tv, id);
    }
    None
}

} // verus!
