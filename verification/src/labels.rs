//! The outline numbers shown for tasks: `1`, `2` for top-level tasks, then letters and
//! numbers by turns for each level below (`1a`, `1a1`, `1a2`, `1b`, ...).

use vstd::prelude::*;
use crate::model::{Task, TaskV};
use crate::hierarchy::chains_end;
use crate::outline::{level_at, level_of};
use crate::text::{decimal, u64_to_text, push_char};

verus! {

/// Number of tasks among `tasks[0..k]` with the given parent.
pub open spec fn count_with_parent(tasks: Seq<TaskV>, k: int, p: Option<u32>) -> nat
    decreases k,
{
    if k <= 0 {
        0
    } else {
        count_with_parent(tasks, k - 1, p) + if tasks[k - 1].parent_id == p {
            1nat
        } else {
            0nat
        }
    }
}

/// The letter for a sibling number (`a` for 0).
pub open spec fn letter(x: nat) -> char {
    ((97 + x % 26) as u8) as char
}

/// The part of the label that a task adds to its parent's label.
pub open spec fn label_part(lvl: nat, sib: nat) -> Seq<char> {
    if lvl % 2 == 1 {
        seq![letter(sib)]
    } else {
        decimal(sib + 1)
    }
}

/// The label recorded last for an id.
pub open spec fn lookup_label(entries: Seq<(u32, Seq<char>)>, id: u32) -> Option<Seq<char>>
    decreases entries.len(),
{
    if entries.len() == 0 {
        None
    } else if entries.last().0 == id {
        Some(entries.last().1)
    } else {
        lookup_label(entries.drop_last(), id)
    }
}

/// The labels of `tasks[0..k]`, one entry per task, in order.
pub open spec fn labels_upto(tasks: Seq<TaskV>, k: int) -> Seq<(u32, Seq<char>)>
    decreases k,
{
    if k <= 0 {
        Seq::empty()
    } else {
        let prev = labels_upto(tasks, k - 1);
        let t = tasks[k - 1];
        let lab = match t.parent_id {
            Some(p) => match lookup_label(prev, p) {
                Some(pl) => pl + label_part(
                    match level_at(tasks, k - 1) {
                        Some(l) => l,
                        None => 0,
                    },
                    count_with_parent(tasks, k - 1, Some(p)),
                ),
                None => seq!['?'],
            },
            None => decimal(count_with_parent(tasks, k - 1, None) + 1),
        };
        prev.push((t.id, lab))
    }
}

/// The labels of all tasks.
pub open spec fn labels(tasks: Seq<TaskV>) -> Seq<(u32, Seq<char>)> {
    labels_upto(tasks, tasks.len() as int)
}

/// The labels of the tasks, by id.
pub struct Labels {
    pub entries: Vec<(u32, String)>,
}

/// The value of a list of labels.
pub open spec fn entries_view(v: Seq<(u32, String)>) -> Seq<(u32, Seq<char>)> {
    Seq::new(v.len(), |i: int| (v[i].0, v[i].1@))
}

impl Labels {
    /// The label recorded last for an id.
    pub fn get(&self, id: u32) -> (r: Option<String>)
        ensures
            match lookup_label(entries_view(self.entries@), id) {
                Some(l) => r matches Some(s) && s@ == l,
                None => r is None,
            },
    {
        let ghost ev = entries_view(self.entries@);
        let mut i = self.entries.len();
        assert(ev.take(i as int) =~= ev);
        while i > 0
            invariant
                i <= self.entries@.len(),
                ev == entries_view(self.entries@),
                lookup_label(ev, id) == lookup_label(ev.take(i as int), id),
            decreases i,
        {
            proof {
                assert(ev.take(i as int).drop_last() =~= ev.take(i - 1));
            }
            if self.entries[i - 1].0 == id {
                return Some(self.entries[i - 1].1.clone());
            }
            i = i - 1;
        }
        None
    }
}

fn letter_char(x: usize) -> (c: char)
    ensures
        c == letter(x as nat),
{
    let b: u8 = (97 + x % 26) as u8;
    b as char
}

fn count_parent(tasks: &Vec<Task>, k: usize, p: Option<u32>) -> (r: usize)
    requires
        k <= tasks@.len(),
    ensures
        r == count_with_parent(tasks.deep_view(), k as int, p),
        r <= k,
{
    let ghost tv = tasks.deep_view();
    let mut c: usize = 0;
    let mut i: usize = 0;
    while i < k
        invariant
            tv == tasks.deep_view(),
            k <= tasks@.len(),
            i <= k,
            c == count_with_parent(tv, i as int, p),
            c <= i,
        decreases k - i,
    {
        if tasks[i].parent_id == p {
            c = c + 1;
        }
        i = i + 1;
    }
    c
}

/// The labels of the tasks, or `None` when a task's level has no end (a cycle of parents).
pub fn task_labels(tasks: &Vec<Task>) -> (r: Option<Labels>)
    requires
        tasks@.len() < u32::MAX - 2,
    ensures
        r is Some <==> chains_end(tasks.deep_view()),
        r matches Some(l) ==> entries_view(l.entries@) == labels(tasks.deep_view()),
{
    let ghost tv = tasks.deep_view();
    let n = tasks.len();
    let mut out = Labels { entries: Vec::new() };
    let mut i: usize = 0;
    while i < n
        invariant
            tv == tasks.deep_view(),
            n == tasks@.len(),
            tasks@.len() < u32::MAX - 2,
            i <= n,
            entries_view(out.entries@) == labels_upto(tv, i as int),
            forall|k: int| 0 <= k < i ==> (#[trigger] level_at(tv, k)) is Some,
        decreases n - i,
    {
        let lvl = match level_of(tasks, i) {
            Some(l) => l,
            None => {
                proof {
                    assert(!(crate::hierarchy::level(tv, tv[i as int]) is Some));
                }
                return None;
            },
        };
        let lab: String = match tasks[i].parent_id {
            Some(p) => match out.get(p) {
                Some(pl) => {
                    let sib = count_parent(tasks, i, Some(p));
                    let mut s = pl;
                    if lvl % 2 == 1 {
                        push_char(&mut s, letter_char(sib));
                    } else {
                        let part = u64_to_text((sib + 1) as u64);
                        s.append(part.as_str());
                    }
                    proof {
                        assert(s@ =~= pl@ + label_part(lvl as nat, sib as nat));
                    }
                    s
                },
                None => {
                    let mut s = String::new();
                    push_char(&mut s, '?');
                    s
                },
            },
            None => {
                let c = count_parent(tasks, i, None);
                u64_to_text((c + 1) as u64)
            },
        };
        out.entries.push((tasks[i].id, lab));
        i = i + 1;
        proof {
            assert(entries_view(out.entries@) =~= labels_upto(tv, i as int));
        }
    }
    proof {
        assert forall|k: int| 0 <= k < tv.len() implies (#[trigger] crate::hierarchy::level(tv, tv[k])) is Some by {
            assert(level_at(tv, k) is Some);
        }
    }
    Some(out)
}

/// Labels of top-level tasks count them from 1, in order.
pub proof fn law_top_level_labels(tasks: Seq<TaskV>, k: int)
    requires
        0 <= k < tasks.len(),
        tasks[k].parent_id is None,
    ensures
        labels(tasks)[k] == (tasks[k].id, decimal(count_with_parent(tasks, k, None) + 1)),
{
    lemma_labels_prefix(tasks, tasks.len() as int, k);
    lemma_labels_len(tasks, k);
}

proof fn lemma_labels_prefix(tasks: Seq<TaskV>, n: int, k: int)
    requires
        0 <= k < n <= tasks.len(),
    ensures
        labels_upto(tasks, n)[k] == labels_upto(tasks, k + 1)[k],
        labels_upto(tasks, n).len() == n,
    decreases n,
{
    lemma_labels_len(tasks, n);
    if n > k + 1 {
        lemma_labels_prefix(tasks, n - 1, k);
    }
}

proof fn lemma_labels_len(tasks: Seq<TaskV>, n: int)
    requires
        0 <= n,
    ensures
        labels_upto(tasks, n).len() == n,
    decreases n,
{
    if n > 0 {
        lemma_labels_len(tasks, n - 1);
    }
}

/// The label of a task under a parent that has a label is the parent's label followed by a
/// part for the task's place among its parent's children: at an odd level one lowercase letter
/// (`a` for the first child, going round after `z`), at an even level the child's number counted
/// from 1 in decimal.
pub proof fn law_child_label(tasks: Seq<TaskV>, k: int)
    requires
        0 <= k < tasks.len(),
        tasks[k].parent_id is Some,
        lookup_label(labels_upto(tasks, k), tasks[k].parent_id->0) is Some,
        level_at(tasks, k) is Some,
    ensures
        ({
            let p = tasks[k].parent_id->0;
            let pl = lookup_label(labels_upto(tasks, k), p)->0;
            let sib = count_with_parent(tasks, k, Some(p));
            let lab = labels(tasks)[k].1;
            &&& labels(tasks).len() == tasks.len()
            &&& labels(tasks)[k].0 == tasks[k].id
            &&& level_at(tasks, k)->0 % 2 == 1 ==> {
                &&& lab.len() == pl.len() + 1
                &&& lab.subrange(0, pl.len() as int) == pl
                &&& 'a' <= lab.last() <= 'z'
                &&& lab.last() as int == 97 + sib % 26
            }
            &&& level_at(tasks, k)->0 % 2 == 0 ==> lab == pl + decimal(sib + 1)
        }),
{
    let n = tasks.len() as int;
    lemma_labels_prefix(tasks, n, k);
    let p = tasks[k].parent_id->0;
    let pl = lookup_label(labels_upto(tasks, k), p)->0;
    let sib = count_with_parent(tasks, k, Some(p));
    let lab = labels(tasks)[k].1;
    lemma_labels_len(tasks, k + 1);
    assert(labels_upto(tasks, k + 1)[k] == labels_upto(tasks, k + 1).last());
    if level_at(tasks, k)->0 % 2 == 1 {
        assert(lab == pl + seq![letter(sib)]);
        assert(lab.subrange(0, pl.len() as int) =~= pl);
        assert(0 <= sib % 26 < 26);
        let x: int = (97 + sib % 26) as int;
        let b: u8 = x as u8;
        assert(b as int == x);
        let c: char = b as char;
        assert(c as int == b as int);
        assert(lab.last() == c);
    }
}

} // verus!
