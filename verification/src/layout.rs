//! Sizes and kinds of the rows and columns of the task table.

use vstd::prelude::*;
use crate::model::{Task, TaskV};
use crate::app::App;
use crate::date::Date;
use crate::hierarchy::chains_end;
use crate::labels::{Labels, labels, lookup_label, entries_view, task_labels};
use crate::edit::dep_label;

verus! {

/// The number of terminal columns that `unicode_width::UnicodeWidthStr::width` gives for a
/// text.
pub uninterp spec fn display_width(s: Seq<char>) -> nat;

/// The display width of a text, from `unicode_width::UnicodeWidthStr::width`.
/// Claimed: the result is the named result `display_width` of the text.
#[verifier::external_body]
pub fn text_width(s: &str) -> (r: usize)
    ensures
        r == display_width(s@),
{
    unicode_width::UnicodeWidthStr::width(s)
}

/// The label of a task id, or nothing.
pub open spec fn label_or_empty(entries: Seq<(u32, Seq<char>)>, id: u32) -> Seq<char> {
    match lookup_label(entries, id) {
        Some(l) => l,
        None => Seq::empty(),
    }
}

/// The width of the labels of a list of dependencies, without separators.
pub open spec fn deps_width(entries: Seq<(u32, Seq<char>)>, deps: Seq<u32>) -> int
    decreases deps.len(),
{
    if deps.len() == 0 {
        0
    } else {
        deps_width(entries, deps.drop_last()) + display_width(dep_label(entries, deps.last()))
    }
}

/// The width of the dependency cell of a task: the labels and a separator of two between each.
pub open spec fn deps_cell_width(entries: Seq<(u32, Seq<char>)>, t: TaskV) -> int {
    if t.dependencies.len() == 0 {
        0
    } else {
        deps_width(entries, t.dependencies) + (t.dependencies.len() - 1) * 2
    }
}

/// Which cell of a task a column shows, by number: 0 the label, 1 the name, 2 the assignee,
/// 3 the dependencies.
pub open spec fn cell_width(entries: Seq<(u32, Seq<char>)>, t: TaskV, col: int) -> int {
    if col == 0 {
        display_width(label_or_empty(entries, t.id)) as int
    } else if col == 1 {
        display_width(t.name) as int
    } else if col == 2 {
        display_width(t.assigned_to) as int
    } else {
        deps_cell_width(entries, t)
    }
}

/// The widest cell of a column over the first `k` tasks, 0 when there is none.
pub open spec fn widest(entries: Seq<(u32, Seq<char>)>, tasks: Seq<TaskV>, col: int, k: int) -> int
    decreases k,
{
    if k <= 0 {
        0
    } else {
        let m = widest(entries, tasks, col, k - 1);
        let w = cell_width(entries, tasks[k - 1], col);
        if w > m { w } else { m }
    }
}

/// A column as wide as its widest text `w` plus `extra`, counted in `u16` after the text width
/// is cut to 16 bits; `None` where the sum leaves `u16` (the arithmetic overflows).
pub open spec fn column(w: int, extra: int) -> Option<u16> {
    let t = w % 65536;
    if t + extra <= 65535 {
        Some((t + extra) as u16)
    } else {
        None
    }
}

/// The larger of two numbers.
pub open spec fn larger(a: int, b: int) -> int {
    if a > b { a } else { b }
}

/// A column that is shown only when `shown`, as wide as `w` plus 2.
pub open spec fn shown_column(shown: bool, w: int) -> Option<u16> {
    if shown { column(w, 2) } else { Some(0u16) }
}

/// The widths of the eight columns of the task table (label, name, assignee, start, end,
/// duration, progress, dependencies); `None` where the operation fails: the labels cannot be
/// computed, a width sum leaves `usize`, or a column leaves `u16`.
pub open spec fn column_widths(a: App) -> Option<Seq<u16>> {
    let tasks = a.tasks_v();
    let vis = a.all_projects.column_visibility;
    if !chains_end(tasks) {
        None
    } else {
        let e = labels(tasks);
        let n = tasks.len() as int;
        let cols = seq![
            column(larger(widest(e, tasks, 0, n), display_width("ID"@) as int), 2),
            column(larger(widest(e, tasks, 1, n), display_width("Name"@) as int), 14),
            shown_column(vis.assigned_to, larger(widest(e, tasks, 2, n), display_width("Assigned"@) as int)),
            shown_column(vis.start_date, display_width("mm/dd/yyyy"@) as int),
            shown_column(vis.end_date, display_width("mm/dd/yyyy"@) as int),
            shown_column(vis.duration, larger(display_width("Dur"@) as int, 4)),
            shown_column(vis.progress, larger(display_width("Prog%"@) as int, 4)),
            shown_column(vis.dependencies, larger(widest(e, tasks, 3, n), display_width("Deps"@) as int)),
        ];
        if (forall|i: int| 0 <= i < 8 ==> (#[trigger] cols[i]) is Some)
            && (vis.dependencies ==> widest(e, tasks, 3, n) <= usize::MAX) {
            Some(Seq::new(8, |i: int| cols[i]->0))
        } else {
            None
        }
    }
}

/// A column is 0 wide exactly when it is hidden, and the label and name columns, always shown,
/// are at least 2 and 14 wide (their widest text plus their margin).
pub proof fn law_hidden_columns_have_no_width(a: App)
    requires
        column_widths(a) is Some,
    ensures
        ({
            let w = column_widths(a)->0;
            let vis = a.all_projects.column_visibility;
            &&& w.len() == 8
            &&& w[0] >= 2
            &&& w[1] >= 14
            &&& (w[2] == 0 <==> !vis.assigned_to)
            &&& (w[3] == 0 <==> !vis.start_date)
            &&& (w[4] == 0 <==> !vis.end_date)
            &&& (w[5] == 0 <==> !vis.duration)
            &&& (w[6] == 0 <==> !vis.progress)
            &&& (w[7] == 0 <==> !vis.dependencies)
        }),
{
    let tasks = a.tasks_v();
    let e = labels(tasks);
    let n = tasks.len() as int;
    let vis = a.all_projects.column_visibility;
    let cols = seq![
        column(larger(widest(e, tasks, 0, n), display_width("ID"@) as int), 2),
        column(larger(widest(e, tasks, 1, n), display_width("Name"@) as int), 14),
        shown_column(vis.assigned_to, larger(widest(e, tasks, 2, n), display_width("Assigned"@) as int)),
        shown_column(vis.start_date, display_width("mm/dd/yyyy"@) as int),
        shown_column(vis.end_date, display_width("mm/dd/yyyy"@) as int),
        shown_column(vis.duration, larger(display_width("Dur"@) as int, 4)),
        shown_column(vis.progress, larger(display_width("Prog%"@) as int, 4)),
        shown_column(vis.dependencies, larger(widest(e, tasks, 3, n), display_width("Deps"@) as int)),
    ];
    assert forall|i: int| 0 <= i < 8 implies (#[trigger] cols[i]) is Some by {}
    assert(column_widths(a)->0 == Seq::new(8, |i: int| cols[i]->0));
}

fn column_of(w: usize, extra: u16) -> (r: Option<u16>)
    ensures
        r == column(w as int, extra as int),
{
    let t: u16 = (w % 65536) as u16;
    t.checked_add(extra)
}

fn larger_of(a: usize, b: usize) -> (r: usize)
    ensures
        r == larger(a as int, b as int),
{
    if a > b { a } else { b }
}

fn label_width(l: &Labels, id: u32) -> (r: usize)
    ensures
        r == display_width(label_or_empty(entries_view(l.entries@), id)),
{
    match l.get(id) {
        Some(s) => text_width(s.as_str()),
        None => {
            proof {
                reveal_strlit("");
                assert(""@ =~= Seq::<char>::empty());
            }
            text_width("")
        },
    }
}

fn dep_cell_width(l: &Labels, t: &Task) -> (r: Option<usize>)
    ensures
        match r {
            Some(w) => w == deps_cell_width(entries_view(l.entries@), t.deep_view()),
            None => deps_cell_width(entries_view(l.entries@), t.deep_view()) > usize::MAX,
        },
{
    let ghost ev = entries_view(l.entries@);
    let deps = &t.dependencies;
    let n = deps.len();
    if n == 0 {
        return Some(0);
    }
    let mut sum: usize = 0;
    let mut i: usize = 0;
    while i < n
        invariant
            ev == entries_view(l.entries@),
            n == deps@.len(),
            deps@ == t.dependencies@,
            i <= n,
            sum == deps_width(ev, deps@.take(i as int)),
        decreases n - i,
    {
        proof {
            assert(deps@.take(i + 1).drop_last() =~= deps@.take(i as int));
            assert(deps@.take(i + 1).last() == deps@[i as int]);
        }
        let label = match l.get(deps[i]) {
            Some(s) => s,
            None => {
                proof {
                    reveal_strlit("?");
                }
                String::from_str("?")
            },
        };
        let w = text_width(label.as_str());
        proof {
            assert(label@ == dep_label(ev, deps@[i as int]));
            assert(deps_width(ev, deps@.take(i + 1)) == sum + w);
        }
        match sum.checked_add(w) {
            Some(x) => {
                sum = x;
            },
            None => {
                proof {
                    lemma_deps_width_grows(ev, deps@, i as int + 1);
                    assert(deps@.take(n as int) =~= deps@);
                    assert(sum + w > usize::MAX);
                    assert(t.deep_view().dependencies == deps@);
                    assert(deps_width(ev, deps@) > usize::MAX);
                }
                return None;
            },
        }
        i = i + 1;
    }
    proof {
        assert(deps@.take(n as int) =~= deps@);
    }
    match (n - 1).checked_mul(2) {
        Some(sep) => sum.checked_add(sep),
        None => None,
    }
}

proof fn lemma_deps_width_grows(entries: Seq<(u32, Seq<char>)>, deps: Seq<u32>, k: int)
    requires
        0 <= k <= deps.len(),
    ensures
        deps_width(entries, deps.take(k)) <= deps_width(entries, deps),
    decreases deps.len() - k,
{
    if k < deps.len() {
        lemma_deps_width_grows(entries, deps, k + 1);
        assert(deps.take(k + 1).drop_last() =~= deps.take(k));
    } else {
        assert(deps.take(k) =~= deps);
    }
}

proof fn lemma_widest_bound(entries: Seq<(u32, Seq<char>)>, tasks: Seq<TaskV>, k: int, j: int)
    requires
        0 <= j < k <= tasks.len(),
    ensures
        widest(entries, tasks, 3, k) >= cell_width(entries, tasks[j], 3),
    decreases k,
{
    if j < k - 1 {
        lemma_widest_bound(entries, tasks, k - 1, j);
    }
}

/// The widest cell of column `col` over the tasks; `None` where a dependency cell's width
/// leaves `usize`.
fn widest_cell(l: &Labels, tasks: &Vec<Task>, col: u8) -> (r: Option<usize>)
    requires
        col < 4,
    ensures
        match r {
            Some(w) => w == widest(entries_view(l.entries@), tasks.deep_view(), col as int, tasks@.len() as int),
            None => col == 3 && widest(entries_view(l.entries@), tasks.deep_view(), 3, tasks@.len() as int) > usize::MAX,
        },
{
    let ghost ev = entries_view(l.entries@);
    let ghost tv = tasks.deep_view();
    let mut m: usize = 0;
    let mut i: usize = 0;
    while i < tasks.len()
        invariant
            ev == entries_view(l.entries@),
            tv == tasks.deep_view(),
            col < 4,
            i <= tasks@.len(),
            m == widest(ev, tv, col as int, i as int),
        decreases tasks@.len() - i,
    {
        let t = &tasks[i];
        proof {
            assert(tv[i as int] == t.deep_view());
        }
        let w: usize = if col == 0 {
            label_width(l, t.id)
        } else if col == 1 {
            text_width(t.name.as_str())
        } else if col == 2 {
            text_width(t.assigned_to.as_str())
        } else {
            match dep_cell_width(l, t) {
                Some(x) => x,
                None => {
                    proof {
                        lemma_widest_bound(ev, tv, tv.len() as int, i as int);
                    }
                    return None;
                },
            }
        };
        if w > m {
            m = w;
        }
        i = i + 1;
    }
    Some(m)
}

impl App {
    /// The widths of the eight columns of the task table.
    pub fn calculate_column_widths(&self) -> (r: Option<Vec<u16>>)
        requires
            self.wf(),
        ensures
            match column_widths(*self) {
                Some(ws) => r matches Some(v) && v@ == ws,
                None => r is None,
            },
    {
        let cur = self.current_project_index;
        let tasks = &self.all_projects.projects[cur].tasks;
        proof {
            let d = crate::model::AllV { active: self.current_project_index, ..self.all_projects.deep_view() };
            assert(d.projects[cur as int].tasks.len() < u32::MAX - 2);
            assert(tasks.deep_view() == self.tasks_v());
        }
        let l = match task_labels(tasks) {
            Some(l) => l,
            None => {
                return None;
            },
        };
        let vis = self.all_projects.column_visibility;
        let id_w = match widest_cell(&l, tasks, 0) {
            Some(w) => w,
            None => {
                return None;
            },
        };
        let name_w = match widest_cell(&l, tasks, 1) {
            Some(w) => w,
            None => {
                return None;
            },
        };
        let c0 = match column_of(larger_of(id_w, text_width("ID")), 2) {
            Some(c) => c,
            None => {
                return None;
            },
        };
        let c1 = match column_of(larger_of(name_w, text_width("Name")), 14) {
            Some(c) => c,
            None => {
                return None;
            },
        };
        let c2 = if vis.assigned_to {
            let w = match widest_cell(&l, tasks, 2) {
                Some(w) => w,
                None => {
                    return None;
                },
            };
            match column_of(larger_of(w, text_width("Assigned")), 2) {
                Some(c) => c,
                None => {
                    return None;
                },
            }
        } else {
            0
        };
        let c3 = if vis.start_date {
            match column_of(text_width("mm/dd/yyyy"), 2) {
                Some(c) => c,
                None => {
                    return None;
                },
            }
        } else {
            0
        };
        let c4 = if vis.end_date {
            match column_of(text_width("mm/dd/yyyy"), 2) {
                Some(c) => c,
                None => {
                    return None;
                },
            }
        } else {
            0
        };
        let c5 = if vis.duration {
            match column_of(larger_of(text_width("Dur"), 4), 2) {
                Some(c) => c,
                None => {
                    return None;
                },
            }
        } else {
            0
        };
        let c6 = if vis.progress {
            match column_of(larger_of(text_width("Prog%"), 4), 2) {
                Some(c) => c,
                None => {
                    return None;
                },
            }
        } else {
            0
        };
        let c7 = if vis.dependencies {
            let w = match widest_cell(&l, tasks, 3) {
                Some(w) => w,
                None => {
                    return None;
                },
            };
            match column_of(larger_of(w, text_width("Deps")), 2) {
                Some(c) => c,
                None => {
                    return None;
                },
            }
        } else {
            0
        };
        let mut v: Vec<u16> = Vec::new();
        v.push(c0);
        v.push(c1);
        v.push(c2);
        v.push(c3);
        v.push(c4);
        v.push(c5);
        v.push(c6);
        v.push(c7);
        proof {
            let ws = column_widths(*self);
            assert(ws is Some);
            assert(v@ =~= ws->0);
        }
        Some(v)
    }
}

/// How a row of the task table is shown.
pub enum RowKind {
    /// The task is done.
    Done,
    /// The task ended before today and is not done.
    Overdue,
    /// Today lies within the task; `elapsed` days of `total` have begun.
    Current { elapsed: i64, total: i64 },
    /// None of these.
    Plain,
}

/// The kind of a task's row on day `today`.
pub open spec fn row_kind(t: TaskV, today: int) -> RowKind {
    if t.progress == 100 {
        RowKind::Done
    } else if t.end is Some && today > t.end->0 {
        RowKind::Overdue
    } else if t.start is Some && t.end is Some && t.start->0 <= today <= t.end->0 {
        RowKind::Current {
            elapsed: (today - t.start->0 + 1) as i64,
            total: (t.end->0 - t.start->0 + 1) as i64,
        }
    } else {
        RowKind::Plain
    }
}

/// The kind of a task's row on day `today`.
pub fn task_row_kind(t: &Task, today: &Date) -> (r: RowKind)
    ensures
        r == row_kind(t.deep_view(), today@),
{
    if t.progress == 100 {
        return RowKind::Done;
    }
    match t.end_date {
        Some(e) => {
            if e.before(today) {
                return RowKind::Overdue;
            }
            match t.start_date {
                Some(s) => {
                    if !today.before(&s) {
                        let elapsed = today.days_since(&s) + 1;
                        let total = e.days_since(&s) + 1;
                        return RowKind::Current { elapsed, total };
                    }
                },
                None => {},
            }
        },
        None => {},
    }
    RowKind::Plain
}

} // verus!
