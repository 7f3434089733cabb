//! What the timeline shows: the cell of a task's bar on each day, which tasks are
//! drawn as parents, and how the entries of the todo list are emphasised.

use vstd::prelude::*;
use crate::model::{Task, TaskV, TodoItem, TodoV};
use crate::date::{Date, valid_day};
use crate::todo::has_text;
use crate::text::text_eq;

verus! {

/// Whether some task names `id` as its parent.
pub open spec fn has_children(tasks: Seq<TaskV>, id: u32) -> bool {
    exists|i: int| 0 <= i < tasks.len() && (#[trigger] tasks[i]).parent_id == Some(id)
}

/// Whether the task with id `id` is drawn as a parent bar: some task names it as its parent.
pub fn is_parent(tasks: &Vec<Task>, id: u32) -> (r: bool)
    ensures
        r == has_children(tasks.deep_view(), id),
{
    let ghost tv = tasks.deep_view();
    let mut i: usize = 0;
    while i < tasks.len()
        invariant
            i <= tasks@.len(),
            tv == tasks.deep_view(),
            forall|j: int| 0 <= j < i ==> (#[trigger] tv[j]).parent_id != Some(id),
        decreases tasks@.len() - i,
    {
        match tasks[i].parent_id {
            Some(p) => {
                if p == id {
                    proof {
                        assert(tv[i as int].parent_id == Some(id));
                    }
                    return true;
                }
            },
            None => {},
        }
        i = i + 1;
    }
    false
}

/// The text of one day of a task's bar, for the day `day` of a task from `start` to `end`
/// whose work is done up to and including `done_until`; `parent` bars are drawn as brackets,
/// `today` carries a mark, and a `compact` timeline gives one column to a day instead of three.
pub open spec fn bar_glyph(
    day: int,
    start: int,
    end: int,
    done_until: int,
    parent: bool,
    today: int,
    compact: bool,
) -> Seq<char> {
    let task_day = start <= day && day <= end;
    let is_today = day == today;
    let done = day <= done_until;
    if compact {
        if task_day {
            if parent {
                if day == start { "["@ } else if day == end { "]"@ } else { "="@ }
            } else if is_today {
                "|"@
            } else if done {
                "\u{2591}"@
            } else {
                "\u{2588}"@
            }
        } else if is_today {
            "|"@
        } else {
            " "@
        }
    } else if task_day {
        if parent {
            if day == start { "[=="@ } else if day == end { "==]"@ } else { "==="@ }
        } else if is_today {
            if done { "|\u{2591}\u{2591}"@ } else { "|\u{2588}\u{2588}"@ }
        } else if done {
            "\u{2591}\u{2591}\u{2591}"@
        } else {
            "\u{2588}\u{2588}\u{2588}"@
        }
    } else if is_today {
        "|  "@
    } else {
        "   "@
    }
}

/// The text of one day of a task's bar (see [`bar_glyph`]).
pub fn bar_cell(
    day: &Date,
    start: &Date,
    end: &Date,
    done_until: &Date,
    parent: bool,
    today: &Date,
    compact: bool,
) -> (r: String)
    ensures
        r@ == bar_glyph(day@, start@, end@, done_until@, parent, today@, compact),
{
    let task_day = !day.before(start) && !end.before(day);
    let is_today = day.same_day(today);
    let done = !done_until.before(day);
    if compact {
        if task_day {
            if parent {
                if day.same_day(start) {
                    String::from_str("[")
                } else if day.same_day(end) {
                    String::from_str("]")
                } else {
                    String::from_str("=")
                }
            } else if is_today {
                String::from_str("|")
            } else if done {
                String::from_str("\u{2591}")
            } else {
                String::from_str("\u{2588}")
            }
        } else if is_today {
            String::from_str("|")
        } else {
            String::from_str(" ")
        }
    } else if task_day {
        if parent {
            if day.same_day(start) {
                String::from_str("[==")
            } else if day.same_day(end) {
                String::from_str("==]")
            } else {
                String::from_str("===")
            }
        } else if is_today {
            if done {
                String::from_str("|\u{2591}\u{2591}")
            } else {
                String::from_str("|\u{2588}\u{2588}")
            }
        } else if done {
            String::from_str("\u{2591}\u{2591}\u{2591}")
        } else {
            String::from_str("\u{2588}\u{2588}\u{2588}")
        }
    } else if is_today {
        String::from_str("|  ")
    } else {
        String::from_str("   ")
    }
}

/// How an entry of the todo list is shown.
#[derive(Clone, Copy, PartialEq, Eq, Structural)]
pub enum Emphasis {
    /// The entry is completed (greyed and struck through).
    Completed,
    /// An open entry among the first three (bold).
    Top,
    /// An open entry after the first three, once those three are all completed.
    Open,
    /// An open entry after the first three while one of those is still open (dimmed).
    Dimmed,
}

/// Whether every entry among the first three is completed.
pub open spec fn first_three_done(todos: Seq<TodoV>) -> bool {
    forall|j: int| 0 <= j < todos.len() && j < 3 ==> (#[trigger] todos[j]).completed
}

/// How entry `i` of the todo list is shown.
pub open spec fn emphasis(todos: Seq<TodoV>, i: int) -> Emphasis {
    if todos[i].completed {
        Emphasis::Completed
    } else if i < 3 {
        Emphasis::Top
    } else if first_three_done(todos) {
        Emphasis::Open
    } else {
        Emphasis::Dimmed
    }
}

/// How entry `i` of the todo list is shown (see [`emphasis`]).
pub fn entry_emphasis(todos: &Vec<TodoItem>, i: usize) -> (r: Emphasis)
    requires
        i < todos@.len(),
    ensures
        r == emphasis(todos.deep_view(), i as int),
{
    let ghost tv = todos.deep_view();
    if todos[i].completed {
        return Emphasis::Completed;
    }
    if i < 3 {
        return Emphasis::Top;
    }
    let mut j: usize = 0;
    while j < 3 && j < todos.len()
        invariant
            j <= 3,
            j <= todos@.len(),
            tv == todos.deep_view(),
            3 <= i < tv.len(),
            !tv[i as int].completed,
            forall|k: int| 0 <= k < j ==> (#[trigger] tv[k]).completed,
        decreases 3 - j,
    {
        if !todos[j].completed {
            proof {
                assert(!tv[j as int].completed);
            }
            return Emphasis::Dimmed;
        }
        j = j + 1;
    }
    Emphasis::Open
}


/// Whether a task's row is highlighted for the todo list: some todo entry has the task's
/// name as its text.
pub fn todo_highlighted(task: &Task, todos: &Vec<TodoItem>) -> (r: bool)
    ensures
        r == has_text(todos.deep_view(), task.name@),
{
    let ghost tv = todos.deep_view();
    let mut i: usize = 0;
    while i < todos.len()
        invariant
            i <= todos@.len(),
            tv == todos.deep_view(),
            forall|k: int| 0 <= k < i ==> (#[trigger] tv[k]).text != task.name@,
        decreases todos@.len() - i,
    {
        if text_eq(todos[i].text.as_str(), task.name.as_str()) {
            proof {
                assert(tv[i as int].text == task.name@);
            }
            return true;
        }
        i = i + 1;
    }
    false
}

/// How a day of the timeline's header is marked.
#[derive(Clone, Copy, PartialEq, Eq, Structural)]
pub enum HeaderMark {
    /// Today.
    Today,
    /// The project's deadline (when it is not today).
    Deadline,
    /// Neither.
    Plain,
}

/// The mark of day `day` in the header, with `today` and the project's `deadline`.
pub open spec fn header_mark_of(day: int, today: int, deadline: Option<int>) -> HeaderMark {
    if day == today {
        HeaderMark::Today
    } else if deadline == Some(day) {
        HeaderMark::Deadline
    } else {
        HeaderMark::Plain
    }
}

/// The mark of a day in the timeline's header (see [`header_mark_of`]).
pub fn header_mark(day: &Date, today: &Date, deadline: &Option<Date>) -> (r: HeaderMark)
    ensures
        r == header_mark_of(day@, today@, crate::date::day_of(*deadline)),
{
    if day.same_day(today) {
        HeaderMark::Today
    } else {
        match deadline {
            Some(d) => if d.same_day(day) { HeaderMark::Deadline } else { HeaderMark::Plain },
            None => HeaderMark::Plain,
        }
    }
}

/// The number of days the timeline shows in `width` columns: one per column in a compact
/// timeline, one per three columns otherwise, and one more for the last, partly shown day.
pub open spec fn shown_days(width: u16, compact: bool) -> int {
    (if compact { width as int } else { width as int / 3 }) + 1
}

/// The days that the timeline shows, from `first` on; `None` where the last of them lies
/// outside the supported range.
pub fn timeline_days(first: &Date, width: u16, compact: bool) -> (r: Option<Vec<Date>>)
    ensures
        r is Some <==> valid_day(first@ + shown_days(width, compact) - 1),
        r matches Some(v) ==> v@.len() == shown_days(width, compact)
            && forall|i: int| 0 <= i < v@.len() ==> (#[trigger] v@[i])@ == first@ + i,
{
    let count: u32 = if compact { width as u32 + 1 } else { width as u32 / 3 + 1 };
    match first.add_days((count - 1) as i64) {
        None => {
            return None;
        },
        Some(_) => {},
    }
    let _f: i32 = first.day();
    let mut v: Vec<Date> = Vec::new();
    let mut i: u32 = 0;
    while i < count
        invariant
            count == shown_days(width, compact),
            valid_day(first@),
            valid_day(first@ + count - 1),
            i <= count,
            v@.len() == i,
            forall|k: int| 0 <= k < i ==> (#[trigger] v@[k])@ == first@ + k,
        decreases count - i,
    {
        let d = first.add_days(i as i64).unwrap();
        v.push(d);
        i = i + 1;
    }
    Some(v)
}

} // verus!
