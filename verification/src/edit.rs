//! Editing a field: the text that the edit starts from, and what saving the edited text does.

use vstd::prelude::*;
use crate::date::{Date, day_of, format_mdy, formatted_mdy, parse_mdy, parsed_mdy, local_today};
use crate::model::{AllV, ProjectData, ProjectV, SubtaskV, Task, TaskV, TodoItem, TodoV};
use crate::subtasks::{step_selected, with_steps, step_after_removal};
use crate::app::{App, FocusArea, ProjectField, TaskField};
use crate::hierarchy::chains_end;
use crate::labels::{Labels, labels, lookup_label, entries_view, task_labels};
use crate::text::{
    decimal, signed_decimal, u64_to_text, i64_to_text, lowercased, to_lowercase, text_eq, trim, trim_text,
    parse_unsigned, parse_signed, parse_u8, unsigned_digits, read_percent, parse_u32, parse_i64, split_commas, split_at_commas, substring,
};
use crate::lookup::{first_with_id, find_first};
use crate::schedule::ids_contain;

verus! {

/// The text of an optional date: `mm/dd/yy`, or nothing.
pub open spec fn date_text(d: Option<int>) -> Seq<char> {
    match d {
        Some(x) => formatted_mdy(x),
        None => Seq::empty(),
    }
}

/// The label shown for a dependency: the label of the task with that id, or `?`.
pub open spec fn dep_label(entries: Seq<(u32, Seq<char>)>, d: u32) -> Seq<char> {
    match lookup_label(entries, d) {
        Some(l) => l,
        None => seq!['?'],
    }
}

/// The labels of a list of dependencies, separated by `, `.
pub open spec fn deps_text(entries: Seq<(u32, Seq<char>)>, deps: Seq<u32>) -> Seq<char>
    decreases deps.len(),
{
    if deps.len() == 0 {
        Seq::empty()
    } else if deps.len() == 1 {
        dep_label(entries, deps[0])
    } else {
        deps_text(entries, deps.drop_last()) + ", "@ + dep_label(entries, deps.last())
    }
}

/// The text that editing a task field starts from; `None` where the labels cannot be computed
/// (a cycle of parents, on which the walk never ends).
pub open spec fn task_field_text(tasks: Seq<TaskV>, t: TaskV, f: TaskField) -> Option<Seq<char>> {
    match f {
        TaskField::Name => Some(t.name),
        TaskField::AssignedTo => Some(t.assigned_to),
        TaskField::Duration => Some(signed_decimal(t.duration as int)),
        TaskField::Progress => Some(decimal(t.progress as nat)),
        TaskField::Dependencies => if chains_end(tasks) {
            Some(deps_text(labels(tasks), t.dependencies))
        } else {
            None
        },
        TaskField::EndDate => Some(date_text(t.end)),
        TaskField::StartDate => Some(date_text(t.manual_start)),
    }
}

/// The text that editing starts from: `None` where the operation fails, `Some(None)` where the
/// edit buffer is left as it is, and `Some(Some(t))` where it becomes `t`.
pub open spec fn buffer_text(a: App) -> Option<Option<Seq<char>>> {
    let p = a.project_v();
    match a.focus_area {
        FocusArea::Project(ProjectField::Name) => Some(Some(p.name)),
        FocusArea::Project(ProjectField::StartDate) => Some(Some(formatted_mdy(p.start))),
        FocusArea::Project(ProjectField::EndDate) => Some(Some(date_text(p.end))),
        FocusArea::Project(ProjectField::DayOffset) => Some(Some(signed_decimal(p.day_offset as int))),
        FocusArea::Tasks => match a.selected_task {
            None => Some(None),
            Some(i) => if i >= p.tasks.len() {
                None
            } else {
                match task_field_text(p.tasks, p.tasks[i as int], a.selected_task_field) {
                    Some(s) => Some(Some(s)),
                    None => None,
                }
            },
        },
        FocusArea::TodoList => {
            let todos = a.all_projects.todo_list.deep_view();
            match step_selected(a) {
                Some((i, s)) => Some(Some(todos[i].subtasks[s].text)),
                None => match a.selected_todo {
                Some(i) => if i < todos.len() {
                    Some(Some(if a.editing_todo_name { todos[i as int].text } else { todos[i as int].description }))
                } else {
                    Some(None)
                },
                None => Some(None),
                },
            }
        },
        FocusArea::NtfyTopic => Some(Some(
            match a.all_projects.ntfy_topic.deep_view() {
                Some(t) => t,
                None => Seq::empty(),
            },
        )),
    }
}

/// The text of an optional date.
pub fn optional_date_text(d: &Option<Date>) -> (r: String)
    ensures
        r@ == date_text(day_of(*d)),
{
    match d {
        Some(x) => format_mdy(x),
        None => String::new(),
    }
}

fn dep_label_text(labels: &Labels, d: u32) -> (r: String)
    ensures
        r@ == dep_label(entries_view(labels.entries@), d),
{
    match labels.get(d) {
        Some(l) => l,
        None => {
            proof {
                reveal_strlit("?");
            }
            String::from_str("?")
        },
    }
}

/// The labels of a list of dependencies, separated by `, `.
pub fn dependencies_text(labels: &Labels, deps: &Vec<u32>) -> (r: String)
    ensures
        r@ == deps_text(entries_view(labels.entries@), deps@),
{
    let ghost ev = entries_view(labels.entries@);
    let mut r = String::new();
    let mut i: usize = 0;
    while i < deps.len()
        invariant
            ev == entries_view(labels.entries@),
            i <= deps@.len(),
            r@ == deps_text(ev, deps@.take(i as int)),
        decreases deps@.len() - i,
    {
        proof {
            assert(deps@.take(i + 1).drop_last() =~= deps@.take(i as int));
            assert(deps@.take(i + 1).last() == deps@[i as int]);
        }
        let part = dep_label_text(labels, deps[i]);
        if i > 0 {
            r.append(", ");
        } else {
            proof {
                assert(deps@.take(1) =~= seq![deps@[0]]);
            }
        }
        r.append(part.as_str());
        i = i + 1;
    }
    assert(deps@.take(i as int) =~= deps@);
    r
}

/// The text that editing a field of a task starts from.
pub fn task_field_buffer(tasks: &Vec<Task>, i: usize, f: TaskField) -> (r: Option<String>)
    requires
        i < tasks@.len(),
        tasks@.len() < u32::MAX - 2,
    ensures
        match task_field_text(tasks.deep_view(), tasks.deep_view()[i as int], f) {
            Some(s) => r matches Some(x) && x@ == s,
            None => r is None,
        },
{
    let t = &tasks[i];
    proof {
        assert(tasks.deep_view()[i as int] == t.deep_view());
    }
    match f {
        TaskField::Name => Some(t.name.clone()),
        TaskField::AssignedTo => Some(t.assigned_to.clone()),
        TaskField::Duration => Some(i64_to_text(t.duration)),
        TaskField::Progress => Some(u64_to_text(t.progress as u64)),
        TaskField::Dependencies => match task_labels(tasks) {
            Some(l) => Some(dependencies_text(&l, &t.dependencies)),
            None => None,
        },
        TaskField::EndDate => Some(optional_date_text(&t.end_date)),
        TaskField::StartDate => Some(optional_date_text(&t.manual_start_date)),
    }
}

impl App {
    /// Fills the edit buffer with the current text of the focused field.  `ok` is `false`
    /// exactly where the operation fails: the task selection is past the last task, or the
    /// labels for the dependencies cannot be computed.
    pub fn load_buffer_for_editing(&mut self) -> (ok: bool)
        requires
            old(self).wf(),
        ensures
            load_buffer_for_editing_post(*old(self), *final(self), ok),

    {
        let cur = self.current_project_index;
        proof {
            assert(self.project_v() == self.all_projects.projects@[cur as int].deep_view());
        }
        let text: String = match self.focus_area {
            FocusArea::Project(ProjectField::Name) => self.all_projects.projects[cur].project_name.clone(),
            FocusArea::Project(ProjectField::StartDate) => format_mdy(&self.all_projects.projects[cur].project_start_date),
            FocusArea::Project(ProjectField::EndDate) => optional_date_text(&self.all_projects.projects[cur].project_end_date),
            FocusArea::Project(ProjectField::DayOffset) => i64_to_text(self.all_projects.projects[cur].day_offset),
            FocusArea::Tasks => {
                match self.selected_task {
                    Some(i) => {
                        if i >= self.all_projects.projects[cur].tasks.len() {
                            return false;
                        }
                        proof {
                            let d = crate::model::AllV { active: self.current_project_index, ..self.all_projects.deep_view() };
                            assert(d.projects[cur as int].tasks.len() < u32::MAX - 2);
                        }
                        match task_field_buffer(&self.all_projects.projects[cur].tasks, i, self.selected_task_field) {
                            Some(s) => s,
                            None => {
                                return false;
                            },
                        }
                    },
                    None => {
                        return true;
                    },
                }
            },
            FocusArea::TodoList => {
                match self.selected_step() {
                    Some((i, s)) => {
                        proof {
                            assert(self.all_projects.todo_list.deep_view()[i as int].subtasks == self.all_projects.todo_list@[i as int].subtasks.deep_view());
                        }
                        self.all_projects.todo_list[i].subtasks[s].text.clone()
                    },
                    None => match self.selected_todo {
                    Some(i) => {
                        if i < self.all_projects.todo_list.len() {
                            if self.editing_todo_name {
                                self.all_projects.todo_list[i].text.clone()
                            } else {
                                self.all_projects.todo_list[i].description.clone()
                            }
                        } else {
                            return true;
                        }
                    },
                    None => {
                        return true;
                    },
                    },
                }
            },
            FocusArea::NtfyTopic => {
                match &self.all_projects.ntfy_topic {
                    Some(t) => t.clone(),
                    None => String::new(),
                }
            },
        };
        self.input_buffer = text;
        true
    }
}

/// Whether a text asks for today's date (`today`, in any case).
pub open spec fn is_today(s: Seq<char>) -> bool {
    lowercased(s) == "today"@
}

/// The date that an edited text names, with `now` for `today`.
pub open spec fn date_input(s: Seq<char>, now: int) -> Option<int> {
    if is_today(s) {
        Some(now)
    } else {
        parsed_mdy(s)
    }
}

/// The message for a text that names no date.
pub open spec fn bad_date_message() -> Seq<char> {
    "Invalid date format. Please use mm/dd/yyyy or 'today'."@
}

/// The id whose label (the last one recorded for it) is `text`, searching the entries from
/// the end while skipping ids in `seen`, whose labels were recorded later.
pub open spec fn owner_from(entries: Seq<(u32, Seq<char>)>, text: Seq<char>, seen: Set<u32>) -> Option<u32>
    decreases entries.len(),
{
    if entries.len() == 0 {
        None
    } else {
        let e = entries.last();
        if !seen.contains(e.0) && e.1 == text {
            Some(e.0)
        } else {
            owner_from(entries.drop_last(), text, seen.insert(e.0))
        }
    }
}

/// The id that has the label `text`; where several have it, the one whose label was
/// recorded last.
pub open spec fn label_owner(entries: Seq<(u32, Seq<char>)>, text: Seq<char>) -> Option<u32> {
    owner_from(entries, text, Set::empty())
}

/// The dependency that one comma-separated piece of the edited text names: a label, or else
/// the id of an existing task.
pub open spec fn dep_of_piece(entries: Seq<(u32, Seq<char>)>, tasks: Seq<TaskV>, piece: Seq<char>) -> Option<u32> {
    let tr = trim(piece);
    match label_owner(entries, tr) {
        Some(id) => Some(id),
        None => match parse_unsigned(tr, 4294967295) {
            Some(v) => if first_with_id(tasks, v as u32) is Some {
                Some(v as u32)
            } else {
                None
            },
            None => None,
        },
    }
}

/// The dependencies that the pieces name, in order, skipping pieces that name none.
pub open spec fn deps_of_pieces(entries: Seq<(u32, Seq<char>)>, tasks: Seq<TaskV>, pieces: Seq<Seq<char>>) -> Seq<u32>
    decreases pieces.len(),
{
    if pieces.len() == 0 {
        Seq::empty()
    } else {
        let r = deps_of_pieces(entries, tasks, pieces.drop_last());
        match dep_of_piece(entries, tasks, pieces.last()) {
            Some(d) => r.push(d),
            None => r,
        }
    }
}

/// Some piece that is not blank names no dependency.
pub open spec fn pieces_dropped(entries: Seq<(u32, Seq<char>)>, tasks: Seq<TaskV>, pieces: Seq<Seq<char>>) -> bool
    decreases pieces.len(),
{
    if pieces.len() == 0 {
        false
    } else {
        pieces_dropped(entries, tasks, pieces.drop_last())
            || (trim(pieces.last()).len() > 0 && dep_of_piece(entries, tasks, pieces.last()) is None)
    }
}

/// The warning that the edited dependencies named something that is no task.
pub open spec fn dropped_deps_message() -> Seq<char> {
    "Some dependency IDs were not recognized and were dropped."@
}

/// A duration `s` times `k`: the old duration where `s` is no number, `None` where the product
/// leaves `i64` (the arithmetic overflows).
pub open spec fn scaled_duration(s: Seq<char>, k: int, old: i64) -> Option<i64> {
    match parse_signed(s, i64::MIN as int, i64::MAX as int) {
        Some(v) => if i64::MIN <= v * k <= i64::MAX {
            Some((v * k) as i64)
        } else {
            None
        },
        None => Some(old),
    }
}

/// The duration that an edited text gives: a number of days, or of weeks (`w`), months of
/// 30 days (`m`) or years of 365 days (`y`).
pub open spec fn duration_input(s: Seq<char>, old: i64) -> Option<i64> {
    let tr = trim(s);
    if tr.len() > 0 && tr.last() == 'w' {
        scaled_duration(tr.drop_last(), 7, old)
    } else if tr.len() > 0 && tr.last() == 'm' {
        scaled_duration(tr.drop_last(), 30, old)
    } else if tr.len() > 0 && tr.last() == 'y' {
        scaled_duration(tr.drop_last(), 365, old)
    } else {
        match parse_signed(tr, i64::MIN as int, i64::MAX as int) {
            Some(v) => Some(v as i64),
            None => Some(old),
        }
    }
}

/// The progress that an edited text gives: the number it writes, of any size, with every
/// value above 100 cut to 100; the old progress where the text is not a number.
pub open spec fn progress_input(s: Seq<char>, old: u8) -> u8 {
    match unsigned_digits(s) {
        Some(v) => (if v > 100 { 100 } else { v }) as u8,
        None => old,
    }
}

/// Saving the edited text `s` into field `f` of task `i`: the new task and the new status
/// message, if any; `None` where the operation fails (the labels for the dependencies cannot
/// be computed, or a duration overflows).
pub open spec fn task_saved(tasks: Seq<TaskV>, i: int, f: TaskField, s: Seq<char>, now: int) -> Option<(TaskV, Option<Seq<char>>)> {
    let t = tasks[i];
    match f {
        TaskField::Name => Some((TaskV { name: s, ..t }, None)),
        TaskField::AssignedTo => Some((TaskV { assigned_to: s, ..t }, None)),
        TaskField::Dependencies => if chains_end(tasks) {
            let deps = deps_of_pieces(labels(tasks), tasks, split_commas(s));
            Some((TaskV {
                dependencies: deps,
                manual_start: if deps.len() > 0 { None } else { t.manual_start },
                ..t
            }, if pieces_dropped(labels(tasks), tasks, split_commas(s)) { Some(dropped_deps_message()) } else { None }))
        } else {
            None
        },
        TaskField::EndDate => match date_input(s, now) {
            None => Some((t, Some(bad_date_message()))),
            Some(end) => match t.start {
                Some(st) => if end - st + 1 >= 1 {
                    Some((TaskV { duration: (end - st + 1) as i64, ..t }, None))
                } else {
                    Some((t, Some("End date must be on or after start date."@)))
                },
                None => Some((t, Some("Cannot set end date: task has no start date yet."@))),
            },
        },
        TaskField::Duration => match duration_input(s, t.duration) {
            Some(d) => Some((TaskV { duration: d, ..t }, None)),
            None => None,
        },
        TaskField::Progress => Some((TaskV { progress: progress_input(s, t.progress), ..t }, None)),
        TaskField::StartDate => if s.len() == 0 {
            Some((TaskV { manual_start: None, ..t }, None))
        } else {
            match date_input(s, now) {
                None => Some((t, Some(bad_date_message()))),
                Some(ns) => match t.end {
                    Some(e) => if e - ns + 1 < 1 {
                        Some((t, Some("Start date must be before end date."@)))
                    } else {
                        Some((
                            TaskV { duration: (e - ns + 1) as i64, manual_start: Some(ns), dependencies: Seq::empty(), ..t },
                            if t.dependencies.len() > 0 { Some("Dependencies cleared for task with manual start date."@) } else { None },
                        ))
                    },
                    None => Some((
                        TaskV { manual_start: Some(ns), dependencies: Seq::empty(), ..t },
                        if t.dependencies.len() > 0 { Some("Dependencies cleared for task with manual start date."@) } else { None },
                    )),
                },
            }
        },
    }
}

/// Saving a start date that reads as a date, and is not after the task's end where it has one,
/// makes it the task's manual start and clears the task's dependencies (a task with a manual
/// start does not wait for others); the message says so where there were dependencies.  The
/// task keeps its id, name, parent and progress.
pub proof fn law_start_date_clears_dependencies(tasks: Seq<TaskV>, i: int, s: Seq<char>, now: int)
    requires
        0 <= i < tasks.len(),
        s.len() > 0,
        date_input(s, now) is Some,
        tasks[i].end matches Some(e) ==> e - date_input(s, now)->0 + 1 >= 1,
    ensures
        task_saved(tasks, i, TaskField::StartDate, s, now) matches Some((t2, msg)) && {
            &&& t2.dependencies.len() == 0
            &&& t2.manual_start == date_input(s, now)
            &&& t2.id == tasks[i].id
            &&& t2.name == tasks[i].name
            &&& t2.parent_id == tasks[i].parent_id
            &&& t2.progress == tasks[i].progress
            &&& (msg is Some <==> tasks[i].dependencies.len() > 0)
        },
{
}

/// A duration is read in days, or, with `w`, `m` or `y` after the number, in weeks of 7 days,
/// months of 30 days or years of 365 days; surrounding blanks do not matter, a text that is no
/// number keeps the old duration, and a product that leaves `i64` fails.
pub proof fn law_duration_units(s: Seq<char>, old: i64)
    ensures
        ({
            let tr = trim(s);
            let unit: int = if tr.len() > 0 && tr.last() == 'w' {
                7
            } else if tr.len() > 0 && tr.last() == 'm' {
                30
            } else if tr.len() > 0 && tr.last() == 'y' {
                365
            } else {
                1
            };
            let num = if unit == 1 { tr } else { tr.drop_last() };
            match parse_signed(num, i64::MIN as int, i64::MAX as int) {
                Some(v) => duration_input(s, old) == if unit == 1 {
                    Some(v as i64)
                } else if i64::MIN <= v * unit <= i64::MAX {
                    Some((v * unit) as i64)
                } else {
                    None::<i64>
                },
                None => duration_input(s, old) == Some(old),
            }
        }),
{
    let tr = trim(s);
}

/// Saving a field changes that field alone: a name or an assignee is the text as typed; the
/// progress is the number typed, cut to 100 (the old progress where no number is typed); an end
/// date on or after the task's start makes the task last from its start to that end, both days
/// counted.
pub proof fn law_field_saves(tasks: Seq<TaskV>, i: int, s: Seq<char>, now: int)
    requires
        0 <= i < tasks.len(),
    ensures
        ({
            let t = tasks[i];
            &&& task_saved(tasks, i, TaskField::Name, s, now) == Some((TaskV { name: s, ..t }, None::<Seq<char>>))
            &&& task_saved(tasks, i, TaskField::AssignedTo, s, now) == Some((TaskV { assigned_to: s, ..t }, None::<Seq<char>>))
            &&& task_saved(tasks, i, TaskField::Progress, s, now) matches Some((t2, None)) && t2 == TaskV { progress: t2.progress, ..t }
            &&& task_saved(tasks, i, TaskField::Progress, s, now) matches Some((t2, None)) && match unsigned_digits(s) {
                    Some(v) => (v > 100 ==> t2.progress == 100) && (0 <= v <= 100 ==> t2.progress == v),
                    None => t2.progress == t.progress,
                }
            &&& date_input(s, now) is Some && t.start is Some && t.start->0 <= date_input(s, now)->0 ==> {
                &&& task_saved(tasks, i, TaskField::EndDate, s, now) matches Some((t2, None))
                    && t2 == TaskV { duration: t2.duration, ..t }
                    && t2.duration == (date_input(s, now)->0 - t.start->0 + 1) as i64
            }
        }),
{
    match unsigned_digits(s) {
        Some(v) => {},
        None => {},
    }
}

/// Whether the text asks for today's date.
fn text_is_today(s: &str) -> (r: bool)
    ensures
        r == is_today(s@),
{
    let low = to_lowercase(s);
    text_eq(low.as_str(), "today")
}

/// The date that an edited text names, with `now` for `today`.
pub fn read_date_input(s: &str, now: Date) -> (r: Option<Date>)
    ensures
        day_of(r) == date_input(s@, now@),
{
    if text_is_today(s) {
        Some(now)
    } else {
        parse_mdy(s)
    }
}

/// The id that has the label `text`.
pub fn find_label_owner(labels: &Labels, text: &str) -> (r: Option<u32>)
    ensures
        r == label_owner(entries_view(labels.entries@), text@),
{
    let ghost ev = entries_view(labels.entries@);
    let mut seen: Vec<u32> = Vec::new();
    let mut i = labels.entries.len();
    proof {
        assert(ev.take(i as int) =~= ev);
        assert(seen@.to_set() =~= Set::<u32>::empty());
    }
    while i > 0
        invariant
            i <= labels.entries@.len(),
            ev == entries_view(labels.entries@),
            label_owner(ev, text@) == owner_from(ev.take(i as int), text@, seen@.to_set()),
        decreases i,
    {
        proof {
            assert(ev.take(i as int).drop_last() =~= ev.take(i - 1));
            assert(ev.take(i as int).last() == ev[i - 1]);
        }
        let id = labels.entries[i - 1].0;
        let is_seen = ids_contain(&seen, id);
        proof {
            assert(is_seen == seen@.to_set().contains(id));
        }
        if !is_seen && text_eq(labels.entries[i - 1].1.as_str(), text) {
            return Some(id);
        }
        let ghost s0 = seen@;
        seen.push(id);
        proof {
            s0.lemma_push_to_set_commute(id);
            assert(seen@ == s0.push(id));
        }
        i = i - 1;
    }
    None
}

/// The dependency that one piece of the edited text names.
fn dep_from_piece(labels: &Labels, tasks: &Vec<Task>, piece: &str) -> (r: Option<u32>)
    ensures
        r == dep_of_piece(entries_view(labels.entries@), tasks.deep_view(), piece@),
{
    let tr = trim_text(piece);
    match find_label_owner(labels, tr.as_str()) {
        Some(id) => Some(id),
        None => match parse_u32(tr.as_str()) {
            Some(v) => {
                if find_first(tasks, v).is_some() {
                    Some(v)
                } else {
                    None
                }
            },
            None => None,
        },
    }
}

/// The dependencies that an edited text names, and whether a piece that is not blank named
/// none.
pub fn deps_from_text(labels: &Labels, tasks: &Vec<Task>, s: &str) -> (r: (Vec<u32>, bool))
    ensures
        r.0@ == deps_of_pieces(entries_view(labels.entries@), tasks.deep_view(), split_commas(s@)),
        r.1 == pieces_dropped(entries_view(labels.entries@), tasks.deep_view(), split_commas(s@)),
{
    let pieces = split_at_commas(s);
    let ghost ps = split_commas(s@);
    let ghost ev = entries_view(labels.entries@);
    let mut r: Vec<u32> = Vec::new();
    let mut dropped = false;
    let mut i: usize = 0;
    while i < pieces.len()
        invariant
            ps == split_commas(s@),
            ev == entries_view(labels.entries@),
            pieces@.len() == ps.len(),
            forall|j: int| 0 <= j < pieces@.len() ==> #[trigger] pieces@[j]@ == ps[j],
            i <= pieces@.len(),
            r@ == deps_of_pieces(ev, tasks.deep_view(), ps.take(i as int)),
            dropped == pieces_dropped(ev, tasks.deep_view(), ps.take(i as int)),
        decreases pieces@.len() - i,
    {
        proof {
            assert(ps.take(i + 1).drop_last() =~= ps.take(i as int));
            assert(ps.take(i + 1).last() == ps[i as int]);
            assert(pieces@[i as int]@ == ps[i as int]);
        }
        match dep_from_piece(labels, tasks, pieces[i].as_str()) {
            Some(d) => r.push(d),
            None => {
                let tr = trim_text(pieces[i].as_str());
                if tr.unicode_len() > 0 {
                    dropped = true;
                }
            },
        }
        i = i + 1;
    }
    assert(ps.take(i as int) =~= ps);
    (r, dropped)
}

fn scaled(s: &str, k: i64, old: i64) -> (r: Option<i64>)
    requires
        k == 7 || k == 30 || k == 365,
    ensures
        r == scaled_duration(s@, k as int, old),
{
    match parse_i64(s) {
        Some(v) => v.checked_mul(k),
        None => Some(old),
    }
}

/// The duration that an edited text gives; `None` where it overflows.
pub fn read_duration(s: &str, old: i64) -> (r: Option<i64>)
    ensures
        r == duration_input(s@, old),
{
    let tr = trim_text(s);
    let n = tr.unicode_len();
    if n > 0 {
        let last = tr.get_char(n - 1);
        if last == 'w' || last == 'm' || last == 'y' {
            let body = substring(tr.as_str(), 0, n - 1);
            proof {
                assert(body@ =~= tr@.drop_last());
            }
            if last == 'w' {
                return scaled(body.as_str(), 7, old);
            } else if last == 'm' {
                return scaled(body.as_str(), 30, old);
            } else {
                return scaled(body.as_str(), 365, old);
            }
        }
    }
    match parse_i64(tr.as_str()) {
        Some(v) => Some(v),
        None => Some(old),
    }
}

/// The progress that an edited text gives.
pub fn read_progress(s: &str, old: u8) -> (r: u8)
    ensures
        r == progress_input(s@, old),
{
    match read_percent(s) {
        Some(v) => v,
        None => old,
    }
}

/// The value of an optional message.
pub open spec fn message_view(m: Option<String>) -> Option<Seq<char>> {
    match m {
        Some(x) => Some(x@),
        None => None,
    }
}

fn bad_date() -> (r: Option<String>)
    ensures
        message_view(r) == Some(bad_date_message()),
{
    Some(String::from_str("Invalid date format. Please use mm/dd/yyyy or 'today'."))
}

/// Saves the edited text `s` into field `f` of task `i`: the new task and the new status
/// message, if any; `None` where the operation fails.
pub fn saved_task(tasks: &Vec<Task>, i: usize, f: TaskField, s: &str, now: Date) -> (r: Option<(Task, Option<String>)>)
    requires
        i < tasks@.len(),
        tasks@.len() < u32::MAX - 2,
    ensures
        match task_saved(tasks.deep_view(), i as int, f, s@, now@) {
            Some((t, m)) => r matches Some((x, y)) && x.deep_view() == t && message_view(y) == m,
            None => r is None,
        },
{
    let mut t = tasks[i].copy();
    proof {
        assert(tasks.deep_view()[i as int] == t.deep_view());
    }
    match f {
        TaskField::Name => {
            t.name = String::from_str(s);
            Some((t, None))
        },
        TaskField::AssignedTo => {
            t.assigned_to = String::from_str(s);
            Some((t, None))
        },
        TaskField::Dependencies => {
            match task_labels(tasks) {
                Some(l) => {
                    let (deps, dropped) = deps_from_text(&l, tasks, s);
                    if deps.len() > 0 {
                        t.manual_start_date = None;
                    }
                    t.dependencies = deps;
                    let m = if dropped {
                        Some(String::from_str("Some dependency IDs were not recognized and were dropped."))
                    } else {
                        None
                    };
                    Some((t, m))
                },
                None => None,
            }
        },
        TaskField::EndDate => {
            match read_date_input(s, now) {
                None => Some((t, bad_date())),
                Some(end) => match t.start_date {
                    Some(st) => {
                        let nd = end.days_since(&st) + 1;
                        if nd >= 1 {
                            t.duration = nd;
                            Some((t, None))
                        } else {
                            Some((t, Some(String::from_str("End date must be on or after start date."))))
                        }
                    },
                    None => Some((t, Some(String::from_str("Cannot set end date: task has no start date yet.")))),
                },
            }
        },
        TaskField::Duration => {
            match read_duration(s, t.duration) {
                Some(d) => {
                    t.duration = d;
                    Some((t, None))
                },
                None => None,
            }
        },
        TaskField::Progress => {
            t.progress = read_progress(s, t.progress);
            Some((t, None))
        },
        TaskField::StartDate => {
            if s.unicode_len() == 0 {
                t.manual_start_date = None;
                return Some((t, None));
            }
            match read_date_input(s, now) {
                None => Some((t, bad_date())),
                Some(ns) => {
                    let nd: Option<i64> = match t.end_date {
                        Some(e) => Some(e.days_since(&ns) + 1),
                        None => None,
                    };
                    match nd {
                        Some(d) => {
                            if d < 1 {
                                return Some((t, Some(String::from_str("Start date must be before end date."))));
                            }
                            t.duration = d;
                        },
                        None => {},
                    }
                    t.manual_start_date = Some(ns);
                    let had_deps = t.dependencies.len() > 0;
                    t.dependencies = Vec::new();
                    let m = if had_deps {
                        Some(String::from_str("Dependencies cleared for task with manual start date."))
                    } else {
                        None
                    };
                    proof {
                        assert(t.dependencies@ =~= Seq::<u32>::empty());
                    }
                    Some((t, m))
                },
            }
        },
    }
}

/// Saving the edited text `s` into field `f` of a project: the new project and the new status
/// message, if any.
pub open spec fn project_saved(p: ProjectV, f: ProjectField, s: Seq<char>, now: int) -> (ProjectV, Option<Seq<char>>) {
    match f {
        ProjectField::Name => (ProjectV { name: s, ..p }, None),
        ProjectField::StartDate => match date_input(s, now) {
            Some(d) => (ProjectV { start: d, ..p }, None),
            None => (p, Some(bad_date_message())),
        },
        ProjectField::EndDate => if s.len() == 0 {
            (ProjectV { end: None, ..p }, None)
        } else {
            match date_input(s, now) {
                Some(d) => (ProjectV { end: Some(d), ..p }, None),
                None => (p, Some(bad_date_message())),
            }
        },
        ProjectField::DayOffset => match parse_signed(s, i64::MIN as int, i64::MAX as int) {
            Some(v) => (ProjectV { day_offset: v as i64, ..p }, None),
            None => (p, Some("Invalid number for day offset."@)),
        },
    }
}

/// The status message after an edit that may set one.
pub open spec fn status_after(a: App, m: Option<Seq<char>>) -> Seq<char> {
    match m {
        Some(x) => x,
        None => a.status_message@,
    }
}

/// `b` differs from `a` at most in the data, the status message, the todo selection, the
/// todo naming flag and the unsaved-changes flag.
pub open spec fn edit_fields_only(a: App, b: App) -> bool {
    b == App {
        all_projects: b.all_projects,
        status_message: b.status_message,
        selected_todo: b.selected_todo,
        editing_todo_name: b.editing_todo_name,
        is_dirty: b.is_dirty,
        ..a
    }
}

/// The saved data with the current project replaced.
pub open spec fn with_current(a: App, p: ProjectV) -> AllV {
    AllV {
        projects: a.all_projects.projects.deep_view().update(a.current_project_index as int, p),
        ..a.all_projects.deep_view()
    }
}

/// Saving the edit buffer into project field `f`.
pub open spec fn saved_in_project(a: App, b: App, f: ProjectField, now: int) -> bool {
    let r = project_saved(a.project_v(), f, a.input_buffer@, now);
    &&& b.wf()
    &&& edit_fields_only(a, b)
    &&& b.all_projects.deep_view() == with_current(a, r.0)
    &&& b.status_message@ == status_after(a, r.1)
    &&& b.selected_todo == a.selected_todo && b.editing_todo_name == a.editing_todo_name && b.is_dirty == a.is_dirty
}

/// Saving the edit buffer into the selected field of the selected task.
pub open spec fn saved_in_task(a: App, b: App, now: int, ok: bool) -> bool {
    let p = a.project_v();
    match a.selected_task {
        None => ok && b == a,
        Some(i) => if i >= p.tasks.len() {
            !ok
        } else {
            match task_saved(p.tasks, i as int, a.selected_task_field, a.input_buffer@, now) {
                None => !ok,
                Some((t, m)) => {
                    &&& ok
                    &&& b.wf()
                    &&& edit_fields_only(a, b)
                    &&& b.all_projects.deep_view() == with_current(a, ProjectV { tasks: p.tasks.update(i as int, t), ..p })
                    &&& b.status_message@ == status_after(a, m)
                    &&& b.selected_todo == a.selected_todo && b.editing_todo_name == a.editing_todo_name && b.is_dirty == a.is_dirty
                },
            }
        },
    }
}

/// The todo list after saving the edit buffer into the selected entry `i`: its text (an
/// empty name removes the entry) or its description.
pub open spec fn todos_saved(todos: Seq<TodoV>, i: int, naming: bool, s: Seq<char>) -> Seq<TodoV> {
    if naming {
        if trim(s).len() == 0 {
            todos.remove(i)
        } else {
            todos.update(i, TodoV { text: s, ..todos[i] })
        }
    } else {
        todos.update(i, TodoV { description: s, ..todos[i] })
    }
}

/// The todo selection after saving the edit buffer into the selected entry `i`.
pub open spec fn todo_selection_saved(n: int, i: usize, naming: bool, s: Seq<char>) -> Option<usize> {
    if naming && trim(s).len() == 0 {
        if n == 1 { None } else if i == 0 { Some(0usize) } else { Some((i - 1) as usize) }
    } else {
        Some(i)
    }
}

/// Saving the edit buffer into the selected todo entry.
pub open spec fn saved_in_todo(a: App, b: App) -> bool {
    let todos = a.all_projects.todo_list.deep_view();
    match a.selected_todo {
        Some(i) => if i < todos.len() {
            &&& b.wf()
            &&& edit_fields_only(a, b)
            &&& b.status_message@ == a.status_message@
            &&& b.is_dirty
            &&& b.all_projects.deep_view() == (AllV { todos: todos_saved(todos, i as int, a.editing_todo_name, a.input_buffer@), ..a.all_projects.deep_view() })
            &&& b.selected_todo == todo_selection_saved(todos.len() as int, i, a.editing_todo_name, a.input_buffer@)
            &&& !b.editing_todo_name
        } else {
            b == a
        },
        None => b == a,
    }
}

/// Saving the edit buffer as the notification topic.
pub open spec fn saved_in_topic(a: App, b: App) -> bool {
    &&& b.wf()
    &&& edit_fields_only(a, b)
    &&& b.all_projects.deep_view() == (AllV { topic: Some(a.input_buffer@), ..a.all_projects.deep_view() })
    &&& b.status_message@ == a.status_message@
    &&& b.is_dirty
    &&& b.selected_todo == a.selected_todo && b.editing_todo_name == a.editing_todo_name
}

/// What saving the edit buffer into the focused field does, with `now` as today's date; `ok`
/// is `false` where the operation fails.
pub open spec fn buffer_saved(a: App, b: App, now: int, ok: bool) -> bool {
    match a.focus_area {
        FocusArea::Project(f) => ok && saved_in_project(a, b, f, now),
        FocusArea::Tasks => saved_in_task(a, b, now, ok),
        FocusArea::TodoList => ok && match step_selected(a) {
            Some((i, s)) => saved_in_step(a, b, i, s),
            None => saved_in_todo(a, b),
        },
        FocusArea::NtfyTopic => ok && saved_in_topic(a, b),
    }
}

/// The steps of entry `i` after saving the edit buffer into step `s`: a blank text removes the
/// step; the step selection follows.
pub open spec fn steps_saved(steps: Seq<SubtaskV>, s: int, text: Seq<char>, sel: Option<usize>) -> (Seq<SubtaskV>, Option<usize>) {
    if trim(text).len() == 0 {
        (steps.remove(s), step_after_removal(s, steps.len() as int))
    } else {
        (steps.update(s, SubtaskV { text, ..steps[s] }), sel)
    }
}

/// Saving the edit buffer into step `s` of todo entry `i`.
pub open spec fn saved_in_step(a: App, b: App, i: int, s: int) -> bool {
    let todos = a.all_projects.todo_list.deep_view();
    let r = steps_saved(todos[i].subtasks, s, a.input_buffer@, a.selected_subtask);
    &&& b.wf()
    &&& b == (App { all_projects: b.all_projects, selected_subtask: r.1, is_dirty: true, ..a })
    &&& b.all_projects.deep_view() == (AllV { todos: with_steps(todos, i, r.0), ..a.all_projects.deep_view() })
}

fn saved_project(p: &ProjectData, f: ProjectField, s: &str, now: Date) -> (r: (ProjectData, Option<String>))
    ensures
        r.0.deep_view() == project_saved(p.deep_view(), f, s@, now@).0,
        message_view(r.1) == project_saved(p.deep_view(), f, s@, now@).1,
{
    let mut q = p.copy();
    match f {
        ProjectField::Name => {
            q.project_name = String::from_str(s);
            (q, None)
        },
        ProjectField::StartDate => match read_date_input(s, now) {
            Some(d) => {
                q.project_start_date = d;
                (q, None)
            },
            None => (q, bad_date()),
        },
        ProjectField::EndDate => {
            if s.unicode_len() == 0 {
                q.project_end_date = None;
                (q, None)
            } else {
                match read_date_input(s, now) {
                    Some(d) => {
                        q.project_end_date = Some(d);
                        (q, None)
                    },
                    None => (q, bad_date()),
                }
            }
        },
        ProjectField::DayOffset => match parse_i64(s) {
            Some(v) => {
                q.day_offset = v;
                (q, None)
            },
            None => (q, Some(String::from_str("Invalid number for day offset."))),
        },
    }
}

/// The todo list after saving the edit buffer `text` into entry `i`.
fn todos_after_save(todos: &Vec<TodoItem>, i: usize, naming: bool, text: &str) -> (r: Vec<TodoItem>)
    requires
        i < todos@.len(),
    ensures
        r.deep_view() == todos_saved(todos.deep_view(), i as int, naming, text@),
{
    let ghost tv = todos.deep_view();
    let mut v = crate::model::clone_todos(todos);
    if naming {
        let tr = trim_text(text);
        if tr.unicode_len() == 0 {
            v.remove(i);
            proof {
                assert(v.deep_view() =~= tv.remove(i as int));
            }
        } else {
            let mut item = v[i].copy();
            item.text = String::from_str(text);
            v.set(i, item);
            proof {
                assert(v.deep_view() =~= tv.update(i as int, TodoV { text: text@, ..tv[i as int] }));
            }
        }
    } else {
        let mut item = v[i].copy();
        item.description = String::from_str(text);
        v.set(i, item);
        proof {
            assert(v.deep_view() =~= tv.update(i as int, TodoV { description: text@, ..tv[i as int] }));
        }
    }
    v
}

impl App {
    /// Replaces the current project by one with as many tasks.
    pub(crate) fn put_current_project(&mut self, p: ProjectData)
        requires
            old(self).wf(),
            p.tasks@.len() == old(self).all_projects.projects@[old(self).current_project_index as int].tasks@.len(),
        ensures
            final(self).wf(),
            final(self).all_projects.deep_view() == with_current(*old(self), p.deep_view()),
            *final(self) == (App { all_projects: final(self).all_projects, ..*old(self) }),
    {
        let cur = self.current_project_index;
        self.all_projects.projects.set(cur, p);
        proof {
            assert(self.all_projects.projects.deep_view() =~= old(self).all_projects.projects.deep_view().update(cur as int, p.deep_view()));
            let od = AllV { active: old(self).current_project_index, ..old(self).all_projects.deep_view() };
            let d = AllV { active: self.current_project_index, ..self.all_projects.deep_view() };
            assert forall|i: int| 0 <= i < d.projects.len() implies (#[trigger] d.projects[i]).tasks.len() < u32::MAX - 2 by {
                assert(od.projects[i].tasks.len() < u32::MAX - 2);
                if i == cur {
                    assert(d.projects[i].tasks.len() == od.projects[i].tasks.len());
                }
            }
        }
    }

    /// Replaces the todo list.
    pub(crate) fn put_todos(&mut self, v: Vec<TodoItem>)
        requires
            old(self).wf(),
        ensures
            final(self).wf(),
            final(self).all_projects.deep_view() == (AllV { todos: v.deep_view(), ..old(self).all_projects.deep_view() }),
            *final(self) == (App { all_projects: final(self).all_projects, ..*old(self) }),
    {
        self.all_projects.todo_list = v;
        proof {
            let od = AllV { active: old(self).current_project_index, ..old(self).all_projects.deep_view() };
            let d = AllV { active: self.current_project_index, ..self.all_projects.deep_view() };
            assert(d.projects == od.projects);
        }
    }

    /// Saves the edit buffer into the focused field, with `now` as today's date.  `ok` is
    /// `false` exactly where the operation fails: a task selection past the last task, labels
    /// that cannot be computed, or a duration that overflows.
    pub fn save_buffer_with_today(&mut self, now: Date) -> (ok: bool)
        requires
            old(self).wf(),
        ensures
            buffer_saved(*old(self), *final(self), now@, ok),
    {
        match self.focus_area {
            FocusArea::Project(f) => {
                self.save_project_field(f, now);
                true
            },
            FocusArea::Tasks => self.save_task_field(now),
            FocusArea::TodoList => {
                match self.selected_step() {
                    Some((i, s)) => self.save_step_field(i, s),
                    None => self.save_todo_field(),
                }
                true
            },
            FocusArea::NtfyTopic => {
                self.save_topic();
                true
            },
        }
    }

    fn save_project_field(&mut self, f: ProjectField, now: Date)
        requires
            old(self).wf(),
        ensures
            saved_in_project(*old(self), *final(self), f, now@),
    {
        let cur = self.current_project_index;
        proof {
            assert(self.project_v() == self.all_projects.projects@[cur as int].deep_view());
        }
        let (q, m) = saved_project(&self.all_projects.projects[cur], f, self.input_buffer.as_str(), now);
        proof {
            assert(q.tasks@.len() == q.tasks.deep_view().len());
            assert(self.all_projects.projects@[cur as int].tasks@.len() == self.tasks_v().len());
        }
        self.put_current_project(q);
        match m {
            Some(x) => {
                self.status_message = x;
            },
            None => {},
        }
    }

    fn save_task_field(&mut self, now: Date) -> (ok: bool)
        requires
            old(self).wf(),
        ensures
            saved_in_task(*old(self), *final(self), now@, ok),
    {
        let cur = self.current_project_index;
        proof {
            assert(self.project_v() == self.all_projects.projects@[cur as int].deep_view());
        }
        match self.selected_task {
            None => true,
            Some(i) => {
                if i >= self.all_projects.projects[cur].tasks.len() {
                    return false;
                }
                proof {
                    let d = AllV { active: self.current_project_index, ..self.all_projects.deep_view() };
                    assert(d.projects[cur as int].tasks.len() < u32::MAX - 2);
                }
                match saved_task(&self.all_projects.projects[cur].tasks, i, self.selected_task_field, self.input_buffer.as_str(), now) {
                    None => false,
                    Some((t, m)) => {
                        let mut q = self.all_projects.projects[cur].copy();
                        q.tasks.set(i, t);
                        proof {
                            assert(q.tasks.deep_view() =~= self.tasks_v().update(i as int, t.deep_view()));
                        }
                        self.put_current_project(q);
                        match m {
                            Some(x) => {
                                self.status_message = x;
                            },
                            None => {},
                        }
                        true
                    },
                }
            },
        }
    }

    fn save_todo_field(&mut self)
        requires
            old(self).wf(),
        ensures
            saved_in_todo(*old(self), *final(self)),
    {
        let i = match self.selected_todo {
            Some(i) => i,
            None => {
                return;
            },
        };
        if i >= self.all_projects.todo_list.len() {
            return;
        }
        proof {
            assert(self.all_projects.todo_list@.len() == self.all_projects.todo_list.deep_view().len());
        }
        let naming = self.editing_todo_name;
        let v = todos_after_save(&self.all_projects.todo_list, i, naming, self.input_buffer.as_str());
        let blank = trim_text(self.input_buffer.as_str()).unicode_len() == 0;
        let n = self.all_projects.todo_list.len();
        let sel = if naming && blank {
            if n == 1 {
                None
            } else if i == 0 {
                Some(0)
            } else {
                Some(i - 1)
            }
        } else {
            Some(i)
        };
        self.put_todos(v);
        self.finish_todo_save(sel);
    }

    fn finish_todo_save(&mut self, sel: Option<usize>)
        ensures
            *final(self) == (App { selected_todo: sel, editing_todo_name: false, is_dirty: true, ..*old(self) }),
    {
        self.selected_todo = sel;
        self.editing_todo_name = false;
        self.is_dirty = true;
    }

    fn save_step_field(&mut self, i: usize, s: usize)
        requires
            old(self).wf(),
            i < old(self).all_projects.todo_list@.len(),
            s < old(self).all_projects.todo_list@[i as int].subtasks@.len(),
        ensures
            saved_in_step(*old(self), *final(self), i as int, s as int),
    {
        let ghost todos = self.all_projects.todo_list.deep_view();
        let ghost steps0 = todos[i as int].subtasks;
        proof {
            assert(steps0 == self.all_projects.todo_list@[i as int].subtasks.deep_view());
        }
        let mut steps = crate::model::clone_subtasks(&self.all_projects.todo_list[i].subtasks);
        let tr = trim_text(self.input_buffer.as_str());
        let mut sel = self.selected_subtask;
        if tr.unicode_len() == 0 {
            steps.remove(s);
            proof {
                assert(steps.deep_view() =~= steps0.remove(s as int));
            }
            let n = steps.len();
            sel = if n == 0 {
                None
            } else if s >= n {
                Some(n - 1)
            } else {
                Some(s)
            };
        } else {
            let mut st = steps[s].copy();
            st.text = self.input_buffer.clone();
            steps.set(s, st);
            proof {
                assert(steps.deep_view() =~= steps0.update(s as int, SubtaskV { text: self.input_buffer@, ..steps0[s as int] }));
            }
        }
        let mut v = crate::model::clone_todos(&self.all_projects.todo_list);
        let mut item = v[i].copy();
        item.subtasks = steps;
        v.set(i, item);
        proof {
            assert(v.deep_view() =~= with_steps(todos, i as int, steps.deep_view()));
        }
        self.put_todos(v);
        self.selected_subtask = sel;
        self.is_dirty = true;
    }

    fn save_topic(&mut self)
        requires
            old(self).wf(),
        ensures
            saved_in_topic(*old(self), *final(self)),
    {
        let buf = self.input_buffer.clone();
        self.all_projects.ntfy_topic = Some(buf);
        self.is_dirty = true;
        proof {
            let od = AllV { active: old(self).current_project_index, ..old(self).all_projects.deep_view() };
            let d = AllV { active: self.current_project_index, ..self.all_projects.deep_view() };
            assert(d.projects == od.projects);
        }
    }

    /// Saves the edit buffer into the focused field, reading today's date from the clock for
    /// the text `today`.  What it does is [`App::save_buffer_with_today`] for some date.
    pub fn save_buffer_to_task(&mut self) -> (ok: bool)
        requires
            old(self).wf(),
        ensures
            exists|now: int| buffer_saved(*old(self), *final(self), now, ok),
    {
        let now = local_today();
        let ok = self.save_buffer_with_today(now);
        assert(buffer_saved(*old(self), *self, now@, ok));
        ok
    }
}

/// What filling the edit buffer does.
pub open spec fn load_buffer_for_editing_post(a: App, b: App, ok: bool) -> bool {
    &&& ok == buffer_text(a) is Some
    &&& buffer_text(a) == Some(None::<Seq<char>>) ==> b == a
    &&& buffer_text(a) matches Some(Some(t)) ==> b.input_buffer@ == t
                    && b == (App { input_buffer: b.input_buffer, ..a })
}

} // verus!
