//! Moving the focus and the selections with the arrow keys and their letters.

use vstd::prelude::*;
use crate::model::ColumnVisibility;
use crate::app::{App, FocusArea, ProjectField, TaskField};
use crate::todo::{sync_post, sync_keeps};
use crate::app::lemma_wf_same_data;

verus! {

/// Position of a column in the task table, from the left.
pub open spec fn field_index(f: TaskField) -> int {
    match f {
        TaskField::Name => 0,
        TaskField::AssignedTo => 1,
        TaskField::StartDate => 2,
        TaskField::EndDate => 3,
        TaskField::Duration => 4,
        TaskField::Progress => 5,
        TaskField::Dependencies => 6,
    }
}

/// The column at a position of the task table.
pub open spec fn field_at(i: int) -> TaskField {
    if i == 0 {
        TaskField::Name
    } else if i == 1 {
        TaskField::AssignedTo
    } else if i == 2 {
        TaskField::StartDate
    } else if i == 3 {
        TaskField::EndDate
    } else if i == 4 {
        TaskField::Duration
    } else if i == 5 {
        TaskField::Progress
    } else {
        TaskField::Dependencies
    }
}

/// Whether a column is shown; the name column always is.
pub open spec fn field_shown(vis: ColumnVisibility, f: TaskField) -> bool {
    match f {
        TaskField::Name => true,
        TaskField::AssignedTo => vis.assigned_to,
        TaskField::StartDate => vis.start_date,
        TaskField::EndDate => vis.end_date,
        TaskField::Duration => vis.duration,
        TaskField::Progress => vis.progress,
        TaskField::Dependencies => vis.dependencies,
    }
}

/// The first shown column `d` or more places to the right of `cur`, going round; `cur`
/// itself when no other is shown.
pub open spec fn scan_right(vis: ColumnVisibility, cur: int, d: int) -> int
    decreases 7 - d,
{
    if d >= 7 || d < 1 {
        cur
    } else if field_shown(vis, field_at((cur + d) % 7)) {
        (cur + d) % 7
    } else {
        scan_right(vis, cur, d + 1)
    }
}

/// The first shown column `d` or more places to the left of `cur`, going round; `cur`
/// itself when no other is shown.
pub open spec fn scan_left(vis: ColumnVisibility, cur: int, d: int) -> int
    decreases 7 - d,
{
    if d >= 7 || d < 1 {
        cur
    } else if field_shown(vis, field_at((cur + 7 - d) % 7)) {
        (cur + 7 - d) % 7
    } else {
        scan_left(vis, cur, d + 1)
    }
}

/// The column that `l` (or the right arrow) selects.
pub open spec fn next_field(vis: ColumnVisibility, f: TaskField) -> TaskField {
    field_at(scan_right(vis, field_index(f), 1))
}

/// The column that `h` (or the left arrow) selects.
pub open spec fn previous_field(vis: ColumnVisibility, f: TaskField) -> TaskField {
    field_at(scan_left(vis, field_index(f), 1))
}

fn index_of_field(f: TaskField) -> (r: usize)
    ensures
        r == field_index(f),
{
    match f {
        TaskField::Name => 0,
        TaskField::AssignedTo => 1,
        TaskField::StartDate => 2,
        TaskField::EndDate => 3,
        TaskField::Duration => 4,
        TaskField::Progress => 5,
        TaskField::Dependencies => 6,
    }
}

fn field_of_index(i: usize) -> (f: TaskField)
    ensures
        f == field_at(i as int),
{
    if i == 0 {
        TaskField::Name
    } else if i == 1 {
        TaskField::AssignedTo
    } else if i == 2 {
        TaskField::StartDate
    } else if i == 3 {
        TaskField::EndDate
    } else if i == 4 {
        TaskField::Duration
    } else if i == 5 {
        TaskField::Progress
    } else {
        TaskField::Dependencies
    }
}

/// Whether the column of a field is shown.
pub fn field_visible(vis: &ColumnVisibility, field: TaskField) -> (r: bool)
    ensures
        r == field_shown(*vis, field),
{
    match field {
        TaskField::Name => true,
        TaskField::AssignedTo => vis.assigned_to,
        TaskField::StartDate => vis.start_date,
        TaskField::EndDate => vis.end_date,
        TaskField::Duration => vis.duration,
        TaskField::Progress => vis.progress,
        TaskField::Dependencies => vis.dependencies,
    }
}

/// The number of tasks of the current project.
pub open spec fn task_count(a: App) -> int {
    a.all_projects.projects@[a.current_project_index as int].tasks@.len() as int
}

/// The state with only the focus and the task selection changed.
pub open spec fn moved(a: App, focus: FocusArea, sel: Option<usize>) -> App {
    App { focus_area: focus, selected_task: sel, ..a }
}

/// The focus, the task selection and the todo selection.
pub type Place = (FocusArea, Option<usize>, Option<usize>);

/// The state with the focus and the selections set to `p`.
pub open spec fn placed(a: App, p: Place) -> App {
    App { focus_area: p.0, selected_task: p.1, selected_todo: p.2, ..a }
}

/// Where `k` (or the up arrow) moves the focus and the selections.
pub open spec fn up_place(a: App) -> Place {
    let n = task_count(a);
    let m = a.all_projects.todo_list@.len();
    let (f, t, d) = (a.focus_area, a.selected_task, a.selected_todo);
    match f {
        FocusArea::Project(ProjectField::DayOffset) => (FocusArea::Project(ProjectField::EndDate), t, d),
        FocusArea::Project(ProjectField::EndDate) => (FocusArea::Project(ProjectField::StartDate), t, d),
        FocusArea::Project(ProjectField::StartDate) => (FocusArea::Project(ProjectField::Name), t, d),
        FocusArea::Project(ProjectField::Name) => (f, t, d),
        FocusArea::Tasks => match t {
            Some(s) => if s == 0 {
                (FocusArea::Project(ProjectField::DayOffset), None, d)
            } else {
                (f, Some((s - 1) as usize), d)
            },
            None => (f, t, d),
        },
        FocusArea::TodoList => match d {
            Some(s) => if s > 0 { (f, t, Some((s - 1) as usize)) } else { (f, t, d) },
            None => (f, t, d),
        },
        FocusArea::NtfyTopic => if a.todo_list_open && m > 0 {
            (FocusArea::TodoList, t, Some((m - 1) as usize))
        } else if n > 0 {
            (FocusArea::Tasks, Some((n - 1) as usize), d)
        } else {
            (FocusArea::Project(ProjectField::DayOffset), t, d)
        },
    }
}

/// What `k` (or the up arrow) does, before following a todo entry.
pub open spec fn up_target(a: App) -> App {
    placed(a, up_place(a))
}

/// Whether `k` moves the todo selection, which then follows the entry to its task.
pub open spec fn up_follows_todo(a: App) -> bool {
    &&& a.focus_area == FocusArea::TodoList
    &&& a.selected_todo matches Some(s)
    &&& s > 0
}

/// Where `j` (or the down arrow) moves the focus and the selections; `None` where the
/// length arithmetic underflows (a selection in an empty list).
pub open spec fn down_place(a: App) -> Option<Place> {
    let n = task_count(a);
    let m = a.all_projects.todo_list@.len();
    let (f, t, d) = (a.focus_area, a.selected_task, a.selected_todo);
    match f {
        FocusArea::Project(ProjectField::Name) => Some((FocusArea::Project(ProjectField::StartDate), t, d)),
        FocusArea::Project(ProjectField::StartDate) => Some((FocusArea::Project(ProjectField::EndDate), t, d)),
        FocusArea::Project(ProjectField::EndDate) => Some((FocusArea::Project(ProjectField::DayOffset), t, d)),
        FocusArea::Project(ProjectField::DayOffset) => if n > 0 {
            Some((FocusArea::Tasks, Some(0usize), d))
        } else {
            Some((f, t, d))
        },
        FocusArea::Tasks => match t {
            Some(s) => if n == 0 {
                None
            } else if s < n - 1 {
                Some((f, Some((s + 1) as usize), d))
            } else {
                Some((f, t, d))
            },
            None => Some((f, t, d)),
        },
        FocusArea::TodoList => match d {
            Some(s) => if m == 0 {
                None
            } else if s < m - 1 {
                Some((f, t, Some((s + 1) as usize)))
            } else {
                Some((f, t, d))
            },
            None => Some((f, t, d)),
        },
        FocusArea::NtfyTopic => Some((f, t, d)),
    }
}

/// What `j` (or the down arrow) does, before following a todo entry.
pub open spec fn down_target(a: App) -> Option<App> {
    match down_place(a) {
        Some(p) => Some(placed(a, p)),
        None => None,
    }
}

/// Whether `j` moves the todo selection, which then follows the entry to its task.
pub open spec fn down_follows_todo(a: App) -> bool {
    &&& a.focus_area == FocusArea::TodoList
    &&& a.selected_todo matches Some(s)
    &&& a.all_projects.todo_list@.len() > 0
    &&& s < a.all_projects.todo_list@.len() - 1
}

/// Where Tab moves the focus (and the selection it lands on).
pub open spec fn tab_place(a: App) -> Place {
    let n = task_count(a);
    let m = a.all_projects.todo_list@.len();
    let (f, t, d) = (a.focus_area, a.selected_task, a.selected_todo);
    match f {
        FocusArea::Project(_) => (FocusArea::Tasks, if t is None && n > 0 { Some(0usize) } else { t }, d),
        FocusArea::Tasks => if a.todo_list_open {
            (FocusArea::TodoList, t, if d is None && m > 0 { Some(0usize) } else { d })
        } else {
            (FocusArea::NtfyTopic, t, d)
        },
        FocusArea::TodoList => (FocusArea::NtfyTopic, t, d),
        FocusArea::NtfyTopic => (FocusArea::Project(ProjectField::Name), t, d),
    }
}

/// What Tab does.
pub open spec fn tab_target(a: App) -> App {
    placed(a, tab_place(a))
}

/// Where Shift+Tab moves the focus (and the selection it lands on).
pub open spec fn backtab_place(a: App) -> Place {
    let n = task_count(a);
    let (f, t, d) = (a.focus_area, a.selected_task, a.selected_todo);
    match f {
        FocusArea::Project(_) => (FocusArea::NtfyTopic, t, d),
        FocusArea::Tasks => (FocusArea::Project(ProjectField::Name), t, d),
        FocusArea::TodoList => (FocusArea::Tasks, if t is None && n > 0 { Some(0usize) } else { t }, d),
        FocusArea::NtfyTopic => (if a.todo_list_open { FocusArea::TodoList } else { FocusArea::Tasks }, t, d),
    }
}

/// What Shift+Tab does.
pub open spec fn backtab_target(a: App) -> App {
    placed(a, backtab_place(a))
}

impl App {
    /// Whether the column of a field is shown.
    pub fn task_field_visible(&self, field: TaskField) -> (r: bool)
        ensures
            r == field_shown(self.all_projects.column_visibility, field),
    {
        field_visible(&self.all_projects.column_visibility, field)
    }

    /// Selects the next shown column to the right, going round, when the task table has
    /// the focus.
    pub fn select_next_field(&mut self)
        ensures
            select_next_field_post(*old(self), *final(self)),

    {
        if self.focus_area == FocusArea::Tasks {
            let vis = self.all_projects.column_visibility;
            let cur = index_of_field(self.selected_task_field);
            let mut next = (cur + 1) % 7;
            let mut d: usize = 1;
            while next != cur && !field_visible(&vis, field_of_index(next))
                invariant
                    1 <= d <= 7,
                    cur < 7,
                    next == (cur + d) % 7,
                    scan_right(vis, cur as int, 1) == scan_right(vis, cur as int, d as int),
                decreases 7 - d,
            {
                proof {
                    if d >= 7 {
                        assert((cur + d) % 7 == cur);
                    }
                }
                next = (next + 1) % 7;
                d = d + 1;
            }
            proof {
                if next == cur {
                    assert(d == 7 || (cur + d) % 7 == cur);
                    if d < 7 {
                        assert(false);
                    }
                }
            }
            self.selected_task_field = field_of_index(next);
        }
    }

    /// Selects the next shown column to the left, going round, when the task table has the
    /// focus.
    pub fn select_previous_field(&mut self)
        ensures
            select_previous_field_post(*old(self), *final(self)),

    {
        if self.focus_area == FocusArea::Tasks {
            let vis = self.all_projects.column_visibility;
            let cur = index_of_field(self.selected_task_field);
            let mut prev = (cur + 6) % 7;
            let mut d: usize = 1;
            while prev != cur && !field_visible(&vis, field_of_index(prev))
                invariant
                    1 <= d <= 7,
                    cur < 7,
                    prev == (cur + 7 - d) % 7,
                    scan_left(vis, cur as int, 1) == scan_left(vis, cur as int, d as int),
                decreases 7 - d,
            {
                prev = (prev + 6) % 7;
                d = d + 1;
            }
            proof {
                if prev == cur && d < 7 {
                    assert(false);
                }
            }
            self.selected_task_field = field_of_index(prev);
        }
    }
}

impl App {
    /// `k` or the up arrow.  `ok` is as for [`App::sync_project_with_todo_selection`] where
    /// the todo selection moves, and `true` elsewhere.
    pub fn navigate_up(&mut self) -> (ok: bool)
        requires
            old(self).wf(),
        ensures
            navigate_up_post(*old(self), *final(self), ok),

    {
        let follows = self.focus_area == FocusArea::TodoList && match self.selected_todo {
            Some(s) => s > 0,
            None => false,
        };
        self.step_up();
        proof {
            lemma_wf_same_data(*old(self), *self);
        }
        if follows {
            self.sync_project_with_todo_selection()
        } else {
            true
        }
    }

    fn step_up(&mut self)
        requires
            old(self).current_project_index < old(self).all_projects.projects@.len(),
        ensures
            *final(self) == up_target(*old(self)),
    {
        let p = self.up_place_of();
        self.set_place(p);
    }

    fn set_place(&mut self, p: Place)
        ensures
            *final(self) == placed(*old(self), p),
    {
        self.focus_area = p.0;
        self.selected_task = p.1;
        self.selected_todo = p.2;
    }

    fn up_place_of(&self) -> (r: Place)
        requires
            self.current_project_index < self.all_projects.projects@.len(),
        ensures
            r == up_place(*self),
    {
        let n = self.all_projects.projects[self.current_project_index].tasks.len();
        let m = self.all_projects.todo_list.len();
        let (f, t, d) = (self.focus_area, self.selected_task, self.selected_todo);
        match f {
            FocusArea::Project(ProjectField::DayOffset) => (FocusArea::Project(ProjectField::EndDate), t, d),
            FocusArea::Project(ProjectField::EndDate) => (FocusArea::Project(ProjectField::StartDate), t, d),
            FocusArea::Project(ProjectField::StartDate) => (FocusArea::Project(ProjectField::Name), t, d),
            FocusArea::Project(ProjectField::Name) => (f, t, d),
            FocusArea::Tasks => match t {
                Some(s) => if s == 0 {
                    (FocusArea::Project(ProjectField::DayOffset), None, d)
                } else {
                    (f, Some(s - 1), d)
                },
                None => (f, t, d),
            },
            FocusArea::TodoList => match d {
                Some(s) => if s > 0 { (f, t, Some(s - 1)) } else { (f, t, d) },
                None => (f, t, d),
            },
            FocusArea::NtfyTopic => if self.todo_list_open && m > 0 {
                (FocusArea::TodoList, t, Some(m - 1))
            } else if n > 0 {
                (FocusArea::Tasks, Some(n - 1), d)
            } else {
                (FocusArea::Project(ProjectField::DayOffset), t, d)
            },
        }
    }

    /// `j` or the down arrow.  `ok` is `false` where a selection stands in an empty list
    /// (the length arithmetic underflows there), as for
    /// [`App::sync_project_with_todo_selection`] where the todo selection moves, and `true`
    /// elsewhere.
    pub fn navigate_down(&mut self) -> (ok: bool)
        requires
            old(self).wf(),
        ensures
            navigate_down_post(*old(self), *final(self), ok),

    {
        let m = self.all_projects.todo_list.len();
        let follows = self.focus_area == FocusArea::TodoList && m > 0 && match self.selected_todo {
            Some(s) => s < m - 1,
            None => false,
        };
        if !self.step_down() {
            return false;
        }
        proof {
            lemma_wf_same_data(*old(self), *self);
        }
        if follows {
            self.sync_project_with_todo_selection()
        } else {
            true
        }
    }

    fn step_down(&mut self) -> (ok: bool)
        requires
            old(self).current_project_index < old(self).all_projects.projects@.len(),
        ensures
            ok == down_target(*old(self)) is Some,
            ok ==> *final(self) == down_target(*old(self))->0,
    {
        match self.down_place_of() {
            Some(p) => {
                self.set_place(p);
                true
            },
            None => false,
        }
    }

    fn down_place_of(&self) -> (r: Option<Place>)
        requires
            self.current_project_index < self.all_projects.projects@.len(),
        ensures
            r == down_place(*self),
    {
        let n = self.all_projects.projects[self.current_project_index].tasks.len();
        let m = self.all_projects.todo_list.len();
        let (f, t, d) = (self.focus_area, self.selected_task, self.selected_todo);
        match f {
            FocusArea::Project(ProjectField::Name) => Some((FocusArea::Project(ProjectField::StartDate), t, d)),
            FocusArea::Project(ProjectField::StartDate) => Some((FocusArea::Project(ProjectField::EndDate), t, d)),
            FocusArea::Project(ProjectField::EndDate) => Some((FocusArea::Project(ProjectField::DayOffset), t, d)),
            FocusArea::Project(ProjectField::DayOffset) => if n > 0 {
                Some((FocusArea::Tasks, Some(0), d))
            } else {
                Some((f, t, d))
            },
            FocusArea::Tasks => match t {
                Some(s) => if n == 0 {
                    None
                } else if s < n - 1 {
                    Some((f, Some(s + 1), d))
                } else {
                    Some((f, t, d))
                },
                None => Some((f, t, d)),
            },
            FocusArea::TodoList => match d {
                Some(s) => if m == 0 {
                    None
                } else if s < m - 1 {
                    Some((f, t, Some(s + 1)))
                } else {
                    Some((f, t, d))
                },
                None => Some((f, t, d)),
            },
            FocusArea::NtfyTopic => Some((f, t, d)),
        }
    }

    /// `g`: selects the first task, when there is one.
    pub fn go_to_top(&mut self)
        requires
            old(self).wf(),
        ensures
            go_to_top_post(*old(self), *final(self)),

    {
        if self.all_projects.projects[self.current_project_index].tasks.len() > 0 {
            self.selected_task = Some(0);
            self.focus_area = FocusArea::Tasks;
        }
    }

    /// `G`: selects the last task, when there is one.
    pub fn go_to_bottom(&mut self)
        requires
            old(self).wf(),
        ensures
            go_to_bottom_post(*old(self), *final(self)),

    {
        let n = self.all_projects.projects[self.current_project_index].tasks.len();
        if n > 0 {
            self.selected_task = Some(n - 1);
            self.focus_area = FocusArea::Tasks;
        }
    }

    /// Tab: moves the focus forward through the project fields, the tasks, the todo list
    /// (when open) and the notification topic.
    pub fn focus_next_area(&mut self)
        requires
            old(self).wf(),
        ensures
            focus_next_area_post(*old(self), *final(self)),
    {
        let n = self.all_projects.projects[self.current_project_index].tasks.len();
        let m = self.all_projects.todo_list.len();
        let (f, t, d) = (self.focus_area, self.selected_task, self.selected_todo);
        let p: Place = match f {
            FocusArea::Project(_) => (FocusArea::Tasks, if t.is_none() && n > 0 { Some(0) } else { t }, d),
            FocusArea::Tasks => if self.todo_list_open {
                (FocusArea::TodoList, t, if d.is_none() && m > 0 { Some(0) } else { d })
            } else {
                (FocusArea::NtfyTopic, t, d)
            },
            FocusArea::TodoList => (FocusArea::NtfyTopic, t, d),
            FocusArea::NtfyTopic => (FocusArea::Project(ProjectField::Name), t, d),
        };
        proof {
            assert(p == tab_place(*self));
        }
        self.set_place(p);
    }

    /// Shift+Tab: moves the focus backward through the same areas.
    pub fn focus_previous_area(&mut self)
        requires
            old(self).wf(),
        ensures
            focus_previous_area_post(*old(self), *final(self)),
    {
        let n = self.all_projects.projects[self.current_project_index].tasks.len();
        let (f, t, d) = (self.focus_area, self.selected_task, self.selected_todo);
        let p: Place = match f {
            FocusArea::Project(_) => (FocusArea::NtfyTopic, t, d),
            FocusArea::Tasks => (FocusArea::Project(ProjectField::Name), t, d),
            FocusArea::TodoList => (FocusArea::Tasks, if t.is_none() && n > 0 { Some(0) } else { t }, d),
            FocusArea::NtfyTopic => (if self.todo_list_open { FocusArea::TodoList } else { FocusArea::Tasks }, t, d),
        };
        proof {
            assert(p == backtab_place(*self));
        }
        self.set_place(p);
    }
}

/// Moving one shown column to the right and then one to the left comes back to a shown
/// column.
#[verifier::rlimit(40)]
pub proof fn law_next_then_previous_field(vis: ColumnVisibility, f: TaskField)
    requires
        field_shown(vis, f),
    ensures
        previous_field(vis, next_field(vis, f)) == f,
{
    reveal_with_fuel(scan_right, 8);
    reveal_with_fuel(scan_left, 8);
}

/// Moving one shown column to the left and then one to the right comes back to a shown
/// column.
#[verifier::rlimit(40)]
pub proof fn law_previous_then_next_field(vis: ColumnVisibility, f: TaskField)
    requires
        field_shown(vis, f),
    ensures
        next_field(vis, previous_field(vis, f)) == f,
{
    reveal_with_fuel(scan_right, 8);
    reveal_with_fuel(scan_left, 8);
    match f {
        TaskField::Name => {},
        TaskField::AssignedTo => {},
        TaskField::StartDate => {},
        TaskField::EndDate => {},
        TaskField::Duration => {},
        TaskField::Progress => {},
        TaskField::Dependencies => {},
    }
}

/// Tab and then Shift+Tab give the focus back, except from a project field other than the
/// name (Shift+Tab from the task table lands on the name) and from the todo list while it
/// is closed (Tab and Shift+Tab then pass by the task table).
pub proof fn law_tab_then_backtab(a: App)
    requires
        a.wf(),
        a.focus_area == FocusArea::Project(ProjectField::Name) || a.focus_area == FocusArea::NtfyTopic
            || a.focus_area == FocusArea::Tasks
            || (a.focus_area == FocusArea::TodoList && a.todo_list_open),
    ensures
        backtab_target(tab_target(a)).focus_area == a.focus_area,
{
}

/// Shift+Tab and then Tab give the focus back, with the same exceptions as
/// [`law_tab_then_backtab`].
pub proof fn law_backtab_then_tab(a: App)
    requires
        a.wf(),
        a.focus_area == FocusArea::Project(ProjectField::Name) || a.focus_area == FocusArea::NtfyTopic
            || a.focus_area == FocusArea::Tasks
            || (a.focus_area == FocusArea::TodoList && a.todo_list_open),
    ensures
        tab_target(backtab_target(a)).focus_area == a.focus_area,
{
}

/// What the up key does.
pub open spec fn navigate_up_post(a: App, b: App, ok: bool) -> bool {
    &&& !up_follows_todo(a) ==> ok && b == up_target(a) && b.wf()
    &&& up_follows_todo(a) ==> sync_post(up_target(a), b, ok)
                    && sync_keeps(up_target(a), b)
}

/// What the down key does.
pub open spec fn navigate_down_post(a: App, b: App, ok: bool) -> bool {
    &&& down_target(a) is None ==> !ok
    &&& down_target(a) is Some && !down_follows_todo(a) ==> ok
                    && b == down_target(a)->0 && b.wf()
    &&& down_target(a) is Some && down_follows_todo(a)
                    ==> sync_post(down_target(a)->0, b, ok)
                    && sync_keeps(down_target(a)->0, b)
}

/// What `g` does.
pub open spec fn go_to_top_post(a: App, b: App) -> bool {
    &&& a.tasks_v().len() > 0 ==> b == moved(a, FocusArea::Tasks, Some(0usize))
    &&& a.tasks_v().len() == 0 ==> b == a
}

/// What `G` does.
pub open spec fn go_to_bottom_post(a: App, b: App) -> bool {
    &&& a.tasks_v().len() > 0 ==> b == moved(
                    a,
                    FocusArea::Tasks,
                    Some((a.tasks_v().len() - 1) as usize),
                )
    &&& a.tasks_v().len() == 0 ==> b == a
}

/// What Tab does.
pub open spec fn focus_next_area_post(a: App, b: App) -> bool {
    &&& b == tab_target(a)
}

/// What Shift+Tab does.
pub open spec fn focus_previous_area_post(a: App, b: App) -> bool {
    &&& b == backtab_target(a)
}

/// What the right key does.
pub open spec fn select_next_field_post(a: App, b: App) -> bool {
    &&& a.focus_area == FocusArea::Tasks ==> b == (App {
                    selected_task_field: next_field(a.all_projects.column_visibility, a.selected_task_field),
                    ..a
                })
    &&& a.focus_area != FocusArea::Tasks ==> b == a
}

/// What the left key does.
pub open spec fn select_previous_field_post(a: App, b: App) -> bool {
    &&& a.focus_area == FocusArea::Tasks ==> b == (App {
                    selected_task_field: previous_field(a.all_projects.column_visibility, a.selected_task_field),
                    ..a
                })
    &&& a.focus_area != FocusArea::Tasks ==> b == a
}

} // verus!
