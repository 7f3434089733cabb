//! The data of the planner: tasks, projects, todo items and the saved state.

use vstd::prelude::*;
use crate::date::Date;

verus! {

impl DeepView for Date {
    type V = int;

    open spec fn deep_view(&self) -> int {
        self@
    }
}

/// A task of a project.  `start_date` and `end_date` are derived by the scheduler
/// and are not part of the saved data.
pub struct Task {
    pub id: u32,
    pub name: String,
    pub assigned_to: String,
    pub duration: i64,
    pub progress: u8,
    pub dependencies: Vec<u32>,
    pub manual_start_date: Option<Date>,
    pub details: Option<String>,
    pub parent_id: Option<u32>,
    pub start_date: Option<Date>,
    pub end_date: Option<Date>,
}

/// The mathematical value of a task.
#[verifier::ext_equal]
pub struct TaskV {
    pub id: u32,
    pub name: Seq<char>,
    pub assigned_to: Seq<char>,
    pub duration: i64,
    pub progress: u8,
    pub dependencies: Seq<u32>,
    pub manual_start: Option<int>,
    pub details: Option<Seq<char>>,
    pub parent_id: Option<u32>,
    pub start: Option<int>,
    pub end: Option<int>,
}

impl DeepView for Task {
    type V = TaskV;

    open spec fn deep_view(&self) -> TaskV {
        TaskV {
            id: self.id,
            name: self.name@,
            assigned_to: self.assigned_to@,
            duration: self.duration,
            progress: self.progress,
            dependencies: self.dependencies@,
            manual_start: self.manual_start_date.deep_view(),
            details: self.details.deep_view(),
            parent_id: self.parent_id,
            start: self.start_date.deep_view(),
            end: self.end_date.deep_view(),
        }
    }
}

/// A project: a named, dated list of tasks.
pub struct ProjectData {
    pub project_name: String,
    pub project_start_date: Date,
    pub project_end_date: Option<Date>,
    pub day_offset: i64,
    pub tasks: Vec<Task>,
    /// An archived project is skipped when switching projects, unless archived projects are
    /// shown.
    pub archived: bool,
}

/// The mathematical value of a project.
#[verifier::ext_equal]
pub struct ProjectV {
    pub name: Seq<char>,
    pub start: int,
    pub end: Option<int>,
    pub day_offset: i64,
    pub tasks: Seq<TaskV>,
    pub archived: bool,
}

impl DeepView for ProjectData {
    type V = ProjectV;

    open spec fn deep_view(&self) -> ProjectV {
        ProjectV {
            name: self.project_name@,
            start: self.project_start_date@,
            end: self.project_end_date.deep_view(),
            day_offset: self.day_offset,
            tasks: self.tasks.deep_view(),
            archived: self.archived,
        }
    }
}

/// A step of a todo entry.
pub struct TodoSubtask {
    pub text: String,
    pub completed: bool,
}

/// The mathematical value of a step of a todo entry.
#[verifier::ext_equal]
pub struct SubtaskV {
    pub text: Seq<char>,
    pub completed: bool,
}

impl DeepView for TodoSubtask {
    type V = SubtaskV;

    open spec fn deep_view(&self) -> SubtaskV {
        SubtaskV { text: self.text@, completed: self.completed }
    }
}

/// An entry of the personal todo list.
pub struct TodoItem {
    pub text: String,
    pub completed: bool,
    pub description: String,
    pub subtasks: Vec<TodoSubtask>,
}

/// The mathematical value of a todo entry.
#[verifier::ext_equal]
pub struct TodoV {
    pub text: Seq<char>,
    pub completed: bool,
    pub description: Seq<char>,
    pub subtasks: Seq<SubtaskV>,
}

impl DeepView for TodoItem {
    type V = TodoV;

    open spec fn deep_view(&self) -> TodoV {
        TodoV {
            text: self.text@,
            completed: self.completed,
            description: self.description@,
            subtasks: self.subtasks.deep_view(),
        }
    }
}

/// Which optional columns of the task table are shown.
#[derive(Clone, Copy, PartialEq, Eq, Structural)]
pub struct ColumnVisibility {
    pub assigned_to: bool,
    pub start_date: bool,
    pub end_date: bool,
    pub duration: bool,
    pub progress: bool,
    pub dependencies: bool,
}

impl ColumnVisibility {
    /// All columns shown.
    pub fn all_visible() -> (r: ColumnVisibility)
        ensures
            r.assigned_to && r.start_date && r.end_date && r.duration && r.progress
                && r.dependencies,
    {
        ColumnVisibility {
            assigned_to: true,
            start_date: true,
            end_date: true,
            duration: true,
            progress: true,
            dependencies: true,
        }
    }
}

/// Everything that is saved: the projects, the todo list and the display settings.
pub struct AllProjectsData {
    pub projects: Vec<ProjectData>,
    pub active_project_index: usize,
    pub todo_list: Vec<TodoItem>,
    pub ntfy_topic: Option<String>,
    pub compact_timeline: bool,
    pub column_visibility: ColumnVisibility,
}

/// The mathematical value of the saved data.
#[verifier::ext_equal]
pub struct AllV {
    pub projects: Seq<ProjectV>,
    pub active: usize,
    pub todos: Seq<TodoV>,
    pub topic: Option<Seq<char>>,
    pub compact: bool,
    pub columns: ColumnVisibility,
}

impl DeepView for AllProjectsData {
    type V = AllV;

    open spec fn deep_view(&self) -> AllV {
        AllV {
            projects: self.projects.deep_view(),
            active: self.active_project_index,
            todos: self.todo_list.deep_view(),
            topic: self.ntfy_topic.deep_view(),
            compact: self.compact_timeline,
            columns: self.column_visibility,
        }
    }
}

/// A copy of an optional text.
pub fn clone_opt_text(o: &Option<String>) -> (r: Option<String>)
    ensures
        r.deep_view() == o.deep_view(),
{
    match o {
        Some(s) => Some(s.clone()),
        None => None,
    }
}

/// A copy of a list of numbers.
pub fn clone_ids(v: &Vec<u32>) -> (r: Vec<u32>)
    ensures
        r@ == v@,
{
    let mut r: Vec<u32> = Vec::new();
    let mut i: usize = 0;
    while i < v.len()
        invariant
            i <= v@.len(),
            r@ == v@.take(i as int),
        decreases v@.len() - i,
    {
        r.push(v[i]);
        i = i + 1;
        assert(r@ =~= v@.take(i as int));
    }
    assert(v@.take(i as int) =~= v@);
    r
}

impl Task {
    /// A copy of the task.
    pub fn copy(&self) -> (r: Task)
        ensures
            r.deep_view() == self.deep_view(),
    {
        Task {
            id: self.id,
            name: self.name.clone(),
            assigned_to: self.assigned_to.clone(),
            duration: self.duration,
            progress: self.progress,
            dependencies: clone_ids(&self.dependencies),
            manual_start_date: self.manual_start_date,
            details: clone_opt_text(&self.details),
            parent_id: self.parent_id,
            start_date: self.start_date,
            end_date: self.end_date,
        }
    }
}

/// A copy of a list of tasks.
pub fn clone_tasks(v: &Vec<Task>) -> (r: Vec<Task>)
    ensures
        r.deep_view() == v.deep_view(),
{
    let mut r: Vec<Task> = Vec::new();
    let mut i: usize = 0;
    while i < v.len()
        invariant
            i <= v@.len(),
            r@.len() == i,
                forall|k: int| 0 <= k < i ==> #[trigger] r@[k].deep_view() == v@[k].deep_view(),
        decreases v@.len() - i,
    {
        r.push(v[i].copy());
        i = i + 1;
    }
    assert(r.deep_view() =~= v.deep_view());
    r
}

/// A copy of a todo list.
pub fn clone_todos(v: &Vec<TodoItem>) -> (r: Vec<TodoItem>)
    ensures
        r.deep_view() == v.deep_view(),
        r@.len() == v@.len(),
{
    let mut r: Vec<TodoItem> = Vec::new();
    let mut i: usize = 0;
    while i < v.len()
        invariant
            i <= v@.len(),
            r@.len() == i,
            forall|k: int| 0 <= k < i ==> #[trigger] r@[k].deep_view() == v@[k].deep_view(),
        decreases v@.len() - i,
    {
        r.push(v[i].copy());
        i = i + 1;
    }
    assert(r.deep_view() =~= v.deep_view());
    r
}

impl ProjectData {
    /// A copy of the project.
    pub fn copy(&self) -> (r: ProjectData)
        ensures
            r.deep_view() == self.deep_view(),
    {
        ProjectData {
            project_name: self.project_name.clone(),
            project_start_date: self.project_start_date,
            project_end_date: self.project_end_date,
            day_offset: self.day_offset,
            tasks: clone_tasks(&self.tasks),
            archived: self.archived,
        }
    }
}

impl TodoSubtask {
    /// A copy of the step.
    pub fn copy(&self) -> (r: TodoSubtask)
        ensures
            r.deep_view() == self.deep_view(),
    {
        TodoSubtask { text: self.text.clone(), completed: self.completed }
    }
}

/// A copy of a list of steps.
pub fn clone_subtasks(v: &Vec<TodoSubtask>) -> (r: Vec<TodoSubtask>)
    ensures
        r.deep_view() == v.deep_view(),
        r@.len() == v@.len(),
{
    let mut r: Vec<TodoSubtask> = Vec::new();
    let mut i: usize = 0;
    while i < v.len()
        invariant
            i <= v@.len(),
            r@.len() == i,
            forall|k: int| 0 <= k < i ==> #[trigger] r@[k].deep_view() == v@[k].deep_view(),
        decreases v@.len() - i,
    {
        r.push(v[i].copy());
        i = i + 1;
    }
    assert(r.deep_view() =~= v.deep_view());
    r
}

impl TodoItem {
    /// A copy of the entry.
    pub fn copy(&self) -> (r: TodoItem)
        ensures
            r.deep_view() == self.deep_view(),
    {
        TodoItem {
            text: self.text.clone(),
            completed: self.completed,
            description: self.description.clone(),
            subtasks: clone_subtasks(&self.subtasks),
        }
    }
}

impl AllProjectsData {
    /// A copy of the saved data.
    pub fn copy(&self) -> (r: AllProjectsData)
        ensures
            r.deep_view() == self.deep_view(),
    {
        let mut projects: Vec<ProjectData> = Vec::new();
        let mut i: usize = 0;
        while i < self.projects.len()
            invariant
                i <= self.projects@.len(),
                projects@.len() == i,
                forall|k: int| 0 <= k < i ==> #[trigger] projects@[k].deep_view() == self.projects@[k].deep_view(),
            decreases self.projects@.len() - i,
        {
            projects.push(self.projects[i].copy());
            i = i + 1;
            }
        assert(projects.deep_view() =~= self.projects.deep_view());
        let mut todos: Vec<TodoItem> = Vec::new();
        let mut j: usize = 0;
        while j < self.todo_list.len()
            invariant
                j <= self.todo_list@.len(),
                todos@.len() == j,
                forall|k: int| 0 <= k < j ==> #[trigger] todos@[k].deep_view() == self.todo_list@[k].deep_view(),
            decreases self.todo_list@.len() - j,
        {
            todos.push(self.todo_list[j].copy());
            j = j + 1;
            }
        assert(todos.deep_view() =~= self.todo_list.deep_view());
        AllProjectsData {
            projects,
            active_project_index: self.active_project_index,
            todo_list: todos,
            ntfy_topic: clone_opt_text(&self.ntfy_topic),
            compact_timeline: self.compact_timeline,
            column_visibility: self.column_visibility,
        }
    }
}

} // verus!
