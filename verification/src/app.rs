//! The planner's state and the operations on it.

use vstd::prelude::*;
use crate::date::Date;
use crate::model::{AllProjectsData, AllV, ProjectData, ProjectV, Task, TaskV, TodoItem, TodoV};
use crate::schedule::{schedule_tasks, scheduled, schedule_completes, lemma_scheduled_shape};

verus! {

/// Whether keys edit a field or act on the view.
#[derive(Clone, Copy, PartialEq, Eq, Structural)]
pub enum InputMode {
    Normal,
    Editing,
}

/// The column of the task table that is selected.
#[derive(Clone, Copy, PartialEq, Eq, Structural)]
pub enum TaskField {
    Name,
    AssignedTo,
    StartDate,
    EndDate,
    Duration,
    Progress,
    Dependencies,
}

/// The project field that is selected.
#[derive(Clone, Copy, PartialEq, Eq, Structural)]
pub enum ProjectField {
    Name,
    StartDate,
    EndDate,
    DayOffset,
}

/// The area that receives the keys.
#[derive(Clone, Copy, PartialEq, Eq, Structural)]
pub enum FocusArea {
    Project(ProjectField),
    Tasks,
    TodoList,
    NtfyTopic,
}

/// How rows of the task table are highlighted.
#[derive(Clone, Copy, PartialEq, Eq, Structural)]
pub enum HighlightMode {
    Today,
    Urgent,
}

/// What is to happen once a requested save of all projects has been attempted.
#[derive(Clone, Copy, PartialEq, Eq, Structural)]
pub enum AfterSave {
    /// Nothing is waiting.
    Nothing,
    /// The save was asked for by the user.
    Report,
    /// A new project is created after the save.
    NewProject,
    /// The next project is shown after the save.
    NextProject,
    /// The previous project is shown after the save.
    PreviousProject,
    /// The start-up of a new data file finishes after the save.
    Startup,
}

/// The whole state of the planner.
pub struct App {
    pub all_projects: AllProjectsData,
    pub current_project_index: usize,
    pub today: Date,
    pub selected_task: Option<usize>,
    pub selected_todo: Option<usize>,
    pub input_mode: InputMode,
    pub focus_area: FocusArea,
    pub selected_task_field: TaskField,
    pub input_buffer: String,
    pub next_task_id: u32,
    pub should_quit: bool,
    pub status_message: String,
    pub history: Vec<AllProjectsData>,
    pub redo_history: Vec<AllProjectsData>,
    pub current_file_path: String,
    pub todo_list_open: bool,
    pub highlight_mode: HighlightMode,
    pub is_dirty: bool,
    pub quit_pending: bool,
    pub confirm_delete_project: bool,
    pub deleted_projects: Vec<ProjectData>,
    pub help_open: bool,
    pub editing_todo_name: bool,
    pub column_config_open: bool,
    pub column_config_selected: usize,
    pub after_save: AfterSave,
    /// Whether switching projects also stops at archived ones.
    pub show_archived: bool,
    /// The data file was changed by someone else; the next Ctrl+s overwrites it.
    pub overwrite_pending: bool,
    /// The selected step of the selected todo entry, while the steps are entered.
    pub selected_subtask: Option<usize>,
}

/// Saved data whose active index names one of its projects, each with fewer tasks
/// than a task id can count.
pub open spec fn data_wf(d: AllV) -> bool {
    &&& d.active < d.projects.len()
    &&& forall|i: int| 0 <= i < d.projects.len() ==> (#[trigger] d.projects[i]).tasks.len() < u32::MAX - 2
}

impl App {
    /// The tasks of the current project.
    pub open spec fn tasks_v(&self) -> Seq<TaskV> {
        self.all_projects.projects@[self.current_project_index as int].tasks.deep_view()
    }

    /// The current project.
    pub open spec fn project_v(&self) -> ProjectV {
        self.all_projects.projects@[self.current_project_index as int].deep_view()
    }

    /// The well-formedness that every operation keeps: the current index names a project,
    /// every snapshot of the history is well-formed saved data, and no project holds as many
    /// tasks as an id can count.
    pub open spec fn wf(&self) -> bool {
        &&& self.current_project_index < self.all_projects.projects@.len()
        &&& data_wf(AllV { active: self.current_project_index, ..self.all_projects.deep_view() })
        &&& forall|i: int| 0 <= i < self.history@.len() ==> data_wf(#[trigger] self.history@[i].deep_view())
        &&& forall|i: int| 0 <= i < self.redo_history@.len() ==> data_wf(#[trigger] self.redo_history@[i].deep_view())
        &&& forall|i: int| 0 <= i < self.deleted_projects@.len() ==> (#[trigger] self.deleted_projects@[i]).tasks@.len() < u32::MAX - 2
    }

    /// The current project.
    pub fn current_project(&self) -> (r: &ProjectData)
        requires
            self.wf(),
        ensures
            r.deep_view() == self.project_v(),
    {
        &self.all_projects.projects[self.current_project_index]
    }
}

/// Largest task id of a list, 0 when it is empty.
pub open spec fn max_id(tasks: Seq<TaskV>) -> u32
    decreases tasks.len(),
{
    if tasks.len() == 0 {
        0
    } else {
        let m = max_id(tasks.drop_last());
        if tasks.last().id > m {
            tasks.last().id
        } else {
            m
        }
    }
}

/// The largest id of a list of tasks.
fn largest_id(tasks: &Vec<Task>) -> (r: u32)
    ensures
        r == max_id(tasks.deep_view()),
{
    let ghost tv = tasks.deep_view();
    let mut m: u32 = 0;
    let mut i: usize = 0;
    while i < tasks.len()
        invariant
            tv == tasks.deep_view(),
            i <= tasks@.len(),
            m == max_id(tv.take(i as int)),
        decreases tasks@.len() - i,
    {
        proof {
            assert(tv.take(i + 1).drop_last() =~= tv.take(i as int));
            assert(tv.take(i + 1).last() == tv[i as int]);
        }
        if tasks[i].id > m {
            m = tasks[i].id;
        }
        i = i + 1;
    }
    assert(tv.take(i as int) =~= tv);
    m
}

/// Scheduling the current project completes: its largest id leaves room for the next id,
/// and the dates and parent order can be computed.
pub open spec fn recalc_completes(tasks: Seq<TaskV>, pstart: int) -> bool {
    max_id(tasks) < u32::MAX && schedule_completes(tasks, pstart)
}

/// Everything but the current project's tasks (and the next free id) is unchanged.
pub open spec fn only_tasks_changed(a: App, b: App) -> bool {
    &&& b.current_project_index == a.current_project_index
    &&& b.all_projects.projects@.len() == a.all_projects.projects@.len()
    &&& forall|i: int| 0 <= i < a.all_projects.projects@.len() && i != a.current_project_index
        ==> (#[trigger] b.all_projects.projects@[i]).deep_view() == a.all_projects.projects@[i].deep_view()
    &&& b.project_v() == (ProjectV { tasks: b.tasks_v(), ..a.project_v() })
    &&& b.all_projects.active_project_index == a.all_projects.active_project_index
    &&& b.all_projects.todo_list.deep_view() == a.all_projects.todo_list.deep_view()
    &&& b.all_projects.ntfy_topic.deep_view() == a.all_projects.ntfy_topic.deep_view()
    &&& b.all_projects.compact_timeline == a.all_projects.compact_timeline
    &&& b.all_projects.column_visibility == a.all_projects.column_visibility
    &&& same_ui(a, b)
}

/// The view state that no data operation touches: the edit state, every popup and flag, and
/// the todo selection.
pub open spec fn view_kept(a: App, b: App) -> bool {
    &&& b.today == a.today
    &&& b.selected_todo == a.selected_todo
    &&& b.input_mode == a.input_mode
    &&& b.selected_task_field == a.selected_task_field
    &&& b.input_buffer@ == a.input_buffer@
    &&& b.should_quit == a.should_quit
    &&& b.current_file_path@ == a.current_file_path@
    &&& b.todo_list_open == a.todo_list_open
    &&& b.highlight_mode == a.highlight_mode
    &&& b.quit_pending == a.quit_pending
    &&& b.confirm_delete_project == a.confirm_delete_project
    &&& b.help_open == a.help_open
    &&& b.editing_todo_name == a.editing_todo_name
    &&& b.column_config_open == a.column_config_open
    &&& b.column_config_selected == a.column_config_selected
    &&& b.after_save == a.after_save
    &&& b.show_archived == a.show_archived
    &&& b.overwrite_pending == a.overwrite_pending
    &&& b.selected_subtask == a.selected_subtask
}

/// What no project-level operation touches: the other saved settings and the todo list, and
/// the view state of [`view_kept`].
pub open spec fn rest_kept(a: App, b: App) -> bool {
    &&& b.all_projects.todo_list.deep_view() == a.all_projects.todo_list.deep_view()
    &&& b.all_projects.ntfy_topic.deep_view() == a.all_projects.ntfy_topic.deep_view()
    &&& b.all_projects.compact_timeline == a.all_projects.compact_timeline
    &&& b.all_projects.column_visibility == a.all_projects.column_visibility
    &&& view_kept(a, b)
}

/// The history, the deleted projects and the view state are unchanged.
pub open spec fn same_ui(a: App, b: App) -> bool {
    &&& b.today == a.today
    &&& b.selected_task == a.selected_task
    &&& b.selected_todo == a.selected_todo
    &&& b.input_mode == a.input_mode
    &&& b.focus_area == a.focus_area
    &&& b.selected_task_field == a.selected_task_field
    &&& b.input_buffer@ == a.input_buffer@
    &&& b.should_quit == a.should_quit
    &&& b.status_message@ == a.status_message@
    &&& b.history.deep_view() == a.history.deep_view()
    &&& b.redo_history.deep_view() == a.redo_history.deep_view()
    &&& b.history@.len() == a.history@.len()
    &&& b.redo_history@.len() == a.redo_history@.len()
    &&& b.deleted_projects@.len() == a.deleted_projects@.len()
    &&& b.current_file_path@ == a.current_file_path@
    &&& b.todo_list_open == a.todo_list_open
    &&& b.highlight_mode == a.highlight_mode
    &&& b.is_dirty == a.is_dirty
    &&& b.quit_pending == a.quit_pending
    &&& b.confirm_delete_project == a.confirm_delete_project
    &&& b.deleted_projects.deep_view() == a.deleted_projects.deep_view()
    &&& b.help_open == a.help_open
    &&& b.editing_todo_name == a.editing_todo_name
    &&& b.column_config_open == a.column_config_open
    &&& b.column_config_selected == a.column_config_selected
    &&& b.after_save == a.after_save
    &&& b.show_archived == a.show_archived
    &&& b.overwrite_pending == a.overwrite_pending
    &&& b.selected_subtask == a.selected_subtask
}

impl App {
    /// Recomputes the next free task id and the dates of the current project.  Returns
    /// `false` exactly where the computation cannot complete (an id overflow, a date out of
    /// range, or a cycle of parents); the state is then left to be discarded.
    pub fn recalculate_schedule(&mut self) -> (ok: bool)
        requires
            old(self).wf(),
        ensures
            recalculate_schedule_post(*old(self), *final(self), ok),

    {
        let cur = self.current_project_index;
        let m = largest_id(&self.all_projects.projects[cur].tasks);
        if m == u32::MAX {
            return false;
        }
        self.next_task_id = m + 1;
        let pstart = self.all_projects.projects[cur].project_start_date;
        proof {
            assert(self.all_projects.deep_view().projects[cur as int] == self.all_projects.projects@[cur as int].deep_view());
            assert(self.all_projects.projects@[cur as int].deep_view().tasks.len() < u32::MAX - 2);
            lemma_scheduled_shape(old(self).tasks_v(), pstart@);
        }
        match schedule_tasks(&self.all_projects.projects[cur].tasks, pstart) {
            Some(ts) => {
                self.all_projects.projects[cur].tasks = ts;
                proof {
                    assert(self.all_projects.projects.deep_view() =~= old(self).all_projects.projects.deep_view().update(cur as int, self.project_v()));
                    let d = AllV { active: self.current_project_index, ..self.all_projects.deep_view() };
                    assert forall|i: int| 0 <= i < d.projects.len() implies (#[trigger] d.projects[i]).tasks.len() < u32::MAX - 2 by {
                        let od = AllV { active: old(self).current_project_index, ..old(self).all_projects.deep_view() };
                        assert(od.projects[i].tasks.len() < u32::MAX - 2);
                    }
                }
                true
            },
            None => false,
        }
    }
}

/// Well-formedness depends on the data, the history and the current index only.
pub proof fn lemma_wf_same_data(a: App, b: App)
    requires
        a.wf(),
        b.all_projects == a.all_projects,
        b.current_project_index == a.current_project_index,
        b.history == a.history,
        b.redo_history == a.redo_history,
        b.deleted_projects == a.deleted_projects,
    ensures
        b.wf(),
{
}

/// What scheduling the current project again does.
pub open spec fn recalculate_schedule_post(a: App, b: App, ok: bool) -> bool {
    &&& ok == recalc_completes(a.tasks_v(), a.project_v().start)
    &&& ok ==> b.wf()
    &&& ok ==> b.tasks_v() == scheduled(a.tasks_v(), a.project_v().start)
    &&& ok ==> b.next_task_id == max_id(a.tasks_v()) + 1
    &&& ok ==> only_tasks_changed(a, b)
    &&& same_ui(a, b)
    &&& b.current_project_index == a.current_project_index
}

} // verus!
