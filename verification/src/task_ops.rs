//! Editing the tasks of the current project.

use vstd::prelude::*;
use crate::date::Date;
use crate::model::{AllV, ProjectV, Task, TaskV};
use crate::app::{App, data_wf, recalc_completes, max_id, only_tasks_changed, FocusArea, ProjectField, TaskField, InputMode};
use crate::schedule::{scheduled, lemma_scheduled_shape};
use crate::renumber::{renumber, renumbered, ids_are_positions, lemma_renumbered_ids};
use crate::history::{with_active, undo_post, restored, reschedule_completes};
use crate::outline::{MoveOutcome, Move, moved_up, moved_down, move_up, move_down, IndentOutcome, Indent, indented, indent, unindented, unindent, push_range};
use crate::lookup::{first_with_id, lemma_first_with_id, find_first, lemma_last_with_id_char};
use crate::schedule_laws::ids_distinct;

verus! {

/// The state after the current project's tasks were replaced by `list` (renumbered first
/// when `renum`) and scheduled, with a snapshot taken for undo.
pub open spec fn edited(a: App, b: App, list: Seq<TaskV>, renum: bool, ok: bool) -> bool {
    let l = if renum { renumbered(list) } else { list };
    &&& ok == recalc_completes(l, a.project_v().start)
    &&& ok ==> {
        &&& b.wf()
        &&& b.tasks_v() == scheduled(l, a.project_v().start)
        &&& b.next_task_id == max_id(l) + 1
        &&& b.project_v() == (ProjectV { tasks: b.tasks_v(), ..a.project_v() })
        &&& b.current_project_index == a.current_project_index
        &&& b.all_projects.projects@.len() == a.all_projects.projects@.len()
        &&& forall|i: int| 0 <= i < a.all_projects.projects@.len() && i != a.current_project_index
            ==> (#[trigger] b.all_projects.projects@[i]).deep_view() == a.all_projects.projects@[i].deep_view()
        &&& b.all_projects.todo_list.deep_view() == a.all_projects.todo_list.deep_view()
        &&& b.history.deep_view() == a.history.deep_view().push(with_active(a.all_projects.deep_view(), a.current_project_index))
        &&& b.redo_history@.len() == 0
        &&& b.is_dirty
        &&& b.deleted_projects.deep_view() == a.deleted_projects.deep_view()
        &&& settings_kept(a, b)
    }
}

/// What editing the tasks leaves as it was: the other saved settings (the saved active
/// project becomes the current one, as the snapshot for undo records it), the todo selection
/// and every popup, flag and mode that is not about the task table.
pub open spec fn settings_kept(a: App, b: App) -> bool {
    &&& b.all_projects.active_project_index == a.current_project_index
    &&& b.all_projects.ntfy_topic.deep_view() == a.all_projects.ntfy_topic.deep_view()
    &&& b.all_projects.compact_timeline == a.all_projects.compact_timeline
    &&& b.all_projects.column_visibility == a.all_projects.column_visibility
    &&& b.today == a.today
    &&& b.selected_todo == a.selected_todo
    &&& b.should_quit == a.should_quit
    &&& b.current_file_path@ == a.current_file_path@
    &&& b.todo_list_open == a.todo_list_open
    &&& b.highlight_mode == a.highlight_mode
    &&& b.quit_pending == a.quit_pending
    &&& b.confirm_delete_project == a.confirm_delete_project
    &&& b.help_open == a.help_open
    &&& b.editing_todo_name == a.editing_todo_name
    &&& b.column_config_open == a.column_config_open
    &&& b.column_config_selected == a.column_config_selected
    &&& b.after_save == a.after_save
    &&& b.show_archived == a.show_archived
    &&& b.overwrite_pending == a.overwrite_pending
    &&& b.selected_subtask == a.selected_subtask
}

/// The table's field, the edit mode and buffer and the status message are as they were.
pub open spec fn table_view_kept(a: App, b: App) -> bool {
    &&& b.selected_task_field == a.selected_task_field
    &&& b.input_mode == a.input_mode
    &&& b.input_buffer@ == a.input_buffer@
    &&& b.status_message@ == a.status_message@
}

/// The position of the new task after inserting at `idx`.
pub open spec fn inserted<A>(s: Seq<A>, idx: int, x: A) -> Seq<A> {
    s.take(idx).push(x) + s.skip(idx)
}

impl App {
    /// Replaces the current project's tasks (keeping everything else).
    pub fn set_tasks(&mut self, ts: Vec<Task>)
        requires
            old(self).wf(),
            ts@.len() < u32::MAX - 2,
        ensures
            final(self).wf(),
            final(self).tasks_v() == ts.deep_view(),
            only_tasks_changed(*old(self), *final(self)),
            final(self).next_task_id == old(self).next_task_id,
    {
        let cur = self.current_project_index;
        self.all_projects.projects[cur].tasks = ts;
        proof {
            assert(self.all_projects.projects.deep_view() =~= old(self).all_projects.projects.deep_view().update(cur as int, self.project_v()));
            let d = AllV { active: self.current_project_index, ..self.all_projects.deep_view() };
            assert forall|i: int| 0 <= i < d.projects.len() implies (#[trigger] d.projects[i]).tasks.len() < u32::MAX - 2 by {
                let od = AllV { active: old(self).current_project_index, ..old(self).all_projects.deep_view() };
                assert(od.projects[i].tasks.len() < u32::MAX - 2);
            }
        }
    }

    /// Renumbers the current project's tasks and schedules them.  `ok` is `false` exactly
    /// where scheduling cannot complete.
    pub fn remap_ids_and_dependencies(&mut self) -> (ok: bool)
        requires
            old(self).wf(),
        ensures
            ok == recalc_completes(renumbered(old(self).tasks_v()), old(self).project_v().start),
            ok ==> final(self).wf(),
            ok ==> final(self).tasks_v() == scheduled(renumbered(old(self).tasks_v()), old(self).project_v().start),
            ok ==> final(self).next_task_id == max_id(renumbered(old(self).tasks_v())) + 1,
            ok ==> only_tasks_changed(*old(self), *final(self)),
    {
        let cur = self.current_project_index;
        proof {
            let d = AllV { active: self.current_project_index, ..self.all_projects.deep_view() };
            assert(d.projects[cur as int].tasks.len() < u32::MAX - 2);
        }
        let ts = renumber(&self.all_projects.projects[cur].tasks);
        self.set_tasks(ts);
        self.recalculate_schedule()
    }

    /// Replaces the tasks by `ts` after taking a snapshot for undo, then renumbers (when
    /// `renum`) and schedules them.
    fn commit_tasks(&mut self, ts: Vec<Task>, renum: bool) -> (ok: bool)
        requires
            old(self).wf(),
            ts@.len() < u32::MAX - 2,
        ensures
            edited(*old(self), *final(self), ts.deep_view(), renum, ok),
            ok ==> final(self).selected_task == old(self).selected_task,
            ok ==> final(self).focus_area == old(self).focus_area,
            ok ==> final(self).status_message@ == old(self).status_message@,
            ok ==> final(self).selected_task_field == old(self).selected_task_field,
            ok ==> final(self).input_mode == old(self).input_mode,
            ok ==> final(self).input_buffer@ == old(self).input_buffer@,
    {
        let ghost tv = ts.deep_view();
        self.save_state_for_undo();
        let ghost s1 = *self;
        proof {
            assert(s1.all_projects.projects.deep_view() == old(self).all_projects.projects.deep_view());
            let c = old(self).current_project_index as int;
            assert(s1.all_projects.projects.deep_view()[c] == old(self).all_projects.projects.deep_view()[c]);
            assert(s1.project_v() == old(self).project_v());
            assert forall|i: int| 0 <= i < old(self).all_projects.projects@.len() implies (#[trigger] s1.all_projects.projects@[i]).deep_view() == old(self).all_projects.projects@[i].deep_view() by {
                assert(s1.all_projects.projects.deep_view()[i] == old(self).all_projects.projects.deep_view()[i]);
            }
        }
        self.set_tasks(ts);
        let ghost s2 = *self;
        let ok = if renum {
            self.remap_ids_and_dependencies()
        } else {
            self.recalculate_schedule()
        };
        proof {
            if ok {
                assert(self.history.deep_view() == old(self).history.deep_view().push(with_active(old(self).all_projects.deep_view(), old(self).current_project_index)));
                assert(self.project_v() == (ProjectV { tasks: self.tasks_v(), ..old(self).project_v() }));
            }
        }
        ok
    }

    /// Deletes the selected task when the task table has the focus.
    #[verifier::rlimit(100)]
    pub fn delete_selected_task(&mut self) -> (ok: bool)
        requires
            old(self).wf(),
        ensures
            delete_selected_task_post(*old(self), *final(self), ok),

    {
        if self.focus_area != FocusArea::Tasks {
            return true;
        }
        let sel = match self.selected_task {
            Some(s) => s,
            None => {
                return true;
            },
        };
        let cur = self.current_project_index;
        proof {
            let d = AllV { active: self.current_project_index, ..self.all_projects.deep_view() };
            assert(d.projects[cur as int].tasks.len() < u32::MAX - 2);
        }
        let (ts, new_sel, emptied) = list_after_delete(&self.all_projects.projects[cur].tasks, sel);
        let new_focus = if emptied { FocusArea::Project(ProjectField::DayOffset) } else { FocusArea::Tasks };
        let ok = self.commit_tasks(ts, true);
        self.place_selection(new_sel, new_focus);
        ok
    }

    /// Sets the task selection and the focus, and nothing else.
    fn place_selection(&mut self, sel: Option<usize>, focus: FocusArea)
        ensures
            *final(self) == (App { selected_task: sel, focus_area: focus, ..*old(self) }),
    {
        self.selected_task = sel;
        self.focus_area = focus;
    }

    /// Moves the selected task's family above its previous sibling.  `ok` is `false` exactly
    /// where the walk up the parents never ends (a cycle of parents) or scheduling cannot complete.
    pub fn move_task_up(&mut self) -> (ok: bool)
        requires
            old(self).wf(),
        ensures
            move_task_up_post(*old(self), *final(self), ok),

    {
        let sel = match self.selected_task {
            Some(s) => s,
            None => {
                return true;
            },
        };
        let cur = self.current_project_index;
        proof {
            let d = AllV { active: self.current_project_index, ..self.all_projects.deep_view() };
            assert(d.projects[cur as int].tasks.len() < u32::MAX - 2);
        }
        match move_up(&self.all_projects.projects[cur].tasks, sel) {
            Move::Stuck => false,
            Move::Stays => true,
            Move::Moved(ts, t) => {
                proof {
                    crate::outline::law_move_keeps_tasks(self.tasks_v(), sel as int);
                    vstd::seq_lib::to_multiset_len(ts.deep_view());
                    vstd::seq_lib::to_multiset_len(self.tasks_v());
                    assert(ts@.len() == ts.deep_view().len());
                }
                let ok = self.commit_tasks(ts, true);
                self.selected_task = Some(t);
                ok
            },
        }
    }
}

impl App {
    /// Moves the selected task's family below the family that follows it.  `ok` is `false`
    /// exactly where the walk up the parents never ends (a cycle of parents) or scheduling cannot complete.
    pub fn move_task_down(&mut self) -> (ok: bool)
        requires
            old(self).wf(),
        ensures
            move_task_down_post(*old(self), *final(self), ok),

    {
        let sel = match self.selected_task {
            Some(s) => s,
            None => {
                return true;
            },
        };
        let cur = self.current_project_index;
        proof {
            let d = AllV { active: self.current_project_index, ..self.all_projects.deep_view() };
            assert(d.projects[cur as int].tasks.len() < u32::MAX - 2);
        }
        match move_down(&self.all_projects.projects[cur].tasks, sel) {
            Move::Stuck => false,
            Move::Stays => true,
            Move::Moved(ts, t) => {
                proof {
                    crate::outline::law_move_keeps_tasks(self.tasks_v(), sel as int);
                    vstd::seq_lib::to_multiset_len(ts.deep_view());
                    vstd::seq_lib::to_multiset_len(self.tasks_v());
                    assert(ts@.len() == ts.deep_view().len());
                }
                let ok = self.commit_tasks(ts, true);
                self.selected_task = Some(t);
                ok
            },
        }
    }

    /// Makes the selected task a child of the task above it.  `ok` is `false` exactly where
    /// the operation fails: the selection is past the last task, the walk up the parents never
    /// ends, or scheduling cannot complete.
    pub fn indent_task(&mut self) -> (ok: bool)
        requires
            old(self).wf(),
        ensures
            indent_task_post(*old(self), *final(self), ok),

    {
        let sel = match self.selected_task {
            Some(s) => s,
            None => {
                return true;
            },
        };
        if sel == 0 {
            return true;
        }
        let cur = self.current_project_index;
        if sel >= self.all_projects.projects[cur].tasks.len() {
            return false;
        }
        proof {
            let d = AllV { active: self.current_project_index, ..self.all_projects.deep_view() };
            assert(d.projects[cur as int].tasks.len() < u32::MAX - 2);
        }
        match indent(&self.all_projects.projects[cur].tasks, sel) {
            Indent::Stuck => false,
            Indent::Stays => true,
            Indent::Indented(ts) => {
                proof {
                    assert(ts@.len() == ts.deep_view().len());
                }
                self.commit_tasks(ts, false)
            },
        }
    }

    /// Gives the selected task its parent's parent as parent.
    pub fn unindent_task(&mut self) -> (ok: bool)
        requires
            old(self).wf(),
        ensures
            unindent_task_post(*old(self), *final(self), ok),

    {
        let sel = match self.selected_task {
            Some(s) => s,
            None => {
                return true;
            },
        };
        let cur = self.current_project_index;
        proof {
            let d = AllV { active: self.current_project_index, ..self.all_projects.deep_view() };
            assert(d.projects[cur as int].tasks.len() < u32::MAX - 2);
        }
        match unindent(&self.all_projects.projects[cur].tasks, sel) {
            None => true,
            Some(ts) => {
                proof {
                    assert(ts@.len() == ts.deep_view().len());
                }
                self.commit_tasks(ts, false)
            },
        }
    }
}

/// A new task with the given parent and manual start.
pub open spec fn new_task_v(name: Seq<char>, parent: Option<u32>, manual: Option<int>) -> TaskV {
    TaskV {
        id: 0,
        name,
        assigned_to: "Unassigned"@,
        duration: 1,
        progress: 0,
        dependencies: Seq::empty(),
        manual_start: manual,
        details: None,
        parent_id: parent,
        start: None,
        end: None,
    }
}

/// A new task with the given name, parent and manual start.
pub fn new_task(name: &str, parent: Option<u32>, manual: Option<Date>) -> (t: Task)
    ensures
        t.deep_view() == new_task_v(name@, parent, crate::date::day_of(manual)),
{
    let t = Task {
        id: 0,
        name: String::from_str(name),
        assigned_to: String::from_str("Unassigned"),
        duration: 1,
        progress: 0,
        dependencies: Vec::new(),
        manual_start_date: manual,
        details: None,
        parent_id: parent,
        start_date: None,
        end_date: None,
    };
    assert(t.dependencies@ =~= Seq::<u32>::empty());
    t
}

/// The start of the task found for `p`.
pub open spec fn start_of_parent(tasks: Seq<TaskV>, p: u32) -> Option<int> {
    match first_with_id(tasks, p) {
        Some(i) => tasks[i].start,
        None => None,
    }
}

/// The editing state that adding a task leaves: the task table has the focus, the new
/// task's name is selected and being edited.
pub open spec fn editing_new_task(b: App, idx: int) -> bool {
    &&& b.selected_task == Some(idx as usize)
    &&& b.focus_area == FocusArea::Tasks
    &&& b.selected_task_field == TaskField::Name
    &&& b.input_mode == InputMode::Editing
}

impl App {
    /// Adds a task at the end of the list, top-level, and starts editing its name.
    pub fn add_new_top_level_task(&mut self) -> (ok: bool)
        requires
            old(self).wf(),
            old(self).tasks_v().len() + 1 < u32::MAX - 2,
        ensures
            add_new_top_level_task_post(*old(self), *final(self), ok),

    {
        let cur = self.current_project_index;
        let n = self.all_projects.projects[cur].tasks.len();
        let mut ts: Vec<Task> = Vec::new();
        push_range(&mut ts, &self.all_projects.projects[cur].tasks, 0, n);
        ts.push(new_task("New Task", None, None));
        proof {
            assert(self.tasks_v().subrange(0, n as int) =~= self.tasks_v());
            assert(ts.deep_view() =~= self.tasks_v().push(new_task_v("New Task"@, None, None)));
        }
        let ok = self.commit_tasks(ts, true);
        self.selected_task = Some(n);
        self.focus_area = FocusArea::Tasks;
        self.selected_task_field = TaskField::Name;
        self.input_mode = InputMode::Editing;
        self.status_message = String::from_str("Added new top-level task.");
        ok
    }

    fn edit_new_task_name(&mut self, idx: usize)
        requires
            old(self).wf(),
        ensures
            final(self).wf(),
            *final(self) == (App {
                selected_task: Some(idx),
                focus_area: FocusArea::Tasks,
                selected_task_field: TaskField::Name,
                input_mode: InputMode::Editing,
                ..*old(self)
            }),
    {
        self.selected_task = Some(idx);
        self.focus_area = FocusArea::Tasks;
        self.selected_task_field = TaskField::Name;
        self.input_mode = InputMode::Editing;
        proof {
            crate::app::lemma_wf_same_data(*old(self), *self);
        }
    }

    /// Adds a task right after the selected one, with the same parent and starting on the
    /// parent's start, and starts editing its name; with no selection it is added at the end.
    #[verifier::rlimit(100)]
    pub fn add_new_sibling_task(&mut self) -> (ok: bool)
        requires
            old(self).wf(),
            old(self).tasks_v().len() + 1 < u32::MAX - 2,
        ensures
            old(self).selected_task matches Some(sel) && sel >= old(self).tasks_v().len() ==> !ok,
            (old(self).selected_task matches Some(sel) ==> sel < old(self).tasks_v().len()) ==> {
                let plan = sibling_plan(old(self).tasks_v(), old(self).selected_task);
                &&& edited(*old(self), *final(self), inserted(old(self).tasks_v(), plan.0, new_task_v("New Task"@, plan.1, plan.2)), true, ok)
                &&& ok ==> editing_new_task(*final(self), plan.0)
                &&& ok ==> final(self).status_message@ == "Added new sibling task."@
            },

    {
        let cur = self.current_project_index;
        let n = self.all_projects.projects[cur].tasks.len();
        if let Some(sel) = self.selected_task {
            if sel >= n {
                return false;
            }
        }
        let (ts, idx) = sibling_list(&self.all_projects.projects[cur].tasks, self.selected_task);
        self.edit_new_task_name(idx);
        self.status_message = String::from_str("Added new sibling task.");
        let ok = self.commit_tasks(ts, true);
        ok
    }

    /// Adds a sub-task of the selected task right after it, starting on the selected
    /// task's start, with the next free id before renumbering, and starts editing its name.
    pub fn add_sub_task(&mut self) -> (ok: bool)
        requires
            old(self).wf(),
            old(self).tasks_v().len() + 1 < u32::MAX - 2,
        ensures
            add_sub_task_post(*old(self), *final(self), ok),

    {
        let sel = match self.selected_task {
            Some(s) => s,
            None => {
                return true;
            },
        };
        let cur = self.current_project_index;
        let n = self.all_projects.projects[cur].tasks.len();
        if sel >= n {
            return false;
        }
        let ghost tv = self.tasks_v();
        let parent_id = self.all_projects.projects[cur].tasks[sel].id;
        let parent_start = self.all_projects.projects[cur].tasks[sel].start_date;
        let mut t = new_task("New Sub-task", Some(parent_id), parent_start);
        t.id = self.next_task_id;
        let mut ts: Vec<Task> = Vec::new();
        push_range(&mut ts, &self.all_projects.projects[cur].tasks, 0, sel + 1);
        ts.push(t);
        push_range(&mut ts, &self.all_projects.projects[cur].tasks, sel + 1, n);
        proof {
            assert(tv[sel as int] == self.all_projects.projects@[cur as int].tasks@[sel as int].deep_view());
            assert(tv.subrange(0, sel + 1) =~= tv.take(sel + 1));
            assert(tv.subrange(sel + 1, n as int) =~= tv.skip(sel + 1));
            let tt = TaskV { id: old(self).next_task_id, ..new_task_v("New Sub-task"@, Some(tv[sel as int].id), tv[sel as int].start) };
            assert(ts.deep_view() =~= inserted(tv, sel + 1, tt));
            assert(ts@.len() == ts.deep_view().len());
        }
        let ok = self.commit_tasks(ts, true);
        self.selected_task = Some(sel + 1);
        self.focus_area = FocusArea::Tasks;
        self.selected_task_field = TaskField::Name;
        self.input_mode = InputMode::Editing;
        ok
    }
}

/// Where a new sibling task goes, its parent and its manual start.
pub open spec fn sibling_plan(ts: Seq<TaskV>, selected: Option<usize>) -> (int, Option<u32>, Option<int>) {
    let (idx, parent) = match selected {
        Some(sel) => (sel + 1, ts[sel as int].parent_id),
        None => (ts.len() as int, None),
    };
    let manual = match parent {
        Some(p) => start_of_parent(ts, p),
        None => None,
    };
    (idx, parent, manual)
}

/// The tasks with a new sibling task inserted, and its index.
fn sibling_list(tasks: &Vec<Task>, selected: Option<usize>) -> (r: (Vec<Task>, usize))
    requires
        tasks@.len() + 1 < u32::MAX - 2,
        selected matches Some(sel) ==> sel < tasks@.len(),
    ensures
        ({
            let plan = sibling_plan(tasks.deep_view(), selected);
            &&& r.0.deep_view() == inserted(tasks.deep_view(), plan.0, new_task_v("New Task"@, plan.1, plan.2))
            &&& r.1 == plan.0
            &&& r.0@.len() < u32::MAX - 2
        }),
{
    let n = tasks.len();
    let ghost tv = tasks.deep_view();
    let (idx, parent) = match selected {
        Some(sel) => (sel + 1, tasks[sel].parent_id),
        None => (n, None),
    };
    proof {
        if let Some(sel) = selected {
            assert(tv[sel as int].parent_id == tasks@[sel as int].parent_id);
        }
    }
    let manual: Option<Date> = match parent {
        Some(p) => {
            proof {
                lemma_first_with_id(tv, p);
            }
            match find_first(tasks, p) {
                Some(i) => tasks[i].start_date,
                None => None,
            }
        },
        None => None,
    };
    let mut ts: Vec<Task> = Vec::new();
    push_range(&mut ts, tasks, 0, idx);
    ts.push(new_task("New Task", parent, manual));
    push_range(&mut ts, tasks, idx, n);
    proof {
        assert(tv.subrange(0, idx as int) =~= tv.take(idx as int));
        assert(tv.subrange(idx as int, n as int) =~= tv.skip(idx as int));
        assert(ts.deep_view() =~= inserted(tv, idx as int, new_task_v("New Task"@, parent, crate::date::day_of(manual))));
        assert(ts@.len() == ts.deep_view().len());
    }
    (ts, idx)
}

/// The selection after deleting the task at `sel` from a list of `n` tasks.
pub open spec fn selection_after_delete(sel: int, n: int) -> Option<usize> {
    if sel < n {
        let m = n - 1;
        if sel > 0 && m > 0 && sel >= m {
            Some((m - 1) as usize)
        } else if m == 0 {
            None
        } else if sel < m {
            Some(sel as usize)
        } else {
            Some((m - 1) as usize)
        }
    } else {
        None
    }
}

/// The tasks without the one at `sel` (when there is one), the selection after that, and
/// whether the list became empty.
fn list_after_delete(tasks: &Vec<Task>, sel: usize) -> (r: (Vec<Task>, Option<usize>, bool))
    ensures
        r.0.deep_view() == (if sel < tasks@.len() { tasks.deep_view().remove(sel as int) } else { tasks.deep_view() }),
        r.0@.len() <= tasks@.len(),
        r.1 == selection_after_delete(sel as int, tasks@.len() as int),
        r.2 == (sel < tasks@.len() && tasks@.len() == 1),
{
    let n = tasks.len();
    let ghost tv = tasks.deep_view();
    let mut ts: Vec<Task> = Vec::new();
    push_range(&mut ts, tasks, 0, n);
    proof {
        assert(tv.subrange(0, n as int) =~= tv);
    }
    let mut new_sel: Option<usize> = None;
    if sel < n {
        ts.remove(sel);
        proof {
            assert(ts.deep_view() =~= tv.remove(sel as int));
        }
        let m = ts.len();
        if sel > 0 && m > 0 && sel >= m {
            new_sel = Some(m - 1);
        } else if m == 0 {
            new_sel = None;
        } else if sel < m {
            new_sel = Some(sel);
        } else if m > 0 {
            new_sel = Some(m - 1);
        }
    }
    (ts, new_sel, sel < n && n == 1)
}

/// What deleting the selected task does.
pub open spec fn delete_selected_task_post(a: App, b: App, ok: bool) -> bool {
    &&& !(a.focus_area == FocusArea::Tasks && a.selected_task is Some) ==> ok && b == a
    &&& a.focus_area == FocusArea::Tasks && a.selected_task is Some ==> {
                    let sel = a.selected_task->0 as int;
                    let ts = a.tasks_v();
                    let list = if sel < ts.len() { ts.remove(sel) } else { ts };
                    &&& edited(a, b, list, true, ok)
                    &&& ok ==> b.selected_task == selection_after_delete(sel, ts.len() as int)
                    &&& ok ==> table_view_kept(a, b)
                    &&& ok ==> b.focus_area == (if sel < ts.len() && ts.len() == 1 { FocusArea::Project(ProjectField::DayOffset) } else { FocusArea::Tasks })
                }
}

/// What moving the selected task (with its sub-tasks) up does.
pub open spec fn move_task_up_post(a: App, b: App, ok: bool) -> bool {
    &&& a.selected_task is None ==> ok && b == a
    &&& a.selected_task matches Some(sel) ==> match moved_up(a.tasks_v(), sel as int) {
                    MoveOutcome::Stuck => !ok,
                    MoveOutcome::Stays => ok && b == a,
                    MoveOutcome::Moved(s, t) => edited(a, b, s, true, ok)
                        && (ok ==> b.selected_task == Some(t as usize) && b.focus_area == a.focus_area
                            && table_view_kept(a, b)),
                }
}

/// What moving the selected task (with its sub-tasks) down does.
pub open spec fn move_task_down_post(a: App, b: App, ok: bool) -> bool {
    &&& a.selected_task is None ==> ok && b == a
    &&& a.selected_task matches Some(sel) ==> match moved_down(a.tasks_v(), sel as int) {
                    MoveOutcome::Stuck => !ok,
                    MoveOutcome::Stays => ok && b == a,
                    MoveOutcome::Moved(s, t) => edited(a, b, s, true, ok)
                        && (ok ==> b.selected_task == Some(t as usize) && b.focus_area == a.focus_area
                            && table_view_kept(a, b)),
                }
}

/// What indenting the selected task does.
pub open spec fn indent_task_post(a: App, b: App, ok: bool) -> bool {
    &&& !(a.selected_task matches Some(sel) && sel > 0) ==> ok && b == a
    &&& (a.selected_task matches Some(sel) && sel > 0 && sel >= a.tasks_v().len() ==> !ok)
    &&& a.selected_task is Some && 0 < a.selected_task->0 < a.tasks_v().len() ==>
                    match indented(a.tasks_v(), a.selected_task->0 as int) {
                        IndentOutcome::Stuck => !ok,
                        IndentOutcome::Stays => ok && b == a,
                        IndentOutcome::Indented(s) => edited(a, b, s, false, ok)
                            && (ok ==> b.selected_task == a.selected_task && b.focus_area == a.focus_area
                                && table_view_kept(a, b)),
                    }
}

/// What unindenting the selected task does.
pub open spec fn unindent_task_post(a: App, b: App, ok: bool) -> bool {
    &&& a.selected_task is None ==> ok && b == a
    &&& a.selected_task matches Some(sel) ==> match unindented(a.tasks_v(), sel as int) {
                    None => ok && b == a,
                    Some(s) => edited(a, b, s, false, ok)
                        && (ok ==> b.selected_task == a.selected_task && b.focus_area == a.focus_area
                            && table_view_kept(a, b)),
                }
}

/// What adding a top-level task does.
pub open spec fn add_new_top_level_task_post(a: App, b: App, ok: bool) -> bool {
    &&& edited(a, b, a.tasks_v().push(new_task_v("New Task"@, None, None)), true, ok)
    &&& ok ==> editing_new_task(b, a.tasks_v().len() as int)
    &&& ok ==> b.status_message@ == "Added new top-level task."@
}

/// What adding a sibling task does.
pub open spec fn add_new_sibling_task_post(a: App, b: App, ok: bool) -> bool {
    &&& (a.selected_task matches Some(sel) && sel >= a.tasks_v().len() ==> !ok)
    &&& (a.selected_task matches Some(sel) ==> sel < a.tasks_v().len()) ==> {
                    let plan = sibling_plan(a.tasks_v(), a.selected_task);
                    &&& edited(a, b, inserted(a.tasks_v(), plan.0, new_task_v("New Task"@, plan.1, plan.2)), true, ok)
                    &&& ok ==> editing_new_task(b, plan.0)
                    &&& ok ==> b.status_message@ == "Added new sibling task."@
                }
}

/// Adding a sibling task with a task selected puts the new task right after the selected one,
/// under the same parent (both parent links renumbered alike), selects it, and keeps every other
/// task's name in order around it.
pub proof fn law_sibling_shares_parent(a: App, b: App, ok: bool)
    requires
        a.wf(),
        add_new_sibling_task_post(a, b, ok),
        ok,
        a.selected_task matches Some(sel) && sel < a.tasks_v().len(),
    ensures
        ({
            let sel = a.selected_task->0 as int;
            let ts = a.tasks_v();
            let r = b.tasks_v();
            &&& r.len() == ts.len() + 1
            &&& b.selected_task == Some((sel + 1) as usize)
            &&& r[sel + 1].name == "New Task"@
            &&& r[sel + 1].parent_id == r[sel].parent_id
            &&& forall|i: int| 0 <= i <= sel ==> (#[trigger] r[i]).name == ts[i].name
            &&& forall|i: int| sel < i < ts.len() ==> (#[trigger] r[i + 1]).name == ts[i].name
        }),
{
    let sel = a.selected_task->0 as int;
    let ts = a.tasks_v();
    let plan = sibling_plan(ts, a.selected_task);
    let nt = new_task_v("New Task"@, plan.1, plan.2);
    let l = inserted(ts, plan.0, nt);
    let rl = renumbered(l);
    lemma_scheduled_shape(rl, a.project_v().start);
    let r = b.tasks_v();
    assert(l.len() == ts.len() + 1);
    assert(l[sel] == ts[sel]);
    assert(l[sel + 1] == nt);
    assert(r[sel].parent_id == rl[sel].parent_id);
    assert(r[sel + 1].parent_id == rl[sel + 1].parent_id);
    assert forall|i: int| 0 <= i <= sel implies (#[trigger] r[i]).name == ts[i].name by {
        assert(l[i] == ts[i]);
        assert(r[i].name == rl[i].name);
    }
    assert forall|i: int| sel < i < ts.len() implies (#[trigger] r[i + 1]).name == ts[i].name by {
        assert(l[i + 1] == ts[i]);
        assert(r[i + 1].name == rl[i + 1].name);
    }
}

/// What adding a sub-task does.
pub open spec fn add_sub_task_post(a: App, b: App, ok: bool) -> bool {
    &&& a.selected_task is None ==> ok && b == a
    &&& (a.selected_task matches Some(sel) && sel >= a.tasks_v().len() ==> !ok)
    &&& a.selected_task is Some && a.selected_task->0 < a.tasks_v().len() ==> {
                    let sel = a.selected_task->0;
                    let ts = a.tasks_v();
                    let parent = ts[sel as int];
                    let t = TaskV { id: a.next_task_id, ..new_task_v("New Sub-task"@, Some(parent.id), parent.start) };
                    &&& edited(a, b, inserted(ts, sel + 1, t), true, ok)
                    &&& ok ==> editing_new_task(b, sel + 1)
                }
}

/// Adding a sub-task puts the new task right after the selected one, as its child: after
/// renumbering, the new task's parent is the selected task's id.  This holds where no two tasks
/// share an id and the id the new task is given before renumbering is not one of theirs.
pub proof fn law_sub_task_is_child(a: App, b: App, ok: bool)
    requires
        a.wf(),
        add_sub_task_post(a, b, ok),
        ok,
        a.selected_task matches Some(sel) && sel < a.tasks_v().len(),
        ids_distinct(a.tasks_v()),
        forall|k: int| 0 <= k < a.tasks_v().len() ==> (#[trigger] a.tasks_v()[k]).id != a.next_task_id,
    ensures
        ({
            let sel = a.selected_task->0 as int;
            let r = b.tasks_v();
            &&& r.len() == a.tasks_v().len() + 1
            &&& b.selected_task == Some((sel + 1) as usize)
            &&& r[sel + 1].name == "New Sub-task"@
            &&& r[sel + 1].parent_id == Some(r[sel].id)
            &&& r[sel].name == a.tasks_v()[sel].name
        }),
{
    let sel = a.selected_task->0 as int;
    let ts = a.tasks_v();
    let parent = ts[sel];
    let t = TaskV { id: a.next_task_id, ..new_task_v("New Sub-task"@, Some(parent.id), parent.start) };
    let l = inserted(ts, sel + 1, t);
    let rl = renumbered(l);
    lemma_scheduled_shape(rl, a.project_v().start);
    assert(l.len() == ts.len() + 1);
    assert(l[sel] == ts[sel]);
    assert(l[sel + 1] == t);
    assert forall|j: int| sel < j < l.len() implies l[j].id != parent.id by {
        if j > sel + 1 {
            assert(l[j] == ts[j - 1]);
            assert(ts[sel].id != ts[j - 1].id);
        }
    }
    lemma_last_with_id_char(l, parent.id, sel);
    assert(b.tasks_v()[sel + 1].parent_id == rl[sel + 1].parent_id);
    assert(b.tasks_v()[sel].id == rl[sel].id);
}

/// The contract of [`App::add_new_sibling_task`], as one predicate.
pub proof fn lemma_sibling_post(a: App, b: App, ok: bool)
    requires
        a.selected_task matches Some(sel) && sel >= a.tasks_v().len() ==> !ok,
        (a.selected_task matches Some(sel) ==> sel < a.tasks_v().len()) ==> {
            let plan = sibling_plan(a.tasks_v(), a.selected_task);
            &&& edited(a, b, inserted(a.tasks_v(), plan.0, new_task_v("New Task"@, plan.1, plan.2)), true, ok)
            &&& ok ==> editing_new_task(b, plan.0)
            &&& ok ==> b.status_message@ == "Added new sibling task."@
        },
    ensures
        add_new_sibling_task_post(a, b, ok),
{
}


/// In a list whose ids are its positions from 1, the largest id is the number of tasks.
proof fn lemma_positions_max(tasks: Seq<TaskV>)
    requires
        ids_are_positions(tasks),
        tasks.len() < u32::MAX,
    ensures
        max_id(tasks) == tasks.len(),
    decreases tasks.len(),
{
    if tasks.len() > 0 {
        let front = tasks.drop_last();
        assert forall|i: int| 0 <= i < front.len() implies (#[trigger] front[i]).id == i + 1 by {
            assert(front[i] == tasks[i]);
        }
        lemma_positions_max(front);
    }
}

/// After an edit that renumbers the tasks (adding, deleting or moving one), each task's id is
/// its position counted from 1 and the next free id is one more than the number of tasks.
pub proof fn law_renumbered_ids_count_from_one(a: App, b: App, list: Seq<TaskV>)
    requires
        a.wf(),
        edited(a, b, list, true, true),
    ensures
        ids_are_positions(b.tasks_v()),
        b.next_task_id == b.tasks_v().len() + 1,
{
    let r = renumbered(list);
    lemma_scheduled_shape(r, a.project_v().start);
    assert(b.tasks_v().len() == r.len());
    assert(r.len() == list.len());
    let d = AllV { active: b.current_project_index, ..b.all_projects.deep_view() };
    assert(d.projects[b.current_project_index as int].tasks.len() < u32::MAX - 2);
    assert(b.tasks_v().len() < u32::MAX - 2);
    lemma_renumbered_ids(list);
    assert forall|i: int| 0 <= i < b.tasks_v().len() implies (#[trigger] b.tasks_v()[i]).id == i + 1 by {
        assert(b.tasks_v()[i].id == r[i].id);
    }
    lemma_positions_max(r);
}


/// Undo right after an edit of the tasks (adding, deleting, moving or (un)indenting one, or
/// saving a field) brings back the data as it was before the edit, with its active project
/// scheduled again, and the history as it was.
pub proof fn law_edit_then_undo(a: App, b: App, c: App, list: Seq<TaskV>, renum: bool, ok2: bool)
    requires
        a.wf(),
        edited(a, b, list, renum, true),
        undo_post(b, c, ok2),
    ensures
        ({
            let before = with_active(a.all_projects.deep_view(), a.current_project_index);
            &&& ok2 == reschedule_completes(before)
            &&& ok2 ==> restored(c, before)
            &&& ok2 ==> c.current_project_index == a.current_project_index
            &&& ok2 ==> c.history.deep_view() == a.history.deep_view()
        }),
{
    let before = with_active(a.all_projects.deep_view(), a.current_project_index);
    assert(b.history.deep_view().last() == before);
    assert(b.history@.len() == b.history.deep_view().len());
    assert(b.history.deep_view()[b.history@.len() - 1] == b.history@.last().deep_view());
    assert(b.history.deep_view().drop_last() =~= a.history.deep_view());
}

} // verus!
