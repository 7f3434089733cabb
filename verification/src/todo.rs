//! The personal todo list, and its links to tasks of the same name.

use vstd::prelude::*;
use crate::model::{AllV, ProjectData, ProjectV, TaskV, TodoItem, TodoV};
use crate::app::{rest_kept, App, data_wf, recalc_completes, max_id, FocusArea};
use crate::history::{with_active, undo_post, restored, reschedule_completes};
use crate::projects::{swapped, with_scheduled};
use crate::schedule::scheduled;
use crate::text::concat3;

verus! {

/// Index of the first task with the given name.
pub open spec fn position_by_name(tasks: Seq<TaskV>, name: Seq<char>) -> Option<int>
    decreases tasks.len(),
{
    if tasks.len() == 0 {
        None
    } else {
        match position_by_name(tasks.drop_last(), name) {
            Some(i) => Some(i),
            None => if tasks.last().name == name {
                Some(tasks.len() - 1)
            } else {
                None
            },
        }
    }
}

/// The first project that holds a task with the given name, and that task's index.
pub open spec fn project_with_name(projects: Seq<ProjectV>, name: Seq<char>) -> Option<(int, int)>
    decreases projects.len(),
{
    if projects.len() == 0 {
        None
    } else {
        match project_with_name(projects.drop_last(), name) {
            Some(r) => Some(r),
            None => match position_by_name(projects.last().tasks, name) {
                Some(t) => Some((projects.len() - 1, t)),
                None => None,
            },
        }
    }
}

/// Whether some todo entry has the given text.
pub open spec fn has_text(todos: Seq<TodoV>, text: Seq<char>) -> bool {
    exists|i: int| 0 <= i < todos.len() && (#[trigger] todos[i]).text == text
}

/// No two todo entries have the same text.
pub open spec fn texts_unique(todos: Seq<TodoV>) -> bool {
    forall|i: int, j: int| 0 <= i < j < todos.len() ==> (#[trigger] todos[i]).text != (#[trigger] todos[j]).text
}

/// The entries that are not completed, in order.
pub open spec fn uncompleted(todos: Seq<TodoV>) -> Seq<TodoV>
    decreases todos.len(),
{
    if todos.len() == 0 {
        Seq::empty()
    } else {
        let r = uncompleted(todos.drop_last());
        if todos.last().completed {
            r
        } else {
            r.push(todos.last())
        }
    }
}

/// A new, not completed todo entry.
pub open spec fn fresh_todo(text: Seq<char>) -> TodoV {
    TodoV { text, completed: false, description: Seq::empty(), subtasks: Seq::empty() }
}

pub(crate) fn position_of_name(tasks: &Vec<crate::model::Task>, name: &String) -> (r: Option<usize>)
    ensures
        position_by_name(tasks.deep_view(), name@) == (match r {
            Some(i) => Some(i as int),
            None => None,
        }),
        r matches Some(i) ==> i < tasks@.len(),
{
    let ghost tv = tasks.deep_view();
    let mut i: usize = 0;
    while i < tasks.len()
        invariant
            tv == tasks.deep_view(),
            i <= tasks@.len(),
            position_by_name(tv.take(i as int), name@) is None,
        decreases tasks@.len() - i,
    {
        proof {
            assert(tv.take(i + 1).drop_last() =~= tv.take(i as int));
            assert(tv.take(i + 1).last() == tv[i as int]);
        }
        if tasks[i].name == *name {
            proof {
                lemma_position_prefix(tv, i as int + 1, name@);
            }
            return Some(i);
        }
        i = i + 1;
    }
    assert(tv.take(i as int) =~= tv);
    None
}

proof fn lemma_position_prefix(tasks: Seq<TaskV>, k: int, name: Seq<char>)
    requires
        0 < k <= tasks.len(),
        position_by_name(tasks.take(k), name) is Some,
    ensures
        position_by_name(tasks, name) == position_by_name(tasks.take(k), name),
    decreases tasks.len() - k,
{
    if k < tasks.len() {
        assert(tasks.take(k + 1).drop_last() =~= tasks.take(k));
        lemma_position_prefix(tasks, k + 1, name);
    } else {
        assert(tasks.take(k) =~= tasks);
    }
}

fn text_in_todos(todos: &Vec<TodoItem>, text: &String) -> (r: bool)
    ensures
        r == has_text(todos.deep_view(), text@),
{
    let mut i: usize = 0;
    while i < todos.len()
        invariant
            i <= todos@.len(),
            forall|k: int| 0 <= k < i ==> todos.deep_view()[k].text != text@,
        decreases todos@.len() - i,
    {
        if todos[i].text == *text {
            assert(todos.deep_view()[i as int].text == text@);
            return true;
        }
        i = i + 1;
    }
    false
}

impl App {
    /// Adds a todo entry named after the selected task, unless one with that text exists.
    /// `ok` is `false` exactly where the selection is past the last task.
    pub fn add_selected_task_to_todo(&mut self) -> (ok: bool)
        requires
            old(self).wf(),
        ensures
            add_selected_task_to_todo_post(*old(self), *final(self), ok),

    {
        let idx = match self.selected_task {
            Some(i) => i,
            None => {
                return true;
            },
        };
        let cur = self.current_project_index;
        if idx >= self.all_projects.projects[cur].tasks.len() {
            return false;
        }
        let name = self.all_projects.projects[cur].tasks[idx].name.clone();
        proof {
            assert(self.tasks_v()[idx as int].name == name@);
        }
        if text_in_todos(&self.all_projects.todo_list, &name) {
            self.status_message = concat3("Task '", name.as_str(), "' is already in the todo list.");
        } else {
            let item = TodoItem { text: name.clone(), completed: false, description: String::new(), subtasks: Vec::new() };
            proof {
                assert(item.subtasks.deep_view() =~= Seq::<crate::model::SubtaskV>::empty());
            }
            let mut v = crate::model::clone_todos(&self.all_projects.todo_list);
            v.push(item);
            proof {
                assert(v.deep_view() =~= old(self).all_projects.todo_list.deep_view().push(fresh_todo(name@)));
            }
            let sel = self.selected_todo;
            self.commit_todos(v, sel);
            self.status_message = concat3("Task '", name.as_str(), "' added to todo list.");
        }
        true
    }

    /// Removes the selected todo entry and keeps a valid selection.
    #[verifier::rlimit(100)]
    pub fn remove_selected_todo_item(&mut self)
        requires
            old(self).wf(),
        ensures
            remove_selected_todo_item_post(*old(self), *final(self)),

    {
        let idx = match self.selected_todo {
            Some(i) => i,
            None => {
                return;
            },
        };
        if idx >= self.all_projects.todo_list.len() {
            return;
        }
        let ghost tv = self.all_projects.todo_list.deep_view();
        let mut v = crate::model::clone_todos(&self.all_projects.todo_list);
        let removed = v.remove(idx);
        proof {
            assert(v.deep_view() =~= tv.remove(idx as int));
            assert(removed.deep_view() == tv[idx as int]);
        }
        let n = v.len();
        let sel = if n == 0 {
            None
        } else if idx >= n {
            Some(n - 1)
        } else {
            Some(idx)
        };
        self.commit_todos(v, sel);
        self.status_message = concat3("Item '", removed.text.as_str(), "' removed from todo list.");
    }

    /// Removes all completed todo entries.
    pub fn clear_completed_todo_items(&mut self)
        requires
            old(self).wf(),
        ensures
            clear_completed_todo_items_post(*old(self), *final(self)),

    {
        let ghost tv = self.all_projects.todo_list.deep_view();
        let mut kept: Vec<TodoItem> = Vec::new();
        let mut any = false;
        let mut i: usize = 0;
        proof {
            assert(tv.take(0) =~= Seq::<TodoV>::empty());
            assert(uncompleted(tv.take(0)) =~= tv.take(0));
        }
        while i < self.all_projects.todo_list.len()
            invariant
                tv == self.all_projects.todo_list.deep_view(),
                i <= self.all_projects.todo_list@.len(),
                kept.deep_view() == uncompleted(tv.take(i as int)),
                any == (uncompleted(tv.take(i as int)) != tv.take(i as int)),
            decreases self.all_projects.todo_list@.len() - i,
        {
            proof {
                assert(tv.take(i + 1).drop_last() =~= tv.take(i as int));
                assert(tv.take(i + 1).last() == tv[i as int]);
                lemma_uncompleted_len(tv.take(i as int));
            }
            if self.all_projects.todo_list[i].completed {
                any = true;
                proof {
                    lemma_uncompleted_len(tv.take(i as int));
                    assert(uncompleted(tv.take(i + 1)).len() < tv.take(i + 1).len());
                }
            } else {
                kept.push(self.all_projects.todo_list[i].copy());
                proof {
                    assert(kept.deep_view() =~= uncompleted(tv.take(i + 1)));
                    if uncompleted(tv.take(i as int)) == tv.take(i as int) {
                        assert(uncompleted(tv.take(i + 1)) =~= tv.take(i + 1));
                    } else {
                        if uncompleted(tv.take(i + 1)) == tv.take(i + 1) {
                            assert(uncompleted(tv.take(i + 1)).drop_last() =~= uncompleted(tv.take(i as int)));
                            assert(tv.take(i + 1).drop_last() =~= tv.take(i as int));
                        }
                    }
                }
            }
            i = i + 1;
        }
        proof {
            assert(tv.take(i as int) =~= tv);
        }
        if any {
            self.commit_todos(kept, None);
            self.status_message = String::from_str("Cleared all completed todo items.");
        } else {
            self.status_message = String::from_str("No completed items to clear.");
        }
    }

    /// Takes a snapshot for undo, then replaces the todo list by `v` and the todo selection
    /// by `sel`.
    fn commit_todos(&mut self, v: Vec<TodoItem>, sel: Option<usize>)
        requires
            old(self).wf(),
        ensures
            todos_changed(*old(self), *final(self), v.deep_view(), sel),
            final(self).status_message == old(self).status_message,
    {
        self.save_state_for_undo();
        self.put_todos(v);
        self.selected_todo = sel;
        self.is_dirty = true;
    }

    /// Moves the selected todo entry one place up.  `ok` is `false` exactly where the
    /// selection is past the last entry (which the swap cannot reach).
    pub fn move_todo_item_up(&mut self) -> (ok: bool)
        requires
            old(self).wf(),
        ensures
            move_todo_item_up_post(*old(self), *final(self), ok),

    {
        let idx = match self.selected_todo {
            Some(i) => i,
            None => {
                return true;
            },
        };
        if idx == 0 {
            return true;
        }
        if idx >= self.all_projects.todo_list.len() {
            return false;
        }
        proof {
            assert(self.all_projects.todo_list@.len() == self.all_projects.todo_list.deep_view().len());
        }
        self.save_state_for_undo();
        proof {
            assert(self.all_projects.todo_list@.len() == self.all_projects.todo_list.deep_view().len());
        }
        self.swap_todos(idx, idx - 1);
        self.selected_todo = Some(idx - 1);
        self.is_dirty = true;
        true
    }

    /// Moves the selected todo entry one place down.  `ok` is `false` exactly where the
    /// list is empty while an entry is selected (the length arithmetic underflows).
    pub fn move_todo_item_down(&mut self) -> (ok: bool)
        requires
            old(self).wf(),
        ensures
            move_todo_item_down_post(*old(self), *final(self), ok),

    {
        let idx = match self.selected_todo {
            Some(i) => i,
            None => {
                return true;
            },
        };
        let n = self.all_projects.todo_list.len();
        if n == 0 {
            return false;
        }
        if idx < n - 1 {
            proof {
                assert(self.all_projects.todo_list@.len() == self.all_projects.todo_list.deep_view().len());
            }
            self.save_state_for_undo();
            proof {
                assert(self.all_projects.todo_list@.len() == self.all_projects.todo_list.deep_view().len());
            }
            self.swap_todos(idx, idx + 1);
            self.selected_todo = Some(idx + 1);
            self.is_dirty = true;
        }
        true
    }

    fn swap_todos(&mut self, i: usize, j: usize)
        requires
            old(self).wf(),
            i < old(self).all_projects.todo_list@.len(),
            j < old(self).all_projects.todo_list@.len(),
        ensures
            final(self).wf(),
            final(self).all_projects.todo_list.deep_view() == swapped(old(self).all_projects.todo_list.deep_view(), i as int, j as int),
            final(self).all_projects.projects.deep_view() == old(self).all_projects.projects.deep_view(),
            final(self).history.deep_view() == old(self).history.deep_view(),
            final(self).current_project_index == old(self).current_project_index,
            final(self).selected_todo == old(self).selected_todo,
            *final(self) == (App { all_projects: final(self).all_projects, ..*old(self) }),
            final(self).all_projects.deep_view() == (AllV { todos: final(self).all_projects.todo_list.deep_view(), ..old(self).all_projects.deep_view() }),
    {
        let a = self.all_projects.todo_list[i].copy();
        let b = self.all_projects.todo_list[j].copy();
        self.all_projects.todo_list.set(i, b);
        self.all_projects.todo_list.set(j, a);
        proof {
            assert(self.all_projects.todo_list.deep_view() =~= swapped(old(self).all_projects.todo_list.deep_view(), i as int, j as int));
            let d = AllV { active: self.current_project_index, ..self.all_projects.deep_view() };
            let od = AllV { active: old(self).current_project_index, ..old(self).all_projects.deep_view() };
            assert(d.projects == od.projects);
        }
    }
}

/// The text of the selected todo entry, if the selection names one.
pub open spec fn selected_todo_text(a: App) -> Option<Seq<char>> {
    let todos = a.all_projects.todo_list.deep_view();
    match a.selected_todo {
        Some(i) => if i < todos.len() { Some(todos[i as int].text) } else { None },
        None => None,
    }
}

/// What following the selected todo entry to its task does: select the task of that name in
/// the current project, or else make the first project that has one current.
pub open spec fn sync_post(a: App, b: App, ok: bool) -> bool {
    match selected_todo_text(a) {
        None => ok && b == a,
        Some(name) => match position_by_name(a.tasks_v(), name) {
            Some(t) => ok && b == (App { selected_task: Some(t as usize), ..a }),
            None => match project_with_name(a.all_projects.projects.deep_view(), name) {
                None => ok && b == a,
                Some((p, t)) => {
                    let projects = a.all_projects.projects.deep_view();
                    &&& ok == recalc_completes(projects[p].tasks, projects[p].start)
                    &&& ok ==> b.wf()
                    &&& ok ==> b.current_project_index == p
                    &&& ok ==> b.all_projects.projects.deep_view() == with_scheduled(projects, p)
                    &&& ok ==> b.all_projects.todo_list.deep_view() == a.all_projects.todo_list.deep_view()
                    &&& ok ==> b.selected_task == Some(t as usize)
                    &&& ok ==> b.status_message@ == "Jumped to project '"@ + projects[p].name + "' for task '"@ + name + "'."@
                    &&& ok ==> rest_kept(a, b)
                },
            },
        },
    }
}

/// What following a todo entry leaves as it was.
pub open spec fn sync_keeps(a: App, b: App) -> bool {
    &&& b.todo_list_open == a.todo_list_open
    &&& b.focus_area == a.focus_area
    &&& b.selected_todo == a.selected_todo
    &&& b.input_mode == a.input_mode
    &&& b.selected_task_field == a.selected_task_field
    &&& b.editing_todo_name == a.editing_todo_name
    &&& b.is_dirty == a.is_dirty
    &&& b.history.deep_view() == a.history.deep_view()
    &&& b.redo_history.deep_view() == a.redo_history.deep_view()
}

pub(crate) fn find_project_with_name(projects: &Vec<ProjectData>, name: &String) -> (r: Option<(usize, usize)>)
    ensures
        project_with_name(projects.deep_view(), name@) == (match r {
            Some((p, t)) => Some((p as int, t as int)),
            None => None,
        }),
        r matches Some((p, t)) ==> p < projects@.len() && t < projects@[p as int].tasks@.len(),
{
    let ghost pv = projects.deep_view();
    let mut i: usize = 0;
    while i < projects.len()
        invariant
            pv == projects.deep_view(),
            i <= projects@.len(),
            project_with_name(pv.take(i as int), name@) is None,
        decreases projects@.len() - i,
    {
        proof {
            assert(pv.take(i + 1).drop_last() =~= pv.take(i as int));
            assert(pv.take(i + 1).last() == pv[i as int]);
        }
        match position_of_name(&projects[i].tasks, name) {
            Some(t) => {
                proof {
                    lemma_project_prefix(pv, i as int + 1, name@);
                }
                return Some((i, t));
            },
            None => {},
        }
        i = i + 1;
    }
    assert(pv.take(i as int) =~= pv);
    None
}

proof fn lemma_project_prefix(projects: Seq<ProjectV>, k: int, name: Seq<char>)
    requires
        0 < k <= projects.len(),
        project_with_name(projects.take(k), name) is Some,
    ensures
        project_with_name(projects, name) == project_with_name(projects.take(k), name),
    decreases projects.len() - k,
{
    if k < projects.len() {
        assert(projects.take(k + 1).drop_last() =~= projects.take(k));
        lemma_project_prefix(projects, k + 1, name);
    } else {
        assert(projects.take(k) =~= projects);
    }
}

impl App {
    /// Follows the selected todo entry to the task of the same name.  `ok` is `false` exactly
    /// where the project that becomes current cannot be scheduled.
    #[verifier::rlimit(30)]
    pub fn sync_project_with_todo_selection(&mut self) -> (ok: bool)
        requires
            old(self).wf(),
        ensures
            sync_post(*old(self), *final(self), ok),
            sync_keeps(*old(self), *final(self)),
    {
        let name = match self.selected_todo {
            Some(i) => {
                if i < self.all_projects.todo_list.len() {
                    self.all_projects.todo_list[i].text.clone()
                } else {
                    return true;
                }
            },
            None => {
                return true;
            },
        };
        proof {
            assert(selected_todo_text(*old(self)) == Some(name@));
        }
        let cur = self.current_project_index;
        match position_of_name(&self.all_projects.projects[cur].tasks, &name) {
            Some(t) => {
                self.selected_task = Some(t);
                return true;
            },
            None => {},
        }
        match find_project_with_name(&self.all_projects.projects, &name) {
            None => true,
            Some((p, t)) => {
                let status = concat3("Jumped to project '", self.all_projects.projects[p].project_name.as_str(), "' for task '");
                let status = concat3(status.as_str(), name.as_str(), "'.");
                let ok = self.jump_to(p);
                self.selected_task = Some(t);
                self.status_message = status;
                proof {
                    let pv = old(self).all_projects.projects.deep_view();
                    if ok {
                        assert(self.status_message@ == "Jumped to project '"@ + pv[p as int].name + "' for task '"@ + name@ + "'."@);
                    }
                    assert(position_by_name(old(self).tasks_v(), name@) is None);
                    assert(project_with_name(pv, name@) == Some((p as int, t as int)));
                }
                ok
            },
        }
    }

    /// Makes project `p` current and schedules it again.
    fn jump_to(&mut self, p: usize) -> (ok: bool)
        requires
            old(self).wf(),
            p < old(self).all_projects.projects@.len(),
        ensures
            ({
                let pv = old(self).all_projects.projects.deep_view();
                &&& ok == recalc_completes(pv[p as int].tasks, pv[p as int].start)
                &&& ok ==> final(self).wf()
                &&& ok ==> final(self).all_projects.projects.deep_view() == with_scheduled(pv, p as int)
                &&& ok ==> final(self).all_projects.todo_list.deep_view() == old(self).all_projects.todo_list.deep_view()
                &&& final(self).current_project_index == p
                &&& sync_keeps(*old(self), *final(self))
                &&& ok ==> rest_kept(*old(self), *final(self))
            }),
    {
        self.current_project_index = p;
        let ghost mid = *self;
        proof {
            let od = AllV { active: old(self).current_project_index, ..old(self).all_projects.deep_view() };
            let d = AllV { active: self.current_project_index, ..self.all_projects.deep_view() };
            assert(d.projects == od.projects);
            assert(self.project_v() == old(self).all_projects.projects.deep_view()[p as int]);
            assert(mid.tasks_v() == old(self).all_projects.projects.deep_view()[p as int].tasks);
        }
        let ok = self.recalculate_schedule();
        proof {
            if ok {
                let pv = old(self).all_projects.projects.deep_view();
                assert(self.all_projects.projects.deep_view() =~= with_scheduled(pv, p as int));
            }
        }
        ok
    }

    /// Opens or closes the todo list.  Opening it gives it the focus, selects its first entry
    /// when none is selected, and follows the selection to its task.  `ok` is as for
    /// [`App::sync_project_with_todo_selection`].
    pub fn toggle_todo_list(&mut self) -> (ok: bool)
        requires
            old(self).wf(),
        ensures
            toggle_todo_list_post(*old(self), *final(self), ok),

    {
        self.todo_list_open = !self.todo_list_open;
        if self.todo_list_open {
            self.focus_area = FocusArea::TodoList;
            if self.selected_todo.is_none() && self.all_projects.todo_list.len() > 0 {
                self.selected_todo = Some(0);
            }
            proof {
                let sel = if old(self).selected_todo is None && old(self).all_projects.todo_list@.len() > 0 {
                    Some(0usize)
                } else {
                    old(self).selected_todo
                };
                assert(*self == App { selected_todo: sel, focus_area: FocusArea::TodoList, todo_list_open: true, ..*old(self) });
            }
            self.sync_project_with_todo_selection()
        } else {
            self.focus_area = FocusArea::Tasks;
            true
        }
    }
}

proof fn lemma_uncompleted_len(todos: Seq<TodoV>)
    ensures
        uncompleted(todos).len() <= todos.len(),
    decreases todos.len(),
{
    if todos.len() > 0 {
        lemma_uncompleted_len(todos.drop_last());
    }
}

/// Adding the selected task to the todo list never gives two entries the same text.
pub proof fn law_todo_texts_stay_unique(todos: Seq<TodoV>, name: Seq<char>)
    requires
        texts_unique(todos),
    ensures
        !has_text(todos, name) ==> texts_unique(todos.push(fresh_todo(name))),
{
    if !has_text(todos, name) {
        let t = todos.push(fresh_todo(name));
        assert forall|i: int, j: int| 0 <= i < j < t.len() implies (#[trigger] t[i]).text != (#[trigger] t[j]).text by {
            if j == todos.len() {
                assert(todos[i].text != name);
            } else {
                assert(t[i] == todos[i] && t[j] == todos[j]);
            }
        }
    }
}

/// After clearing, no entry is completed.
pub proof fn law_cleared_has_no_completed(todos: Seq<TodoV>)
    ensures
        forall|i: int| 0 <= i < uncompleted(todos).len() ==> !(#[trigger] uncompleted(todos)[i]).completed,
    decreases todos.len(),
{
    if todos.len() > 0 {
        law_cleared_has_no_completed(todos.drop_last());
        let r = uncompleted(todos.drop_last());
        assert forall|i: int| 0 <= i < uncompleted(todos).len() implies !(#[trigger] uncompleted(todos)[i]).completed by {
            if i < r.len() {
                assert(uncompleted(todos)[i] == r[i]);
            }
        }
    }
}

/// A list without completed entries is left as it is.
proof fn lemma_uncompleted_of_open(todos: Seq<TodoV>)
    requires
        forall|i: int| 0 <= i < todos.len() ==> !(#[trigger] todos[i]).completed,
    ensures
        uncompleted(todos) == todos,
    decreases todos.len(),
{
    if todos.len() > 0 {
        let front = todos.drop_last();
        assert forall|i: int| 0 <= i < front.len() implies !(#[trigger] front[i]).completed by {
            assert(front[i] == todos[i]);
        }
        lemma_uncompleted_of_open(front);
        assert(front.push(todos.last()) =~= todos);
    }
}

/// Clearing the completed entries a second time changes no data: the todo list and the
/// projects stay as the first clearing left them, and nothing is added to the history.
pub proof fn law_clear_twice(a: App, b: App, c: App)
    requires
        a.wf(),
        clear_completed_todo_items_post(a, b),
        clear_completed_todo_items_post(b, c),
    ensures
        c.all_projects == b.all_projects,
        c.history == b.history,
        c.status_message@ == "No completed items to clear."@,
{
    let todos = a.all_projects.todo_list.deep_view();
    law_cleared_has_no_completed(todos);
    lemma_uncompleted_of_open(b.all_projects.todo_list.deep_view());
    if uncompleted(todos) != todos {
        lemma_uncompleted_of_open(uncompleted(todos));
    }
}

/// Moving an entry up and then down gives back the list as it was.
pub proof fn law_todo_up_then_down(todos: Seq<TodoV>, i: int)
    requires
        0 < i < todos.len(),
    ensures
        swapped(swapped(todos, i, i - 1), i - 1, i) == todos,
{
    assert(swapped(swapped(todos, i, i - 1), i - 1, i) =~= todos);
}

/// What adding the selected task to the todo list does.
pub open spec fn add_selected_task_to_todo_post(a: App, b: App, ok: bool) -> bool {
    &&& a.selected_task is None ==> ok && b == a
    &&& a.selected_task matches Some(i) ==> (ok <==> i < a.tasks_v().len())
    &&& ok && a.selected_task is Some ==> {
                    let name = a.tasks_v()[a.selected_task->0 as int].name;
                    &&& has_text(a.all_projects.todo_list.deep_view(), name) ==> {
                        &&& b == (App { status_message: b.status_message, ..a })
                        &&& b.status_message@ == "Task '"@ + name + "' is already in the todo list."@
                    }
                    &&& !has_text(a.all_projects.todo_list.deep_view(), name) ==> {
                        &&& todos_changed(a, b, a.all_projects.todo_list.deep_view().push(fresh_todo(name)), a.selected_todo)
                        &&& b.status_message@ == "Task '"@ + name + "' added to todo list."@
                    }
                }
}

/// What removing the selected todo entry does.
pub open spec fn remove_selected_todo_item_post(a: App, b: App) -> bool {
    &&& b.wf()
    &&& ({
                    let todos = a.all_projects.todo_list.deep_view();
                    match a.selected_todo {
                        Some(i) if i < todos.len() => {
                            &&& todos_changed(a, b, todos.remove(i as int),
                                if todos.len() == 1 { None } else if i >= todos.len() - 1 { Some((todos.len() - 2) as usize) } else { Some(i) })
                            &&& b.status_message@ == "Item '"@ + todos[i as int].text + "' removed from todo list."@
                        },
                        _ => b == a,
                    }
                })
}

/// What clearing the completed todo entries does.
pub open spec fn clear_completed_todo_items_post(a: App, b: App) -> bool {
    &&& b.wf()
    &&& ({
                    let todos = a.all_projects.todo_list.deep_view();
                    if uncompleted(todos) == todos {
                        &&& b == (App { status_message: b.status_message, ..a })
                        &&& b.status_message@ == "No completed items to clear."@
                    } else {
                        &&& todos_changed(a, b, uncompleted(todos), None)
                        &&& b.status_message@ == "Cleared all completed todo items."@
                    }
                })
}

/// `b` is `a` after a snapshot for undo and a change of the todo list to `todos`, with the
/// todo selection `sel`; of the rest only the status message may differ.
pub open spec fn todos_changed(a: App, b: App, todos: Seq<TodoV>, sel: Option<usize>) -> bool {
    &&& b.wf()
    &&& b.all_projects.deep_view() == (AllV { todos, ..with_active(a.all_projects.deep_view(), a.current_project_index) })
    &&& b.history.deep_view() == a.history.deep_view().push(with_active(a.all_projects.deep_view(), a.current_project_index))
    &&& b.redo_history@.len() == 0
    &&& b == (App {
        all_projects: b.all_projects,
        history: b.history,
        redo_history: b.redo_history,
        is_dirty: true,
        selected_todo: sel,
        status_message: b.status_message,
        ..a
    })
}

/// What moving the selected todo entry up does.
pub open spec fn move_todo_item_up_post(a: App, b: App, ok: bool) -> bool {
    &&& ({
                    let todos = a.all_projects.todo_list.deep_view();
                    match a.selected_todo {
                        Some(i) if i > 0 => {
                            &&& ok == (i < todos.len())
                            &&& ok ==> todos_changed(a, b, swapped(todos, i as int, i - 1), Some((i - 1) as usize))
                                && b.status_message == a.status_message
                        },
                        _ => ok && b == a,
                    }
                })
}

/// What moving the selected todo entry down does.
pub open spec fn move_todo_item_down_post(a: App, b: App, ok: bool) -> bool {
    &&& ({
                    let todos = a.all_projects.todo_list.deep_view();
                    match a.selected_todo {
                        Some(i) => {
                            &&& ok == (todos.len() > 0)
                            &&& ok && i + 1 < todos.len() ==> todos_changed(a, b, swapped(todos, i as int, i + 1), Some((i + 1) as usize))
                                && b.status_message == a.status_message
                            &&& ok && i + 1 >= todos.len() ==> b == a
                        },
                        None => ok && b == a,
                    }
                })
}

/// What opening or closing the todo list does.
pub open spec fn toggle_todo_list_post(a: App, b: App, ok: bool) -> bool {
    &&& b.todo_list_open == !a.todo_list_open
    &&& a.todo_list_open ==> ok && b == (App { todo_list_open: false, focus_area: FocusArea::Tasks, ..a })
    &&& !a.todo_list_open ==> {
                    let sel = if a.selected_todo is None && a.all_projects.todo_list@.len() > 0 {
                        Some(0usize)
                    } else {
                        a.selected_todo
                    };
                    &&& b.focus_area == FocusArea::TodoList
                    &&& b.selected_todo == sel
                    &&& sync_post(App { selected_todo: sel, focus_area: FocusArea::TodoList, todo_list_open: true, ..a }, b, ok)
                }
}

/// Undo right after a change of the todo list (adding, deleting, toggling, moving or clearing
/// entries) brings back the data as it was before the change, with its active project
/// scheduled again, and the history as it was.
pub proof fn law_todo_edit_then_undo(a: App, b: App, c: App, todos: Seq<TodoV>, sel: Option<usize>, ok2: bool)
    requires
        a.wf(),
        todos_changed(a, b, todos, sel),
        undo_post(b, c, ok2),
    ensures
        ({
            let before = with_active(a.all_projects.deep_view(), a.current_project_index);
            &&& ok2 == reschedule_completes(before)
            &&& ok2 ==> restored(c, before)
            &&& ok2 ==> c.current_project_index == a.current_project_index
            &&& ok2 ==> c.history.deep_view() == a.history.deep_view()
        }),
{
    let before = with_active(a.all_projects.deep_view(), a.current_project_index);
    assert(b.history.deep_view().last() == before);
    assert(b.history@.len() == b.history.deep_view().len());
    assert(b.history.deep_view()[b.history@.len() - 1] == b.history@.last().deep_view());
    assert(b.history.deep_view().drop_last() =~= a.history.deep_view());
}

/// The open entries of a list are the list filtered by "not completed".
proof fn lemma_uncompleted_filter(todos: Seq<TodoV>)
    ensures
        uncompleted(todos) == todos.filter(|t: TodoV| !t.completed),
    decreases todos.len(),
{
    reveal(Seq::filter);
    if todos.len() > 0 {
        lemma_uncompleted_filter(todos.drop_last());
    }
}

/// Clearing completed entries keeps exactly the entries that are not completed, in their order:
/// the new list is the old one filtered by "not completed", so no open entry is lost and no
/// completed one stays.
pub proof fn law_clear_keeps_open_entries(a: App, b: App)
    requires
        a.wf(),
        clear_completed_todo_items_post(a, b),
    ensures
        b.all_projects.todo_list.deep_view() == a.all_projects.todo_list.deep_view().filter(|t: TodoV| !t.completed),
        forall|i: int| 0 <= i < b.all_projects.todo_list.deep_view().len()
            ==> !(#[trigger] b.all_projects.todo_list.deep_view()[i]).completed,
        forall|i: int| 0 <= i < a.all_projects.todo_list.deep_view().len()
            && !(#[trigger] a.all_projects.todo_list.deep_view()[i]).completed
            ==> b.all_projects.todo_list.deep_view().contains(a.all_projects.todo_list.deep_view()[i]),
{
    let todos = a.all_projects.todo_list.deep_view();
    lemma_uncompleted_filter(todos);
    broadcast use vstd::seq_lib::group_filter_ensures;
    if uncompleted(todos) != todos {
        assert(b.all_projects.deep_view().todos == b.all_projects.todo_list.deep_view());
    }
}

} // verus!
