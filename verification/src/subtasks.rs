//! The steps of a todo entry: entering and leaving them, moving among them, adding, removing,
//! completing and naming them.

use vstd::prelude::*;
use crate::model::{AllV, SubtaskV, TodoItem, TodoSubtask, TodoV, clone_todos, clone_subtasks};
use crate::app::{App, FocusArea, InputMode};
use crate::history::{with_active, snapshot_taken};
use crate::text::concat3;

verus! {

/// The selected todo entry and its selected step, when both exist.
pub open spec fn step_selected(a: App) -> Option<(int, int)> {
    let todos = a.all_projects.todo_list.deep_view();
    match (a.selected_todo, a.selected_subtask) {
        (Some(i), Some(s)) => if i < todos.len() && s < todos[i as int].subtasks.len() {
            Some((i as int, s as int))
        } else {
            None
        },
        _ => None,
    }
}

/// The todo list with the steps of entry `i` replaced.
pub open spec fn with_steps(todos: Seq<TodoV>, i: int, steps: Seq<SubtaskV>) -> Seq<TodoV> {
    todos.update(i, TodoV { subtasks: steps, ..todos[i] })
}

/// A new step without text.
pub open spec fn empty_step() -> SubtaskV {
    SubtaskV { text: Seq::empty(), completed: false }
}

/// The step selection after removing step `s` of a list that had `n` steps.
pub open spec fn step_after_removal(s: int, n: int) -> Option<usize> {
    if n - 1 == 0 {
        None
    } else if s >= n - 1 {
        Some((n - 2) as usize)
    } else {
        Some(s as usize)
    }
}

/// The state after a snapshot for undo and a change of the steps of entry `i` to `steps`,
/// with the step selection `sel`.
pub open spec fn steps_changed(a: App, b: App, i: int, steps: Seq<SubtaskV>, sel: Option<usize>) -> bool {
    let todos = a.all_projects.todo_list.deep_view();
    &&& b.wf()
    &&& b.history.deep_view() == a.history.deep_view().push(with_active(a.all_projects.deep_view(), a.current_project_index))
    &&& b.redo_history@.len() == 0
    &&& b.all_projects.deep_view() == (AllV {
        todos: with_steps(todos, i, steps),
        ..with_active(a.all_projects.deep_view(), a.current_project_index)
    })
    &&& b.current_project_index == a.current_project_index
    &&& b.selected_todo == a.selected_todo
    &&& b.selected_subtask == sel
    &&& b.is_dirty
}

/// `l` (or the right arrow) in the todo list: enters the steps of the selected entry, if it has
/// any.
pub open spec fn enter_steps_post(a: App, b: App) -> bool {
    let todos = a.all_projects.todo_list.deep_view();
    if a.selected_todo is Some && a.selected_todo->0 < todos.len() && todos[a.selected_todo->0 as int].subtasks.len() > 0 {
        b == (App { selected_subtask: Some(0usize), ..a })
    } else {
        b == a
    }
}

/// `j` (or the down arrow) among the steps.
pub open spec fn next_step_post(a: App, b: App) -> bool {
    match step_selected(a) {
        Some((i, s)) => if s + 1 < a.all_projects.todo_list.deep_view()[i].subtasks.len() {
            b == (App { selected_subtask: Some((s + 1) as usize), ..a })
        } else {
            b == a
        },
        None => b == a,
    }
}

/// `k` (or the up arrow) among the steps.
pub open spec fn previous_step_post(a: App, b: App) -> bool {
    match step_selected(a) {
        Some((i, s)) => if s > 0 {
            b == (App { selected_subtask: Some((s - 1) as usize), ..a })
        } else {
            b == a
        },
        None => b == a,
    }
}

/// A new, empty step at position `at` of entry `i`, whose text is then edited.
pub open spec fn step_added(a: App, b: App, i: int, at: int) -> bool {
    let steps = a.all_projects.todo_list.deep_view()[i].subtasks;
    &&& steps_changed(a, b, i, steps.insert(at, empty_step()), Some(at as usize))
    &&& b.input_mode == InputMode::Editing
    &&& b.input_buffer@.len() == 0
    &&& b.focus_area == a.focus_area
}

/// `a` among the steps: a new step after the selected one.
pub open spec fn insert_step_post(a: App, b: App) -> bool {
    match step_selected(a) {
        Some((i, s)) => step_added(a, b, i, s + 1),
        None => b == a,
    }
}

/// `i` in the todo list: a new step at the end of the selected entry's steps.
pub open spec fn append_step_post(a: App, b: App) -> bool {
    let todos = a.all_projects.todo_list.deep_view();
    match a.selected_todo {
        Some(i) => if i < todos.len() {
            step_added(a, b, i as int, todos[i as int].subtasks.len() as int)
        } else {
            b == a
        },
        None => b == a,
    }
}

/// `-` among the steps: the selected step is removed.
pub open spec fn remove_step_post(a: App, b: App) -> bool {
    match step_selected(a) {
        Some((i, s)) => {
            let steps = a.all_projects.todo_list.deep_view()[i].subtasks;
            &&& steps_changed(a, b, i, steps.remove(s), step_after_removal(s, steps.len() as int))
            &&& b.status_message@ == "Subtask '"@ + steps[s].text + "' removed."@
        },
        None => b == a,
    }
}

/// Space among the steps: the selected step is switched between done and not done.
pub open spec fn toggle_step_post(a: App, b: App) -> bool {
    match step_selected(a) {
        Some((i, s)) => {
            let steps = a.all_projects.todo_list.deep_view()[i].subtasks;
            steps_changed(a, b, i, steps.update(s, SubtaskV { completed: !steps[s].completed, ..steps[s] }), a.selected_subtask)
        },
        None => b == a,
    }
}

impl App {
    /// `l` (or the right arrow) in the todo list.
    pub fn enter_steps(&mut self)
        ensures
            enter_steps_post(*old(self), *final(self)),
    {
        match self.selected_todo {
            Some(i) => {
                if i < self.all_projects.todo_list.len() && self.all_projects.todo_list[i].subtasks.len() > 0 {
                    proof {
                        assert(self.all_projects.todo_list.deep_view()[i as int].subtasks.len() == self.all_projects.todo_list@[i as int].subtasks@.len());
                    }
                    self.selected_subtask = Some(0);
                } else {
                    proof {
                        assert(self.all_projects.todo_list@.len() == self.all_projects.todo_list.deep_view().len());
                        if i < self.all_projects.todo_list@.len() {
                            assert(self.all_projects.todo_list.deep_view()[i as int].subtasks.len() == self.all_projects.todo_list@[i as int].subtasks@.len());
                        }
                    }
                }
            },
            None => {},
        }
    }

    /// `h` (or the left arrow) in the todo list: back to the entries.
    pub fn leave_steps(&mut self)
        ensures
            *final(self) == (App { selected_subtask: None, ..*old(self) }),
    {
        self.selected_subtask = None;
    }

    pub(crate) fn selected_step(&self) -> (r: Option<(usize, usize)>)
        ensures
            step_selected(*self) == (match r {
                Some((i, s)) => Some((i as int, s as int)),
                None => None,
            }),
            r matches Some((i, s)) ==> i < self.all_projects.todo_list@.len()
                && s < self.all_projects.todo_list@[i as int].subtasks@.len(),
    {
        match (self.selected_todo, self.selected_subtask) {
            (Some(i), Some(s)) => {
                proof {
                    assert(self.all_projects.todo_list@.len() == self.all_projects.todo_list.deep_view().len());
                    if i < self.all_projects.todo_list@.len() {
                        assert(self.all_projects.todo_list.deep_view()[i as int].subtasks.len() == self.all_projects.todo_list@[i as int].subtasks@.len());
                    }
                }
                if i < self.all_projects.todo_list.len() && s < self.all_projects.todo_list[i].subtasks.len() {
                    Some((i, s))
                } else {
                    None
                }
            },
            _ => None,
        }
    }

    /// `j` (or the down arrow) among the steps.
    pub fn next_step(&mut self)
        ensures
            next_step_post(*old(self), *final(self)),
    {
        match self.selected_step() {
            Some((i, s)) => {
                proof {
                    assert(self.all_projects.todo_list.deep_view()[i as int].subtasks.len() == self.all_projects.todo_list@[i as int].subtasks@.len());
                    assert(s < self.all_projects.todo_list@[i as int].subtasks@.len());
                }
                let n = self.all_projects.todo_list[i].subtasks.len();
                if s + 1 < n {
                    self.selected_subtask = Some(s + 1);
                }
            },
            None => {},
        }
    }

    /// `k` (or the up arrow) among the steps.
    pub fn previous_step(&mut self)
        ensures
            previous_step_post(*old(self), *final(self)),
    {
        match self.selected_step() {
            Some((_i, s)) => {
                if s > 0 {
                    self.selected_subtask = Some(s - 1);
                }
            },
            None => {},
        }
    }

    /// Replaces the steps of entry `i` after a snapshot for undo, and sets the step selection.
    fn change_steps(&mut self, i: usize, steps: Vec<TodoSubtask>, sel: Option<usize>)
        requires
            old(self).wf(),
            i < old(self).all_projects.todo_list@.len(),
        ensures
            steps_changed(*old(self), *final(self), i as int, steps.deep_view(), sel),
            final(self).input_mode == old(self).input_mode,
            final(self).input_buffer@ == old(self).input_buffer@,
            final(self).focus_area == old(self).focus_area,
            final(self).status_message@ == old(self).status_message@,
    {
        self.save_state_for_undo();
        let ghost s1 = *self;
        proof {
            assert(s1.all_projects.todo_list@.len() == s1.all_projects.todo_list.deep_view().len());
            assert(old(self).all_projects.todo_list@.len() == old(self).all_projects.todo_list.deep_view().len());
        }
        let mut v = clone_todos(&self.all_projects.todo_list);
        let mut item = v[i].copy();
        item.subtasks = steps;
        v.set(i, item);
        proof {
            assert(v.deep_view() =~= with_steps(s1.all_projects.todo_list.deep_view(), i as int, steps.deep_view()));
        }
        self.put_todos(v);
        self.selected_subtask = sel;
        self.is_dirty = true;
    }

    fn add_step_at(&mut self, i: usize, at: usize)
        requires
            old(self).wf(),
            i < old(self).all_projects.todo_list@.len(),
            at <= old(self).all_projects.todo_list@[i as int].subtasks@.len(),
        ensures
            step_added(*old(self), *final(self), i as int, at as int),
    {
        let mut steps = clone_subtasks(&self.all_projects.todo_list[i].subtasks);
        steps.insert(at, TodoSubtask { text: String::new(), completed: false });
        proof {
            assert(self.all_projects.todo_list.deep_view()[i as int].subtasks == self.all_projects.todo_list@[i as int].subtasks.deep_view());
            assert(steps.deep_view() =~= self.all_projects.todo_list.deep_view()[i as int].subtasks.insert(at as int, empty_step()));
        }
        self.change_steps(i, steps, Some(at));
        self.input_mode = InputMode::Editing;
        self.input_buffer = String::new();
    }

    /// `a` among the steps.
    pub fn insert_step(&mut self)
        requires
            old(self).wf(),
        ensures
            insert_step_post(*old(self), *final(self)),
    {
        match self.selected_step() {
            Some((i, s)) => {
                let n = self.all_projects.todo_list[i].subtasks.len();
                proof {
                    assert(s < n);
                }
                self.add_step_at(i, s + 1)
            },
            None => {},
        }
    }

    /// `i` in the todo list.
    pub fn append_step(&mut self)
        requires
            old(self).wf(),
        ensures
            append_step_post(*old(self), *final(self)),
    {
        match self.selected_todo {
            Some(i) => {
                proof {
                    assert(self.all_projects.todo_list@.len() == self.all_projects.todo_list.deep_view().len());
                }
                if i < self.all_projects.todo_list.len() {
                    let n = self.all_projects.todo_list[i].subtasks.len();
                    proof {
                        assert(self.all_projects.todo_list.deep_view()[i as int].subtasks.len() == n);
                    }
                    self.add_step_at(i, n);
                }
            },
            None => {},
        }
    }

    /// `-` among the steps.
    pub fn remove_step(&mut self)
        requires
            old(self).wf(),
        ensures
            remove_step_post(*old(self), *final(self)),
    {
        match self.selected_step() {
            Some((i, s)) => {
                let mut steps = clone_subtasks(&self.all_projects.todo_list[i].subtasks);
                let removed = steps.remove(s);
                let ghost old_steps = self.all_projects.todo_list.deep_view()[i as int].subtasks;
                proof {
                    assert(old_steps == self.all_projects.todo_list@[i as int].subtasks.deep_view());
                    assert(steps.deep_view() =~= old_steps.remove(s as int));
                }
                let n = steps.len();
                let sel = if n == 0 {
                    None
                } else if s >= n {
                    Some(n - 1)
                } else {
                    Some(s)
                };
                let msg = concat3("Subtask '", removed.text.as_str(), "' removed.");
                self.change_steps(i, steps, sel);
                self.status_message = msg;
            },
            None => {},
        }
    }

    /// Space among the steps.
    pub fn toggle_step(&mut self)
        requires
            old(self).wf(),
        ensures
            toggle_step_post(*old(self), *final(self)),
    {
        match self.selected_step() {
            Some((i, s)) => {
                let mut steps = clone_subtasks(&self.all_projects.todo_list[i].subtasks);
                let mut st = steps[s].copy();
                st.completed = !st.completed;
                steps.set(s, st);
                proof {
                    let old_steps = self.all_projects.todo_list.deep_view()[i as int].subtasks;
                    assert(old_steps == self.all_projects.todo_list@[i as int].subtasks.deep_view());
                    assert(steps.deep_view() =~= old_steps.update(
                        s as int,
                        SubtaskV { completed: !old_steps[s as int].completed, ..old_steps[s as int] },
                    ));
                }
                let sel = self.selected_subtask;
                self.change_steps(i, steps, sel);
            },
            None => {},
        }
    }
}

} // verus!
