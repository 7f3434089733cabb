//! What a key press does: the decisions of the planner's event loop.  Work that needs the
//! outside world (writing the data file, sending the todo list) is handed back as an
//! [`Effect`] for the caller to perform.

use vstd::prelude::*;
use crate::model::{AllV, ColumnVisibility, ProjectData, ProjectV, Task, TaskV, TodoItem, TodoV, clone_todos, clone_subtasks};
use crate::subtasks::{
    step_selected, with_steps, step_after_removal, enter_steps_post, append_step_post, next_step_post,
    previous_step_post, insert_step_post, remove_step_post, toggle_step_post,
};
use crate::date::{format_mdy, formatted_mdy};
use crate::text::{push_char, is_white, is_whitespace, trim_end, substring};
use crate::edit::buffer_saved;
use crate::app::recalculate_schedule_post;
use crate::todo::{position_by_name, project_with_name, position_of_name, find_project_with_name, sync_post, sync_keeps};
use crate::history::snapshot_taken;
use crate::lookup::{first_with_id, find_first};
use crate::edit::load_buffer_for_editing_post;
use crate::task_ops::{
    add_new_sibling_task_post, add_new_top_level_task_post, add_sub_task_post, delete_selected_task_post,
    move_task_up_post, move_task_down_post, indent_task_post, unindent_task_post,
};
use crate::todo::{
    add_selected_task_to_todo_post, remove_selected_todo_item_post, clear_completed_todo_items_post,
    move_todo_item_up_post, move_todo_item_down_post, toggle_todo_list_post,
};
use crate::nav::{
    navigate_up_post, navigate_down_post, go_to_top_post, go_to_bottom_post, focus_next_area_post,
    focus_previous_area_post, select_next_field_post, select_previous_field_post,
};
use crate::app::{App, AfterSave, FocusArea, HighlightMode, InputMode, ProjectField, TaskField};
use crate::history::{with_active, undo_done, redo_done};
use crate::projects::{
    move_project_forward_post, move_project_backward_post, delete_current_project_post,
    restore_deleted_project_post,
};
use crate::session::{PushRequest, push_requested};
use crate::archive::{archive_post, next_shown, previous_shown, find_next_shown, find_previous_shown};
use crate::text::concat3;

verus! {

/// The key of a key press.
#[derive(Clone, Copy, PartialEq, Eq, Structural)]
pub enum Key {
    Char(char),
    Enter,
    Esc,
    Tab,
    BackTab,
    Up,
    Down,
    Left,
    Right,
    Backspace,
    Other,
}

/// The modifier keys held during a key press.
#[derive(Clone, Copy, PartialEq, Eq, Structural)]
pub struct Modifiers {
    pub shift: bool,
    pub control: bool,
    pub alt: bool,
    /// Any other modifier (super, hyper, meta).
    pub other: bool,
}

/// A key press.
#[derive(Clone, Copy, PartialEq, Eq, Structural)]
pub struct KeyPress {
    pub key: Key,
    pub modifiers: Modifiers,
}

/// Control and no other modifier.
pub open spec fn control_only(m: Modifiers) -> bool {
    m.control && !m.shift && !m.alt && !m.other
}

/// No modifier, or Shift alone.
pub open spec fn plain_or_shift(m: Modifiers) -> bool {
    !m.control && !m.alt && !m.other
}

/// What the caller is to do after a key press.
pub enum Effect {
    /// Nothing more.
    Nothing,
    /// The planner cannot go on (a panic or a computation that does not end); the state is
    /// to be discarded.
    Fail,
    /// Write the data file, then call [`App::finish_save`].
    Save,
    /// Send the request, then call [`App::finish_push`].
    Push(PushRequest),
    /// Tell [`App::save_checked`] whether the data file was changed by someone else since it
    /// was last loaded or saved.
    CheckFile,
}

/// The effect of an operation that succeeds or fails.
pub open spec fn effect_of(e: Effect, ok: bool) -> bool {
    if ok {
        e is Nothing
    } else {
        e is Fail
    }
}

fn outcome(ok: bool) -> (e: Effect)
    ensures
        effect_of(e, ok),
{
    if ok {
        Effect::Nothing
    } else {
        Effect::Fail
    }
}

/// A pending quit, or a pending project deletion, is cancelled by any key but the one that
/// confirms it.
pub open spec fn cancel_post(a: App, k: KeyPress, b: App) -> bool {
    let cancel_quit = a.quit_pending && k.key != Key::Char('q');
    let cancel_delete = a.confirm_delete_project && !(control_only(k.modifiers) && k.key == Key::Char('d'));
    &&& b == (App {
        quit_pending: if cancel_quit { false } else { a.quit_pending },
        confirm_delete_project: if cancel_delete { false } else { a.confirm_delete_project },
        status_message: b.status_message,
        ..a
    })
    &&& b.status_message@ == (if cancel_delete {
        "Delete cancelled."@
    } else if cancel_quit {
        "Quit cancelled."@
    } else {
        a.status_message@
    })
}

/// The warning that the data file was changed by someone else.
pub open spec fn file_changed_message() -> Seq<char> {
    "The data file was changed by another instance. Press Ctrl+s again to overwrite it."@
}

/// The column settings with the one at position `i` switched.
pub open spec fn column_switched(c: ColumnVisibility, i: int) -> ColumnVisibility {
    if i == 0 {
        ColumnVisibility { assigned_to: !c.assigned_to, ..c }
    } else if i == 1 {
        ColumnVisibility { start_date: !c.start_date, ..c }
    } else if i == 2 {
        ColumnVisibility { end_date: !c.end_date, ..c }
    } else if i == 3 {
        ColumnVisibility { duration: !c.duration, ..c }
    } else if i == 4 {
        ColumnVisibility { progress: !c.progress, ..c }
    } else if i == 5 {
        ColumnVisibility { dependencies: !c.dependencies, ..c }
    } else {
        c
    }
}

/// A key while the column settings are open.
pub open spec fn column_key_post(a: App, k: KeyPress, b: App) -> bool {
    let sel = a.column_config_selected;
    match k.key {
        Key::Char('j') | Key::Down => b == (App {
            column_config_selected: if sel < 5 { (sel + 1) as usize } else { sel },
            ..a
        }),
        Key::Char('k') | Key::Up => b == (App {
            column_config_selected: if sel > 0 { (sel - 1) as usize } else { sel },
            ..a
        }),
        Key::Char(' ') | Key::Enter => {
            &&& b == (App { all_projects: b.all_projects, is_dirty: true, ..a })
            &&& b.all_projects.deep_view() == (AllV {
                columns: column_switched(a.all_projects.column_visibility, sel as int),
                ..a.all_projects.deep_view()
            })
            &&& b.wf()
        },
        Key::Esc | Key::Char('\\') => b == (App { column_config_open: false, ..a }),
        _ => b == a,
    }
}

/// A key while the help screen is open.
pub open spec fn help_key_post(a: App, k: KeyPress, b: App) -> bool {
    if k.key == Key::Char('?') || k.key == Key::Esc {
        b == (App { help_open: false, ..a })
    } else {
        b == a
    }
}

/// The saved data with its display settings changed.
pub open spec fn with_columns(d: AllV, c: ColumnVisibility) -> AllV {
    AllV { columns: c, ..d }
}

/// A request to save, with `after` to happen once the save has been attempted.
pub open spec fn save_requested(a: App, b: App, after: AfterSave) -> bool {
    &&& b.wf()
    &&& b.all_projects.deep_view() == with_active(a.all_projects.deep_view(), a.current_project_index)
    &&& b == (App { all_projects: b.all_projects, after_save: after, ..a })
}

/// A key with Control alone.
pub open spec fn control_key_post(a: App, k: KeyPress, b: App, e: Effect) -> bool {
    match k.key {
        Key::Char('s') => if a.overwrite_pending {
            e is Save && save_requested(App { overwrite_pending: false, ..a }, b, AfterSave::Report)
        } else {
            e is CheckFile && b == a
        },
        Key::Char('r') => (e is Nothing || e is Fail) && redo_done(a, b, e is Nothing),
        Key::Char('d') => if a.confirm_delete_project {
            (e is Nothing || e is Fail) && delete_current_project_post(App { confirm_delete_project: false, ..a }, b, e is Nothing)
        } else {
            &&& e is Nothing
            &&& b == (App { confirm_delete_project: true, status_message: b.status_message, ..a })
            &&& b.status_message@ == "Delete project '"@ + a.project_v().name + "'? Press Ctrl+d again to confirm."@
        },
        Key::Char('u') => (e is Nothing || e is Fail) && restore_deleted_project_post(a, b, e is Nothing),
        Key::Char('n') => e is Nothing && move_project_forward_post(a, b),
        Key::Char('p') => e is Nothing && move_project_backward_post(a, b),
        Key::Char('b') => {
            &&& e is Nothing
            &&& b == (App { show_archived: !a.show_archived, status_message: b.status_message, ..a })
            &&& b.status_message@ == (if a.show_archived { "Archived projects hidden."@ } else { "Archived projects shown."@ })
        },
        Key::Char('f') => match e {
            Effect::Push(r) => push_requested(a, b, Some(r)),
            Effect::Nothing => push_requested(a, b, None),
            _ => false,
        },
        _ => e is Nothing && b == a,
    }
}

impl App {
    /// Cancels a pending quit or project deletion that the key does not confirm.
    pub fn cancel_pending(&mut self, k: KeyPress)
        requires
            old(self).wf(),
        ensures
            cancel_post(*old(self), k, *final(self)),
            final(self).wf(),
    {
        if self.quit_pending && k.key != Key::Char('q') {
            self.quit_pending = false;
            self.status_message = String::from_str("Quit cancelled.");
        }
        if self.confirm_delete_project {
            let is_ctrl_d = k.modifiers.control && !k.modifiers.shift && !k.modifiers.alt && !k.modifiers.other
                && k.key == Key::Char('d');
            if !is_ctrl_d {
                self.confirm_delete_project = false;
                self.status_message = String::from_str("Delete cancelled.");
            }
        }
        proof {
            crate::app::lemma_wf_same_data(*old(self), *self);
        }
    }

    /// A key while the column settings are open.
    pub fn column_config_key(&mut self, k: KeyPress)
        requires
            old(self).wf(),
        ensures
            column_key_post(*old(self), k, *final(self)),
            final(self).wf(),
    {
        match k.key {
            Key::Char(' ') | Key::Enter => {
                self.switch_column();
            },
            Key::Esc | Key::Char('\\') => {
                self.column_config_open = false;
                proof {
                    crate::app::lemma_wf_same_data(*old(self), *self);
                }
            },
            _ => {
                proof {
                    crate::app::lemma_wf_same_data(*old(self), App { column_config_selected: 0, ..*old(self) });
                }
                let sel = self.column_config_selected;
                let next = match k.key {
                    Key::Char('j') | Key::Down => if sel < 5 { sel + 1 } else { sel },
                    Key::Char('k') | Key::Up => if sel > 0 { sel - 1 } else { sel },
                    _ => sel,
                };
                self.set_column_selected(next);
            },
        }
    }

    fn set_column_selected(&mut self, v: usize)
        ensures
            *final(self) == (App { column_config_selected: v, ..*old(self) }),
    {
        self.column_config_selected = v;
    }

    fn switch_column(&mut self)
        requires
            old(self).wf(),
        ensures
            *final(self) == (App { all_projects: final(self).all_projects, is_dirty: true, ..*old(self) }),
            final(self).all_projects.deep_view() == (AllV {
                columns: column_switched(old(self).all_projects.column_visibility, old(self).column_config_selected as int),
                ..old(self).all_projects.deep_view()
            }),
            final(self).wf(),
    {
        let mut vis = self.all_projects.column_visibility;
        let sel = self.column_config_selected;
        if sel == 0 {
            vis.assigned_to = !vis.assigned_to;
        } else if sel == 1 {
            vis.start_date = !vis.start_date;
        } else if sel == 2 {
            vis.end_date = !vis.end_date;
        } else if sel == 3 {
            vis.duration = !vis.duration;
        } else if sel == 4 {
            vis.progress = !vis.progress;
        } else if sel == 5 {
            vis.dependencies = !vis.dependencies;
        }
        self.all_projects.column_visibility = vis;
        self.is_dirty = true;
        proof {
            let od = AllV { active: old(self).current_project_index, ..old(self).all_projects.deep_view() };
            let d = AllV { active: self.current_project_index, ..self.all_projects.deep_view() };
            assert(d.projects == od.projects);
        }
    }

    /// Asks for a save of all projects, with `after` to happen once it has been attempted.
    pub fn request_save(&mut self, after: AfterSave) -> (e: Effect)
        requires
            old(self).wf(),
        ensures
            e is Save,
            save_requested(*old(self), *final(self), after),
    {
        self.begin_save(after);
        Effect::Save
    }

    /// After Ctrl+s, takes whether the data file was changed by someone else since it was last
    /// loaded or saved: if so, warns and waits for a second Ctrl+s; otherwise asks for the save.
    pub fn save_checked(&mut self, changed: bool) -> (e: Effect)
        requires
            old(self).wf(),
        ensures
            changed ==> e is Nothing && *final(self) == (App {
                overwrite_pending: true,
                status_message: final(self).status_message,
                ..*old(self)
            }) && final(self).status_message@ == file_changed_message(),
            !changed ==> e is Save && save_requested(*old(self), *final(self), AfterSave::Report),
    {
        if changed {
            self.overwrite_pending = true;
            self.status_message = String::from_str(
                "The data file was changed by another instance. Press Ctrl+s again to overwrite it.",
            );
            Effect::Nothing
        } else {
            self.request_save(AfterSave::Report)
        }
    }

    /// A key with Control alone.
    pub fn control_key(&mut self, k: KeyPress) -> (e: Effect)
        requires
            old(self).wf(),
        ensures
            control_key_post(*old(self), k, *final(self), e),
    {
        match k.key {
            Key::Char('s') => {
                if self.overwrite_pending {
                    self.overwrite_pending = false;
                    proof {
                        crate::app::lemma_wf_same_data(*old(self), *self);
                    }
                    self.request_save(AfterSave::Report)
                } else {
                    Effect::CheckFile
                }
            },
            Key::Char('r') => outcome(self.redo()),
            Key::Char('d') => {
                if self.confirm_delete_project {
                    self.confirm_delete_project = false;
                    proof {
                        crate::app::lemma_wf_same_data(*old(self), *self);
                    }
                    outcome(self.delete_current_project())
                } else {
                    let cur = self.current_project_index;
                    proof {
                        assert(self.project_v() == self.all_projects.projects@[cur as int].deep_view());
                    }
                    let msg = concat3(
                        "Delete project '",
                        self.all_projects.projects[cur].project_name.as_str(),
                        "'? Press Ctrl+d again to confirm.",
                    );
                    self.confirm_delete_project = true;
                    self.status_message = msg;
                    Effect::Nothing
                }
            },
            Key::Char('u') => outcome(self.restore_deleted_project()),
            Key::Char('n') => {
                self.move_project_forward();
                Effect::Nothing
            },
            Key::Char('p') => {
                self.move_project_backward();
                Effect::Nothing
            },
            Key::Char('b') => {
                self.toggle_show_archived();
                Effect::Nothing
            },
            Key::Char('f') => match self.begin_push() {
                Some(r) => Effect::Push(r),
                None => Effect::Nothing,
            },
            _ => Effect::Nothing,
        }
    }
}

/// `q`: with unsaved changes, the first press asks for a second one; otherwise it quits.
pub open spec fn quit_post(a: App, b: App) -> bool {
    if a.is_dirty && !a.quit_pending {
        &&& b == (App { quit_pending: true, status_message: b.status_message, ..a })
        &&& b.status_message@ == "Unsaved changes! Press 'q' again to discard changes, or Ctrl+s to save."@
    } else {
        b == (App { should_quit: true, ..a })
    }
}

/// The calendar offset that `t` (today), `H` (a day back) or `L` (a day on) sets; `None`
/// where the arithmetic overflows.
pub open spec fn calendar_offset(a: App, c: char) -> Option<i64> {
    let p = a.project_v();
    if c == 't' {
        Some((a.today@ - p.start) as i64)
    } else if c == 'H' {
        if p.day_offset > i64::MIN { Some((p.day_offset - 1) as i64) } else { None }
    } else {
        if p.day_offset < i64::MAX { Some((p.day_offset + 1) as i64) } else { None }
    }
}

/// The status after moving the calendar.
pub open spec fn calendar_message(c: char) -> Seq<char> {
    if c == 't' {
        "Jumped to today's date."@
    } else if c == 'H' {
        "Moved calendar left by 1 day."@
    } else {
        "Moved calendar right by 1 day."@
    }
}

/// `t`, `H` and `L`: moving the calendar of the current project.
pub open spec fn calendar_post(a: App, c: char, b: App, ok: bool) -> bool {
    match calendar_offset(a, c) {
        None => !ok,
        Some(o) => {
            &&& ok
            &&& b.wf()
            &&& b == (App { all_projects: b.all_projects, status_message: b.status_message, ..a })
            &&& b.all_projects.deep_view() == crate::edit::with_current(a, crate::model::ProjectV { day_offset: o, ..a.project_v() })
            &&& b.status_message@ == calendar_message(c)
        },
    }
}

/// `N` and `P`: switching projects, after a save, when there is another one.
pub open spec fn switch_key_post(a: App, after: AfterSave, b: App, e: Effect) -> bool {
    let ps = a.all_projects.projects.deep_view();
    let target = if after == AfterSave::NextProject {
        next_shown(ps, a.current_project_index as int, a.show_archived)
    } else {
        previous_shown(ps, a.current_project_index as int, a.show_archived)
    };
    if target is Some {
        e is Save && save_requested(a, b, after)
    } else {
        &&& e is Nothing
        &&& b == (App { status_message: b.status_message, ..a })
        &&& b.status_message@ == "No other projects to switch to."@
    }
}

/// `Z`: switching between the compact and the normal timeline.
pub open spec fn compact_post(a: App, b: App) -> bool {
    let c = !a.all_projects.compact_timeline;
    &&& b.wf()
    &&& b == (App { all_projects: b.all_projects, is_dirty: true, status_message: b.status_message, ..a })
    &&& b.all_projects.deep_view() == (AllV { compact: c, ..a.all_projects.deep_view() })
    &&& b.status_message@ == (if c {
        "Compact timeline (1 char/day). Press Z to switch back."@
    } else {
        "Normal timeline (3 chars/day). Press Z to switch back."@
    })
}

/// `a` in the todo list: a new, empty entry is added and its name is edited.
pub open spec fn new_todo_post(a: App, b: App) -> bool {
    let todos = a.all_projects.todo_list.deep_view();
    &&& b.wf()
    &&& b.history.deep_view() == a.history.deep_view().push(with_active(a.all_projects.deep_view(), a.current_project_index))
    &&& b.redo_history@.len() == 0
    &&& b.all_projects.deep_view() == (AllV {
        todos: todos.push(TodoV { text: Seq::empty(), completed: false, description: Seq::empty(), subtasks: Seq::empty() }),
        ..with_active(a.all_projects.deep_view(), a.current_project_index)
    })
    &&& b.current_project_index == a.current_project_index
    &&& b.selected_todo == Some(todos.len() as usize)
    &&& b.editing_todo_name
    &&& b.input_mode == InputMode::Editing
    &&& b.input_buffer@.len() == 0
    &&& b.is_dirty
}

impl App {
    /// `q`.
    pub fn quit_key(&mut self)
        ensures
            quit_post(*old(self), *final(self)),
    {
        if self.is_dirty && !self.quit_pending {
            self.quit_pending = true;
            self.status_message = String::from_str(
                "Unsaved changes! Press 'q' again to discard changes, or Ctrl+s to save.",
            );
        } else {
            self.should_quit = true;
        }
    }

    /// `t`, `H` and `L`.
    pub fn calendar_key(&mut self, c: char) -> (ok: bool)
        requires
            old(self).wf(),
            c == 't' || c == 'H' || c == 'L',
        ensures
            calendar_post(*old(self), c, *final(self), ok),
    {
        let cur = self.current_project_index;
        proof {
            assert(self.project_v() == self.all_projects.projects@[cur as int].deep_view());
        }
        let mut p = self.all_projects.projects[cur].copy();
        let msg: String;
        if c == 't' {
            p.day_offset = self.today.days_since(&p.project_start_date);
            msg = String::from_str("Jumped to today's date.");
        } else if c == 'H' {
            if p.day_offset == i64::MIN {
                return false;
            }
            p.day_offset = p.day_offset - 1;
            msg = String::from_str("Moved calendar left by 1 day.");
        } else {
            if p.day_offset == i64::MAX {
                return false;
            }
            p.day_offset = p.day_offset + 1;
            msg = String::from_str("Moved calendar right by 1 day.");
        }
        proof {
            assert(p.tasks@.len() == p.tasks.deep_view().len());
            assert(self.all_projects.projects@[cur as int].tasks@.len() == self.tasks_v().len());
        }
        self.put_current_project(p);
        self.status_message = msg;
        true
    }

    /// `N` and `P`.
    #[verifier::rlimit(100)]
    pub fn switch_key(&mut self, after: AfterSave) -> (e: Effect)
        requires
            old(self).wf(),
        ensures
            switch_key_post(*old(self), after, *final(self), e),
    {
        let cur = self.current_project_index;
        let target = if after == AfterSave::NextProject {
            find_next_shown(&self.all_projects.projects, cur, self.show_archived)
        } else {
            find_previous_shown(&self.all_projects.projects, cur, self.show_archived)
        };
        if target.is_some() {
            self.request_save(after)
        } else {
            self.status_message = String::from_str("No other projects to switch to.");
            Effect::Nothing
        }
    }

    /// `O`: switches what rows are highlighted.
    pub fn toggle_highlight(&mut self)
        ensures
            *final(self) == (App {
                highlight_mode: if old(self).highlight_mode == HighlightMode::Today {
                    HighlightMode::Urgent
                } else {
                    HighlightMode::Today
                },
                ..*old(self)
            }),
    {
        self.highlight_mode = match self.highlight_mode {
            HighlightMode::Today => HighlightMode::Urgent,
            HighlightMode::Urgent => HighlightMode::Today,
        };
    }

    /// `Z`.
    pub fn toggle_compact(&mut self)
        requires
            old(self).wf(),
        ensures
            compact_post(*old(self), *final(self)),
    {
        self.all_projects.compact_timeline = !self.all_projects.compact_timeline;
        self.is_dirty = true;
        self.status_message = if self.all_projects.compact_timeline {
            String::from_str("Compact timeline (1 char/day). Press Z to switch back.")
        } else {
            String::from_str("Normal timeline (3 chars/day). Press Z to switch back.")
        };
        proof {
            let od = AllV { active: old(self).current_project_index, ..old(self).all_projects.deep_view() };
            let d = AllV { active: self.current_project_index, ..self.all_projects.deep_view() };
            assert(d.projects == od.projects);
        }
    }

    /// `a` in the todo list.
    pub fn start_new_todo(&mut self)
        requires
            old(self).wf(),
        ensures
            new_todo_post(*old(self), *final(self)),
    {
        self.save_state_for_undo();
        let ghost s1 = *self;
        let item = TodoItem { text: String::new(), completed: false, description: String::new(), subtasks: Vec::new() };
        proof {
            assert(item.subtasks.deep_view() =~= Seq::<crate::model::SubtaskV>::empty());
        }
        self.all_projects.todo_list.push(item);
        let n = self.all_projects.todo_list.len();
        self.selected_todo = Some(n - 1);
        self.editing_todo_name = true;
        self.input_mode = InputMode::Editing;
        self.input_buffer = String::new();
        self.is_dirty = true;
        proof {
            assert(self.all_projects.todo_list.deep_view() =~= s1.all_projects.todo_list.deep_view().push(
                TodoV { text: Seq::empty(), completed: false, description: Seq::empty(), subtasks: Seq::empty() },
            ));
            let od = AllV { active: s1.current_project_index, ..s1.all_projects.deep_view() };
            let d = AllV { active: self.current_project_index, ..self.all_projects.deep_view() };
            assert(d.projects == od.projects);
            assert(s1.all_projects.todo_list@.len() == s1.all_projects.todo_list.deep_view().len());
            assert(old(self).all_projects.todo_list@.len() == old(self).all_projects.todo_list.deep_view().len());
        }
    }
}

/// Editing starts from the state `ed` with the text of the focused field.
pub open spec fn load_into(ed: App, b: App, e: Effect) -> bool {
    (e is Nothing || e is Fail) && load_buffer_for_editing_post(ed, b, e is Nothing)
}

/// After an operation that gave `mid` (and `ok1`), editing starts with the text of the field.
pub open spec fn then_load(mid: App, b: App, ok1: bool, e: Effect) -> bool {
    if ok1 {
        load_into(mid, b, e)
    } else {
        e is Fail
    }
}

/// The tasks are too many for a new one to get an id.
pub open spec fn no_room(a: App) -> bool {
    a.tasks_v().len() + 1 >= u32::MAX - 2
}

/// `a` outside the todo list: a sibling of the selected task is added and its name edited.
pub open spec fn sibling_key_post(a: App, b: App, e: Effect) -> bool {
    if no_room(a) {
        e is Fail
    } else {
        exists|mid: App, ok1: bool| #[trigger] add_new_sibling_task_post(a, mid, ok1) && then_load(mid, b, ok1, e)
    }
}

/// `A`: a top-level task is added and its name edited.
pub open spec fn top_level_key_post(a: App, b: App, e: Effect) -> bool {
    if no_room(a) {
        e is Fail
    } else {
        exists|mid: App, ok1: bool| #[trigger] add_new_top_level_task_post(a, mid, ok1) && then_load(mid, b, ok1, e)
    }
}

/// `s`: a sub-task of the selected task is added and its name edited.
pub open spec fn sub_task_key_post(a: App, b: App, e: Effect) -> bool {
    if a.selected_task is None {
        e is Nothing && b == a
    } else if no_room(a) {
        e is Fail
    } else {
        exists|mid: App, ok1: bool| #[trigger] add_sub_task_post(a, mid, ok1) && then_load(mid, b, ok1, e)
    }
}

/// Every dependency of the task is a task that is done, so its start can be set by hand.
pub open spec fn start_date_editable(tasks: Seq<TaskV>, t: TaskV) -> bool {
    forall|j: int| 0 <= j < t.dependencies.len() ==> {
        let f = first_with_id(tasks, #[trigger] t.dependencies[j]);
        f is Some && tasks[f->0].progress == 100
    }
}

/// Enter: editing of the focused field starts.
pub open spec fn enter_post(a: App, b: App, e: Effect) -> bool {
    let ed = App { input_mode: InputMode::Editing, ..a };
    let tasks = a.tasks_v();
    match a.focus_area {
        FocusArea::Tasks => match a.selected_task {
            None => e is Nothing && b == a,
            Some(i) => if a.selected_task_field == TaskField::StartDate {
                if i >= tasks.len() {
                    e is Fail
                } else if start_date_editable(tasks, tasks[i as int]) {
                    load_into(ed, b, e)
                } else {
                    &&& e is Nothing
                    &&& b == (App { status_message: b.status_message, ..a })
                    &&& b.status_message@ == "Cannot edit Start Date: dependencies are not all finished."@
                }
            } else {
                load_into(ed, b, e)
            },
        },
        FocusArea::TodoList => if a.selected_todo is Some {
            load_into(ed, b, e)
        } else {
            e is Nothing && b == a
        },
        _ => load_into(ed, b, e),
    }
}

impl App {
    /// `a` outside the todo list.
    pub fn sibling_key(&mut self) -> (e: Effect)
        requires
            old(self).wf(),
        ensures
            sibling_key_post(*old(self), *final(self), e),
    {
        let cur = self.current_project_index;
        proof {
            assert(self.all_projects.projects@[cur as int].tasks@.len() == self.tasks_v().len());
        }
        if self.all_projects.projects[cur].tasks.len() >= 4294967292usize {
            return Effect::Fail;
        }
        let ok1 = self.add_new_sibling_task();
        let ghost mid = *self;
        proof {
            crate::task_ops::lemma_sibling_post(*old(self), mid, ok1);
        }
        if !ok1 {
            return Effect::Fail;
        }
        outcome(self.load_buffer_for_editing())
    }

    /// `A`.
    pub fn top_level_key(&mut self) -> (e: Effect)
        requires
            old(self).wf(),
        ensures
            top_level_key_post(*old(self), *final(self), e),
    {
        let cur = self.current_project_index;
        proof {
            assert(self.all_projects.projects@[cur as int].tasks@.len() == self.tasks_v().len());
        }
        if self.all_projects.projects[cur].tasks.len() >= 4294967292usize {
            return Effect::Fail;
        }
        let ok1 = self.add_new_top_level_task();
        let ghost mid = *self;
        if !ok1 {
            return Effect::Fail;
        }
        outcome(self.load_buffer_for_editing())
    }

    /// `s`.
    pub fn sub_task_key(&mut self) -> (e: Effect)
        requires
            old(self).wf(),
        ensures
            sub_task_key_post(*old(self), *final(self), e),
    {
        if self.selected_task.is_none() {
            return Effect::Nothing;
        }
        let cur = self.current_project_index;
        proof {
            assert(self.all_projects.projects@[cur as int].tasks@.len() == self.tasks_v().len());
        }
        if self.all_projects.projects[cur].tasks.len() >= 4294967292usize {
            return Effect::Fail;
        }
        let ok1 = self.add_sub_task();
        let ghost mid = *self;
        if !ok1 {
            return Effect::Fail;
        }
        outcome(self.load_buffer_for_editing())
    }

    /// Enter.
    #[verifier::rlimit(60)]
    pub fn enter_key(&mut self) -> (e: Effect)
        requires
            old(self).wf(),
        ensures
            enter_post(*old(self), *final(self), e),
    {
        let cur = self.current_project_index;
        match self.focus_area {
            FocusArea::Tasks => {
                let i = match self.selected_task {
                    None => {
                        return Effect::Nothing;
                    },
                    Some(i) => i,
                };
                if self.selected_task_field == TaskField::StartDate {
                    proof {
                        assert(self.all_projects.projects@[cur as int].tasks@.len() == self.tasks_v().len());
                    }
                    if i >= self.all_projects.projects[cur].tasks.len() {
                        return Effect::Fail;
                    }
                    if !start_editable(&self.all_projects.projects[cur].tasks, i) {
                        self.status_message = String::from_str(
                            "Cannot edit Start Date: dependencies are not all finished.",
                        );
                        return Effect::Nothing;
                    }
                }
            },
            FocusArea::TodoList => {
                if self.selected_todo.is_none() {
                    return Effect::Nothing;
                }
            },
            _ => {},
        }
        self.input_mode = InputMode::Editing;
        proof {
            crate::app::lemma_wf_same_data(*old(self), *self);
        }
        outcome(self.load_buffer_for_editing())
    }
}

/// Whether the start of task `i` can be set by hand.
fn start_editable(tasks: &Vec<Task>, i: usize) -> (r: bool)
    requires
        i < tasks@.len(),
    ensures
        r == start_date_editable(tasks.deep_view(), tasks.deep_view()[i as int]),
{
    let ghost tv = tasks.deep_view();
    let deps = &tasks[i].dependencies;
    proof {
        assert(tv[i as int].dependencies == deps@);
    }
    let mut j: usize = 0;
    while j < deps.len()
        invariant
            tv == tasks.deep_view(),
            deps@ == tv[i as int].dependencies,
            j <= deps@.len(),
            forall|k: int| 0 <= k < j ==> {
                let f = first_with_id(tv, #[trigger] deps@[k]);
                f is Some && tv[f->0].progress == 100
            },
        decreases deps@.len() - j,
    {
        match find_first(tasks, deps[j]) {
            Some(k) => {
                proof {
                    crate::lookup::lemma_first_with_id(tv, deps@[j as int]);
                    assert(tv[k as int] == tasks@[k as int].deep_view());
                }
                if tasks[k].progress != 100 {
                    return false;
                }
            },
            None => {
                return false;
            },
        }
        j = j + 1;
    }
    true
}

/// Where the task named like a todo entry is: in the current project if it has one, else in
/// the first project that has one.
pub open spec fn todo_target(a: App, name: Seq<char>) -> Option<(int, int)> {
    match position_by_name(a.tasks_v(), name) {
        Some(t) => Some((a.current_project_index as int, t)),
        None => project_with_name(a.all_projects.projects.deep_view(), name),
    }
}

/// The details of a task with a note added on a line of its own.
pub open spec fn with_note(details: Option<Seq<char>>, note: Seq<char>) -> Option<Seq<char>> {
    let d = match details {
        Some(x) => x,
        None => Seq::empty(),
    };
    let d2 = if d.len() > 0 && d.last() != '\n' { d.push('\n') } else { d };
    Some(d2 + note)
}

/// The note that finishing a todo entry with a description adds to its task.
pub open spec fn todo_note(today: int, description: Seq<char>) -> Seq<char> {
    formatted_mdy(today) + ": "@ + description
}

/// The state with the todo list replaced and the unsaved-changes flag set.
pub open spec fn todo_toggled(a: App, b: App, todos: Seq<TodoV>) -> bool {
    &&& b.wf()
    &&& b == (App { all_projects: b.all_projects, is_dirty: true, ..a })
    &&& b.all_projects.deep_view() == (AllV { todos, ..a.all_projects.deep_view() })
}

/// The note on finishing a todo entry, added to task `t` of project `p` when the entry has a
/// description.
pub open spec fn noted(a: App, p: int, t: int, description: Seq<char>, b: App) -> bool {
    let pv = a.all_projects.projects.deep_view();
    let task = pv[p].tasks[t];
    &&& b.wf()
    &&& if description.len() == 0 {
        b == a
    } else {
        &&& b == (App { all_projects: b.all_projects, ..a })
        &&& b.all_projects.deep_view() == (AllV {
            projects: pv.update(p, ProjectV {
                tasks: pv[p].tasks.update(t, TaskV { details: with_note(task.details, todo_note(a.today@, description)), ..task }),
                ..pv[p]
            }),
            ..a.all_projects.deep_view()
        })
    }
}

/// After the note: the selection follows the entry to its task, whose progress is edited.
pub open spec fn follow_step(a: App, b: App, e: Effect) -> bool {
    exists|m: App, ok1: bool| {
        &&& #[trigger] sync_post(a, m, ok1)
        &&& sync_keeps(a, m)
        &&& if ok1 {
            load_into(App {
                focus_area: FocusArea::Tasks,
                selected_task_field: TaskField::Progress,
                input_mode: InputMode::Editing,
                ..m
            }, b, e)
        } else {
            e is Fail
        }
    }
}

/// After an entry became completed: its task, if there is one, gets the note and is followed.
pub open spec fn done_step(a: App, item: TodoV, b: App, e: Effect) -> bool {
    let target = todo_target(a, item.text);
    if target is None {
        &&& e is Nothing
        &&& b == (App { status_message: b.status_message, ..a })
        &&& b.status_message@ == "'"@ + item.text + "' marked done."@
    } else {
        exists|m: App| #[trigger] noted(a, (target->0).0, (target->0).1, item.description, m) && follow_step(m, b, e)
    }
}

/// The todo list with entry `i` switched between done and not done.
pub open spec fn toggled_todos(todos: Seq<TodoV>, i: int) -> Seq<TodoV> {
    todos.update(i, TodoV { completed: !todos[i].completed, ..todos[i] })
}

/// After the snapshot: the selected entry is switched between done and not done.
pub open spec fn space_step(a: App, idx: usize, b: App, e: Effect) -> bool {
    let todos = a.all_projects.todo_list.deep_view();
    if idx >= todos.len() {
        e is Nothing && b == a
    } else {
        let item = todos[idx as int];
        exists|m: App| {
            &&& #[trigger] todo_toggled(a, m, toggled_todos(todos, idx as int))
            &&& if item.completed { e is Nothing && b == m } else { done_step(m, item, b, e) }
        }
    }
}

/// Space in the todo list.
pub open spec fn space_post(a: App, b: App, e: Effect) -> bool {
    match a.selected_todo {
        None => e is Nothing && b == a,
        Some(idx) => exists|m: App| #[trigger] snapshot_taken(a, m) && space_step(m, idx, b, e),
    }
}

impl App {
    fn put_project_at(&mut self, j: usize, p: ProjectData)
        requires
            old(self).wf(),
            j < old(self).all_projects.projects@.len(),
            p.tasks@.len() == old(self).all_projects.projects@[j as int].tasks@.len(),
        ensures
            final(self).wf(),
            final(self).all_projects.deep_view() == (AllV {
                projects: old(self).all_projects.projects.deep_view().update(j as int, p.deep_view()),
                ..old(self).all_projects.deep_view()
            }),
            *final(self) == (App { all_projects: final(self).all_projects, ..*old(self) }),
    {
        self.all_projects.projects.set(j, p);
        proof {
            assert(self.all_projects.projects.deep_view() =~= old(self).all_projects.projects.deep_view().update(j as int, p.deep_view()));
            let od = AllV { active: old(self).current_project_index, ..old(self).all_projects.deep_view() };
            let d = AllV { active: self.current_project_index, ..self.all_projects.deep_view() };
            assert forall|i: int| 0 <= i < d.projects.len() implies (#[trigger] d.projects[i]).tasks.len() < u32::MAX - 2 by {
                assert(od.projects[i].tasks.len() < u32::MAX - 2);
                if i == j {
                    assert(d.projects[i].tasks.len() == od.projects[i].tasks.len());
                }
            }
        }
    }

    fn add_note(&mut self, p: usize, t: usize, description: &String)
        requires
            old(self).wf(),
            p < old(self).all_projects.projects@.len(),
            t < old(self).all_projects.projects@[p as int].tasks@.len(),
        ensures
            noted(*old(self), p as int, t as int, description@, *final(self)),
    {
        if description.unicode_len() == 0 {
            return;
        }
        let mut q = self.all_projects.projects[p].copy();
        proof {
            assert(q.tasks@.len() == q.tasks.deep_view().len());
            assert(self.all_projects.projects@[p as int].tasks@.len() == self.all_projects.projects@[p as int].tasks.deep_view().len());
        }
        let mut task = q.tasks[t].copy();
        let mut details = match &task.details {
            Some(d) => d.clone(),
            None => String::new(),
        };
        let n = details.unicode_len();
        if n > 0 && details.get_char(n - 1) != '\n' {
            push_char(&mut details, '\n');
        }
        let date = format_mdy(&self.today);
        details.append(date.as_str());
        details.append(": ");
        details.append(description.as_str());
        let ghost pv = self.all_projects.projects.deep_view();
        proof {
            assert(pv[p as int] == self.all_projects.projects@[p as int].deep_view());
            assert(pv[p as int].tasks[t as int] == q.tasks@[t as int].deep_view());
        }
        task.details = Some(details);
        q.tasks.set(t, task);
        proof {
            let old_task = pv[p as int].tasks[t as int];
            assert(task.deep_view().details == with_note(old_task.details, todo_note(self.today@, description@)));
            assert(q.tasks.deep_view() =~= pv[p as int].tasks.update(
                t as int,
                TaskV { details: with_note(old_task.details, todo_note(self.today@, description@)), ..old_task },
            ));
        }
        self.put_project_at(p, q);
    }

    fn find_todo_target(&self, name: &String) -> (r: Option<(usize, usize)>)
        requires
            self.wf(),
        ensures
            todo_target(*self, name@) == (match r {
                Some((p, t)) => Some((p as int, t as int)),
                None => None,
            }),
            r matches Some((p, t)) ==> p < self.all_projects.projects@.len()
                && t < self.all_projects.projects@[p as int].tasks@.len(),
    {
        let cur = self.current_project_index;
        match position_of_name(&self.all_projects.projects[cur].tasks, name) {
            Some(t) => Some((cur, t)),
            None => find_project_with_name(&self.all_projects.projects, name),
        }
    }

    fn toggle_todo_at(&mut self, idx: usize)
        requires
            old(self).wf(),
            idx < old(self).all_projects.todo_list@.len(),
        ensures
            todo_toggled(*old(self), *final(self), toggled_todos(old(self).all_projects.todo_list.deep_view(), idx as int)),
    {
        let mut v = clone_todos(&self.all_projects.todo_list);
        let mut item = v[idx].copy();
        item.completed = !item.completed;
        v.set(idx, item);
        proof {
            let todos = old(self).all_projects.todo_list.deep_view();
            assert(v.deep_view() =~= toggled_todos(todos, idx as int));
        }
        self.put_todos(v);
        self.is_dirty = true;
    }

    /// Space in the todo list: switches the selected entry between done and not done.  An
    /// entry that becomes done adds its description as a dated note to the task of the same
    /// name, if there is one, whose progress is then edited.
    #[verifier::rlimit(100)]
    pub fn space_key(&mut self) -> (e: Effect)
        requires
            old(self).wf(),
        ensures
            space_post(*old(self), *final(self), e),
    {
        let idx = match self.selected_todo {
            None => {
                return Effect::Nothing;
            },
            Some(i) => i,
        };
        self.save_state_for_undo();
        let ghost s1 = *self;
        if idx >= self.all_projects.todo_list.len() {
            proof {
                assert(s1.all_projects.todo_list@.len() == s1.all_projects.todo_list.deep_view().len());
            }
            return Effect::Nothing;
        }
        let item = self.all_projects.todo_list[idx].copy();
        proof {
            assert(s1.all_projects.todo_list.deep_view()[idx as int] == item.deep_view());
        }
        self.toggle_todo_at(idx);
        let ghost s2 = *self;
        if item.completed {
            return Effect::Nothing;
        }
        match self.find_todo_target(&item.text) {
            None => {
                self.status_message = concat3("'", item.text.as_str(), "' marked done.");
                Effect::Nothing
            },
            Some((p, t)) => {
                self.add_note(p, t, &item.description);
                let ghost s3 = *self;
                let ok1 = self.sync_project_with_todo_selection();
                let ghost s4 = *self;
                proof {
                    assert(todo_target(s2, item.deep_view().text) == Some((p as int, t as int)));
                    assert(noted(s2, p as int, t as int, item.deep_view().description, s3));
                    let target = todo_target(s2, item.deep_view().text);
                    assert(noted(s2, (target->0).0, (target->0).1, item.deep_view().description, s3));
                }
                if !ok1 {
                    proof {
                        assert(sync_post(s3, s4, ok1) && sync_keeps(s3, s4));
                        assert(follow_step(s3, *self, Effect::Fail));
                        assert(done_step(s2, item.deep_view(), *self, Effect::Fail));
                        assert(todo_toggled(s1, s2, toggled_todos(s1.all_projects.todo_list.deep_view(), idx as int)));
                        assert(space_step(s1, idx, *self, Effect::Fail));
                        assert(snapshot_taken(*old(self), s1));
                    }
                    return Effect::Fail;
                }
                self.focus_area = FocusArea::Tasks;
                self.selected_task_field = TaskField::Progress;
                self.input_mode = InputMode::Editing;
                proof {
                    crate::app::lemma_wf_same_data(s4, *self);
                }
                let e = outcome(self.load_buffer_for_editing());
                proof {
                    assert(sync_post(s3, s4, ok1) && sync_keeps(s3, s4));
                    assert(follow_step(s3, *self, e));
                    assert(done_step(s2, item.deep_view(), *self, e));
                    assert(todo_toggled(s1, s2, toggled_todos(s1.all_projects.todo_list.deep_view(), idx as int)));
                    assert(space_step(s1, idx, *self, e));
                    assert(snapshot_taken(*old(self), s1));
                }
                e
            },
        }
    }
}

/// The effect of an operation that may fail: nothing more, or the failure.
pub open spec fn ok_or_fail(e: Effect) -> bool {
    e is Nothing || e is Fail
}

/// Keys that move the focus, the selections or the rows.
pub open spec fn move_char_post(a: App, c: char, b: App, e: Effect) -> bool {
    let todo = a.focus_area == FocusArea::TodoList;
    if c == 'g' {
        e is Nothing && go_to_top_post(a, b)
    } else if c == 'G' {
        e is Nothing && go_to_bottom_post(a, b)
    } else if c == 'K' {
        ok_or_fail(e) && if todo { move_todo_item_up_post(a, b, e is Nothing) } else { move_task_up_post(a, b, e is Nothing) }
    } else if c == 'J' {
        ok_or_fail(e) && if todo { move_todo_item_down_post(a, b, e is Nothing) } else { move_task_down_post(a, b, e is Nothing) }
    } else if c == 'j' {
        ok_or_fail(e) && navigate_down_post(a, b, e is Nothing)
    } else if c == 'k' {
        ok_or_fail(e) && navigate_up_post(a, b, e is Nothing)
    } else if c == 'h' {
        e is Nothing && select_previous_field_post(a, b)
    } else if c == 'l' {
        e is Nothing && select_next_field_post(a, b)
    } else if c == '>' {
        ok_or_fail(e) && indent_task_post(a, b, e is Nothing)
    } else {
        ok_or_fail(e) && unindent_task_post(a, b, e is Nothing)
    }
}

/// The keys of [`move_char_post`].
pub open spec fn is_move_char(c: char) -> bool {
    c == 'g' || c == 'G' || c == 'K' || c == 'J' || c == 'j' || c == 'k' || c == 'h' || c == 'l' || c == '>' || c == '<'
}

/// Keys that add, delete or edit.
pub open spec fn edit_char_post(a: App, c: char, b: App, e: Effect) -> bool {
    let todo = a.focus_area == FocusArea::TodoList;
    if c == 'a' {
        if todo { e is Nothing && new_todo_post(a, b) } else { sibling_key_post(a, b, e) }
    } else if c == 's' {
        sub_task_key_post(a, b, e)
    } else if c == 'A' {
        top_level_key_post(a, b, e)
    } else if c == 'D' {
        ok_or_fail(e) && delete_selected_task_post(a, b, e is Nothing)
    } else if c == 'u' {
        ok_or_fail(e) && undo_done(a, b, e is Nothing)
    } else if c == '+' {
        ok_or_fail(e) && add_selected_task_to_todo_post(a, b, e is Nothing)
    } else if c == '-' {
        e is Nothing && if todo { remove_selected_todo_item_post(a, b) } else { b == a }
    } else if c == 'C' {
        if todo { e is Nothing && clear_completed_todo_items_post(a, b) } else { e is Save && save_requested(a, b, AfterSave::NewProject) }
    } else {
        if todo { space_post(a, b, e) } else { e is Nothing && b == a }
    }
}

/// The keys of [`edit_char_post`].
pub open spec fn is_edit_char(c: char) -> bool {
    c == 'a' || c == 's' || c == 'A' || c == 'D' || c == 'u' || c == '+' || c == '-' || c == 'C' || c == ' '
}

/// The other keys that do something.
pub open spec fn view_char_post(a: App, c: char, b: App, e: Effect) -> bool {
    if c == 'q' {
        e is Nothing && quit_post(a, b)
    } else if c == '?' {
        e is Nothing && b == (App { help_open: true, ..a })
    } else if c == '\\' {
        e is Nothing && b == (App { column_config_open: true, ..a })
    } else if c == 't' || c == 'H' || c == 'L' {
        ok_or_fail(e) && calendar_post(a, c, b, e is Nothing)
    } else if c == 'T' {
        ok_or_fail(e) && toggle_todo_list_post(a, b, e is Nothing)
    } else if c == 'N' {
        switch_key_post(a, AfterSave::NextProject, b, e)
    } else if c == 'P' {
        switch_key_post(a, AfterSave::PreviousProject, b, e)
    } else if c == 'O' {
        e is Nothing && b == (App {
            highlight_mode: if a.highlight_mode == HighlightMode::Today { HighlightMode::Urgent } else { HighlightMode::Today },
            ..a
        })
    } else if c == 'Z' {
        e is Nothing && compact_post(a, b)
    } else if c == 'X' {
        ok_or_fail(e) && archive_post(a, b, e is Nothing)
    } else {
        e is Nothing && b == a
    }
}

/// A character key without Control alone.
pub open spec fn char_key_post(a: App, c: char, b: App, e: Effect) -> bool {
    if is_move_char(c) {
        move_char_post(a, c, b, e)
    } else if is_edit_char(c) {
        edit_char_post(a, c, b, e)
    } else {
        view_char_post(a, c, b, e)
    }
}

/// Keys that act on the steps of todo entries: `l`, `h` and `i` in the todo list, and the
/// moving, adding, removing and completing keys while the steps are entered.
pub open spec fn is_step_key(a: App, k: KeyPress) -> bool {
    &&& a.focus_area == FocusArea::TodoList
    &&& match k.key {
        Key::Char('l') | Key::Right | Key::Char('h') | Key::Left | Key::Char('i') => true,
        Key::Char('j') | Key::Down | Key::Char('k') | Key::Up | Key::Char('a') | Key::Char('-')
        | Key::Char(' ') => a.selected_subtask is Some,
        _ => false,
    }
}

/// A key that acts on the steps of todo entries.
pub open spec fn step_key_post(a: App, k: KeyPress, b: App) -> bool {
    match k.key {
        Key::Char('l') | Key::Right => enter_steps_post(a, b),
        Key::Char('h') | Key::Left => b == (App { selected_subtask: None, ..a }),
        Key::Char('i') => append_step_post(a, b),
        Key::Char('j') | Key::Down => next_step_post(a, b),
        Key::Char('k') | Key::Up => previous_step_post(a, b),
        Key::Char('a') => insert_step_post(a, b),
        Key::Char('-') => remove_step_post(a, b),
        _ => toggle_step_post(a, b),
    }
}

/// A key without Control alone, with no pop-up open.
pub open spec fn plain_key_post(a: App, k: KeyPress, b: App, e: Effect) -> bool {
    if is_step_key(a, k) {
        e is Nothing && step_key_post(a, k, b)
    } else {
        other_key_post(a, k, b, e)
    }
}

/// A key without Control alone, with no pop-up open, that does not act on steps.
pub open spec fn other_key_post(a: App, k: KeyPress, b: App, e: Effect) -> bool {
    match k.key {
        Key::Char(c) => char_key_post(a, c, b, e),
        Key::Enter => enter_post(a, b, e),
        Key::Tab => e is Nothing && focus_next_area_post(a, b),
        Key::BackTab => e is Nothing && focus_previous_area_post(a, b),
        Key::Down => ok_or_fail(e) && navigate_down_post(a, b, e is Nothing),
        Key::Up => ok_or_fail(e) && navigate_up_post(a, b, e is Nothing),
        Key::Left => e is Nothing && select_previous_field_post(a, b),
        Key::Right => e is Nothing && select_next_field_post(a, b),
        _ => e is Nothing && b == a,
    }
}

/// A key in normal mode, once pending confirmations are dealt with: the column settings and
/// the help screen take the keys while open, Esc closes the todo list, then Control keys and
/// the others.
pub open spec fn routed_key_post(a: App, k: KeyPress, b: App, e: Effect) -> bool {
    if a.column_config_open {
        e is Nothing && column_key_post(a, k, b)
    } else if a.help_open {
        e is Nothing && help_key_post(a, k, b)
    } else if a.todo_list_open && k.key == Key::Esc {
        ok_or_fail(e) && toggle_todo_list_post(a, b, e is Nothing)
    } else if control_only(k.modifiers) {
        control_key_post(a, k, b, e)
    } else {
        plain_key_post(a, k, b, e)
    }
}

/// A key in normal mode.
pub open spec fn normal_key_post(a: App, k: KeyPress, b: App, e: Effect) -> bool {
    exists|m: App| #[trigger] cancel_post(a, k, m) && m.wf() && routed_key_post(m, k, b, e)
}

impl App {
    fn move_char(&mut self, c: char) -> (e: Effect)
        requires
            old(self).wf(),
            is_move_char(c),
        ensures
            move_char_post(*old(self), c, *final(self), e),
    {
        let todo = self.focus_area == FocusArea::TodoList;
        if c == 'g' {
            self.go_to_top();
            Effect::Nothing
        } else if c == 'G' {
            self.go_to_bottom();
            Effect::Nothing
        } else if c == 'K' {
            if todo {
                outcome(self.move_todo_item_up())
            } else {
                outcome(self.move_task_up())
            }
        } else if c == 'J' {
            if todo {
                outcome(self.move_todo_item_down())
            } else {
                outcome(self.move_task_down())
            }
        } else if c == 'j' {
            outcome(self.navigate_down())
        } else if c == 'k' {
            outcome(self.navigate_up())
        } else if c == 'h' {
            self.select_previous_field();
            Effect::Nothing
        } else if c == 'l' {
            self.select_next_field();
            Effect::Nothing
        } else if c == '>' {
            outcome(self.indent_task())
        } else {
            outcome(self.unindent_task())
        }
    }

    fn edit_char(&mut self, c: char) -> (e: Effect)
        requires
            old(self).wf(),
            is_edit_char(c),
        ensures
            edit_char_post(*old(self), c, *final(self), e),
    {
        let todo = self.focus_area == FocusArea::TodoList;
        if c == 'a' {
            if todo {
                self.start_new_todo();
                Effect::Nothing
            } else {
                self.sibling_key()
            }
        } else if c == 's' {
            self.sub_task_key()
        } else if c == 'A' {
            self.top_level_key()
        } else if c == 'D' {
            outcome(self.delete_selected_task())
        } else if c == 'u' {
            outcome(self.undo())
        } else if c == '+' {
            outcome(self.add_selected_task_to_todo())
        } else if c == '-' {
            if todo {
                self.remove_selected_todo_item();
            }
            Effect::Nothing
        } else if c == 'C' {
            if todo {
                self.clear_completed_todo_items();
                Effect::Nothing
            } else {
                self.request_save(AfterSave::NewProject)
            }
        } else {
            if todo {
                self.space_key()
            } else {
                Effect::Nothing
            }
        }
    }

    fn view_char(&mut self, c: char) -> (e: Effect)
        requires
            old(self).wf(),
        ensures
            view_char_post(*old(self), c, *final(self), e),
    {
        if c == 'q' {
            self.quit_key();
            Effect::Nothing
        } else if c == '?' {
            self.help_open = true;
            Effect::Nothing
        } else if c == '\\' {
            self.column_config_open = true;
            Effect::Nothing
        } else if c == 't' || c == 'H' || c == 'L' {
            outcome(self.calendar_key(c))
        } else if c == 'T' {
            outcome(self.toggle_todo_list())
        } else if c == 'N' {
            self.switch_key(AfterSave::NextProject)
        } else if c == 'P' {
            self.switch_key(AfterSave::PreviousProject)
        } else if c == 'O' {
            self.toggle_highlight();
            Effect::Nothing
        } else if c == 'Z' {
            self.toggle_compact();
            Effect::Nothing
        } else if c == 'X' {
            outcome(self.toggle_archive())
        } else {
            Effect::Nothing
        }
    }

    fn plain_key(&mut self, k: KeyPress) -> (e: Effect)
        requires
            old(self).wf(),
        ensures
            plain_key_post(*old(self), k, *final(self), e),
    {
        if self.is_step_key_now(k) {
            self.step_key(k);
            Effect::Nothing
        } else {
            self.other_key(k)
        }
    }

    fn is_step_key_now(&self, k: KeyPress) -> (r: bool)
        ensures
            r == is_step_key(*self, k),
    {
        if self.focus_area != FocusArea::TodoList {
            return false;
        }
        match k.key {
            Key::Char('l') | Key::Right | Key::Char('h') | Key::Left | Key::Char('i') => true,
            Key::Char('j') | Key::Down | Key::Char('k') | Key::Up | Key::Char('a') | Key::Char('-')
            | Key::Char(' ') => self.selected_subtask.is_some(),
            _ => false,
        }
    }

    fn step_key(&mut self, k: KeyPress)
        requires
            old(self).wf(),
        ensures
            step_key_post(*old(self), k, *final(self)),
    {
        match k.key {
            Key::Char('l') | Key::Right => self.enter_steps(),
            Key::Char('h') | Key::Left => self.leave_steps(),
            Key::Char('i') => self.append_step(),
            Key::Char('j') | Key::Down => self.next_step(),
            Key::Char('k') | Key::Up => self.previous_step(),
            Key::Char('a') => self.insert_step(),
            Key::Char('-') => self.remove_step(),
            _ => self.toggle_step(),
        }
    }

    fn other_key(&mut self, k: KeyPress) -> (e: Effect)
        requires
            old(self).wf(),
        ensures
            other_key_post(*old(self), k, *final(self), e),
    {
        match k.key {
            Key::Char(c) => {
                if is_move_char_exec(c) {
                    self.move_char(c)
                } else if is_edit_char_exec(c) {
                    self.edit_char(c)
                } else {
                    self.view_char(c)
                }
            },
            Key::Enter => self.enter_key(),
            Key::Tab => {
                self.focus_next_area();
                Effect::Nothing
            },
            Key::BackTab => {
                self.focus_previous_area();
                Effect::Nothing
            },
            Key::Down => outcome(self.navigate_down()),
            Key::Up => outcome(self.navigate_up()),
            Key::Left => {
                self.select_previous_field();
                Effect::Nothing
            },
            Key::Right => {
                self.select_next_field();
                Effect::Nothing
            },
            _ => Effect::Nothing,
        }
    }

    fn routed_key(&mut self, k: KeyPress) -> (e: Effect)
        requires
            old(self).wf(),
        ensures
            routed_key_post(*old(self), k, *final(self), e),
    {
        if self.column_config_open {
            self.column_config_key(k);
            Effect::Nothing
        } else if self.help_open {
            if k.key == Key::Char('?') || k.key == Key::Esc {
                self.help_open = false;
            }
            Effect::Nothing
        } else if self.todo_list_open && k.key == Key::Esc {
            outcome(self.toggle_todo_list())
        } else if k.modifiers.control && !k.modifiers.shift && !k.modifiers.alt && !k.modifiers.other {
            self.control_key(k)
        } else {
            self.plain_key(k)
        }
    }

    /// Handles a key press in normal mode.  The returned effect says what the caller is to do
    /// next.
    pub fn handle_normal_mode(&mut self, k: KeyPress) -> (e: Effect)
        requires
            old(self).wf(),
        ensures
            normal_key_post(*old(self), k, *final(self), e),
    {
        self.cancel_pending(k);
        let ghost m = *self;
        let e = self.routed_key(k);
        proof {
            assert(cancel_post(*old(self), k, m) && m.wf() && routed_key_post(m, k, *self, e));
        }
        e
    }
}

fn is_move_char_exec(c: char) -> (r: bool)
    ensures
        r == is_move_char(c),
{
    c == 'g' || c == 'G' || c == 'K' || c == 'J' || c == 'j' || c == 'k' || c == 'h' || c == 'l' || c == '>' || c == '<'
}

fn is_edit_char_exec(c: char) -> (r: bool)
    ensures
        r == is_edit_char(c),
{
    c == 'a' || c == 's' || c == 'A' || c == 'D' || c == 'u' || c == '+' || c == '-' || c == 'C' || c == ' '
}

/// Index of the last white-space character of a text.
pub open spec fn last_white(s: Seq<char>) -> Option<int>
    decreases s.len(),
{
    if s.len() == 0 {
        None
    } else if is_white(s.last()) {
        Some(s.len() - 1)
    } else {
        last_white(s.drop_last())
    }
}

/// The edit buffer without its last word (Ctrl+w): cut after the last white space that precedes
/// the trailing white space, or emptied when there is none; `None` where that white space is a
/// character of more than one byte (cutting inside it fails).
pub open spec fn without_last_word(s: Seq<char>) -> Option<Seq<char>> {
    match last_white(trim_end(s)) {
        None => Some(Seq::empty()),
        Some(i) => if (s[i] as u32) < 0x80 {
            Some(s.take(i + 1))
        } else {
            None
        },
    }
}

/// Enter while editing, once the snapshot is taken and the buffer saved (`ok1`): back to normal
/// mode with an empty buffer, and the current project scheduled again.
pub open spec fn after_saved(a: App, b: App, ok1: bool, e: Effect) -> bool {
    if ok1 {
        exists|m: App| {
            &&& #[trigger] back_to_normal(a, m)
            &&& ok_or_fail(e)
            &&& recalculate_schedule_post(m, b, e is Nothing)
        }
    } else {
        e is Fail
    }
}

/// Normal mode with an empty edit buffer.
pub open spec fn back_to_normal(a: App, b: App) -> bool {
    &&& b == (App { input_mode: InputMode::Normal, input_buffer: b.input_buffer, ..a })
    &&& b.input_buffer@.len() == 0
}

/// Enter while editing: a snapshot for undo, the buffer saved into the field, back to normal
/// mode, and the current project scheduled again.
pub open spec fn commit_edit_post(a: App, b: App, e: Effect) -> bool {
    exists|s1: App, s2: App, now: int, ok1: bool| {
        &&& #[trigger] snapshot_taken(a, s1)
        &&& #[trigger] buffer_saved(s1, s2, now, ok1)
        &&& after_saved(s2, b, ok1, e)
    }
}

/// Esc while editing a step that is still without text: the step is removed.
pub open spec fn step_cancelled(a: App, b: App) -> bool {
    let st = step_selected(a);
    let todos = a.all_projects.todo_list.deep_view();
    if a.focus_area == FocusArea::TodoList && st is Some && todos[(st->0).0].subtasks[(st->0).1].text.len() == 0 {
        let i = (st->0).0;
        let s = (st->0).1;
        let steps = todos[i].subtasks;
        &&& b.wf()
        &&& b == (App {
            all_projects: b.all_projects,
            selected_subtask: step_after_removal(s, steps.len() as int),
            is_dirty: true,
            ..a
        })
        &&& b.all_projects.deep_view() == (AllV { todos: with_steps(todos, i, steps.remove(s)), ..a.all_projects.deep_view() })
    } else {
        b == a
    }
}

/// Esc while editing: a step, or an entry whose name was being given, that is still without
/// text is removed; the edit is dropped.
pub open spec fn cancel_edit_post(a: App, b: App) -> bool {
    exists|m: App| #[trigger] step_cancelled(a, m) && entry_cancelled(m, b)
}

/// Esc while editing, once an empty step is dealt with: an entry whose name was being given
/// and is still empty is removed; the edit is dropped.
pub open spec fn entry_cancelled(a: App, b: App) -> bool {
    let todos = a.all_projects.todo_list.deep_view();
    let drop_entry = a.editing_todo_name && a.selected_todo is Some && a.selected_todo->0 < todos.len()
        && todos[a.selected_todo->0 as int].text.len() == 0;
    let i = a.selected_todo->0;
    &&& b.wf()
    &&& b.input_buffer@.len() == 0
    &&& drop_entry ==> {
        &&& b == (App {
            all_projects: b.all_projects,
            selected_todo: if todos.len() == 1 { None } else if i == 0 { Some(0usize) } else { Some((i - 1) as usize) },
            is_dirty: true,
            editing_todo_name: false,
            input_mode: InputMode::Normal,
            input_buffer: b.input_buffer,
            ..a
        })
        &&& b.all_projects.deep_view() == (AllV { todos: todos.remove(i as int), ..a.all_projects.deep_view() })
    }
    &&& !drop_entry ==> b == (App {
        editing_todo_name: false,
        input_mode: InputMode::Normal,
        input_buffer: b.input_buffer,
        ..a
    })
}

/// A key in editing mode.
pub open spec fn editing_key_post(a: App, k: KeyPress, b: App, e: Effect) -> bool {
    match k.key {
        Key::Char(c) => if c == 'w' && control_only(k.modifiers) {
            match without_last_word(a.input_buffer@) {
                Some(t) => e is Nothing && b == (App { input_buffer: b.input_buffer, ..a }) && b.input_buffer@ == t,
                None => e is Fail,
            }
        } else if plain_or_shift(k.modifiers) {
            e is Nothing && b == (App { input_buffer: b.input_buffer, ..a }) && b.input_buffer@ == a.input_buffer@.push(c)
        } else {
            e is Nothing && b == a
        },
        Key::Enter => commit_edit_post(a, b, e),
        Key::Esc => e is Nothing && cancel_edit_post(a, b),
        Key::Backspace => {
            &&& e is Nothing
            &&& b == (App { input_buffer: b.input_buffer, ..a })
            &&& b.input_buffer@ == (if a.input_buffer@.len() > 0 { a.input_buffer@.drop_last() } else { a.input_buffer@ })
        },
        _ => e is Nothing && b == a,
    }
}

/// The edit buffer without its last word; `None` where the operation fails.
pub fn cut_last_word(s: &str) -> (r: Option<String>)
    ensures
        match without_last_word(s@) {
            Some(t) => r matches Some(x) && x@ == t,
            None => r is None,
        },
{
    let n = s.unicode_len();
    let mut end = n;
    proof {
        assert(s@.take(n as int) =~= s@);
    }
    while end > 0 && is_whitespace(s.get_char(end - 1))
        invariant
            n == s@.len(),
            end <= n,
            trim_end(s@) == trim_end(s@.take(end as int)),
        decreases end,
    {
        proof {
            assert(s@.take(end as int).drop_last() =~= s@.take(end - 1));
        }
        end = end - 1;
    }
    proof {
        if end > 0 {
            assert(s@.take(end as int).last() == s@[end - 1]);
        }
        assert(trim_end(s@.take(end as int)) == s@.take(end as int));
    }
    let mut i = end;
    while i > 0 && !is_whitespace(s.get_char(i - 1))
        invariant
            n == s@.len(),
            i <= end <= n,
            last_white(s@.take(end as int)) == last_white(s@.take(i as int)),
        decreases i,
    {
        proof {
            assert(s@.take(i as int).drop_last() =~= s@.take(i - 1));
            assert(s@.take(i as int).last() == s@[i - 1]);
        }
        i = i - 1;
    }
    if i == 0 {
        proof {
            assert(s@.take(0) =~= Seq::<char>::empty());
        }
        return Some(String::new());
    }
    proof {
        assert(s@.take(i as int).last() == s@[i - 1]);
        assert(last_white(s@.take(i as int)) == Some(i - 1));
    }
    let c = s.get_char(i - 1);
    if (c as u32) < 0x80 {
        Some(substring(s, 0, i))
    } else {
        None
    }
}

impl App {
    fn commit_edit(&mut self) -> (e: Effect)
        requires
            old(self).wf(),
        ensures
            commit_edit_post(*old(self), *final(self), e),
    {
        self.save_state_for_undo();
        let ghost s1 = *self;
        let ok1 = self.save_buffer_to_task();
        let ghost s2 = *self;
        if !ok1 {
            proof {
                let now = choose|now: int| buffer_saved(s1, s2, now, ok1);
                assert(snapshot_taken(*old(self), s1) && buffer_saved(s1, s2, now, ok1) && after_saved(s2, *self, ok1, Effect::Fail));
            }
            return Effect::Fail;
        }
        proof {
            let now = choose|now: int| buffer_saved(s1, s2, now, ok1);
            assert(buffer_saved(s1, s2, now, ok1));
            assert(s2.wf());
        }
        self.input_mode = InputMode::Normal;
        self.input_buffer = String::new();
        let ghost s3 = *self;
        proof {
            crate::app::lemma_wf_same_data(s2, s3);
        }
        let e = outcome(self.recalculate_schedule());
        proof {
            let now = choose|now: int| buffer_saved(s1, s2, now, ok1);
            assert(back_to_normal(s2, s3));
            assert(after_saved(s2, *self, ok1, e));
            assert(snapshot_taken(*old(self), s1) && buffer_saved(s1, s2, now, ok1) && after_saved(s2, *self, ok1, e));
        }
        e
    }

    #[verifier::rlimit(80)]
    fn drop_todo_at(&mut self, i: usize)
        requires
            old(self).wf(),
            i < old(self).all_projects.todo_list@.len(),
        ensures
            ({
                let todos = old(self).all_projects.todo_list.deep_view();
                &&& *final(self) == (App {
                    all_projects: final(self).all_projects,
                    selected_todo: if todos.len() == 1 { None } else if i == 0 { Some(0usize) } else { Some((i - 1) as usize) },
                    is_dirty: true,
                    ..*old(self)
                })
                &&& final(self).all_projects.deep_view() == (AllV { todos: todos.remove(i as int), ..old(self).all_projects.deep_view() })
                &&& final(self).wf()
            }),
    {
        let mut v = clone_todos(&self.all_projects.todo_list);
        v.remove(i);
        proof {
            assert(v.deep_view() =~= old(self).all_projects.todo_list.deep_view().remove(i as int));
            assert(old(self).all_projects.todo_list@.len() == old(self).all_projects.todo_list.deep_view().len());
        }
        let n = v.len();
        self.put_todos(v);
        if n == 0 {
            self.selected_todo = None;
        } else if i == 0 {
            self.selected_todo = Some(0);
        } else {
            self.selected_todo = Some(i - 1);
        }
        self.is_dirty = true;
    }

    fn cancel_edit(&mut self)
        requires
            old(self).wf(),
        ensures
            cancel_edit_post(*old(self), *final(self)),
    {
        self.cancel_empty_step();
        let ghost m = *self;
        self.cancel_entry_edit();
        proof {
            assert(step_cancelled(*old(self), m) && entry_cancelled(m, *self));
        }
    }

    fn cancel_empty_step(&mut self)
        requires
            old(self).wf(),
        ensures
            step_cancelled(*old(self), *final(self)),
    {
        if self.focus_area == FocusArea::TodoList {
            match self.selected_step() {
                Some((i, s)) => {
                    proof {
                        assert(self.all_projects.todo_list.deep_view()[i as int].subtasks == self.all_projects.todo_list@[i as int].subtasks.deep_view());
                    }
                    if self.all_projects.todo_list[i].subtasks[s].text.unicode_len() == 0 {
                        self.drop_step_at(i, s);
                    }
                },
                None => {},
            }
        }
    }

    fn drop_step_at(&mut self, i: usize, s: usize)
        requires
            old(self).wf(),
            i < old(self).all_projects.todo_list@.len(),
            s < old(self).all_projects.todo_list@[i as int].subtasks@.len(),
        ensures
            ({
                let todos = old(self).all_projects.todo_list.deep_view();
                let steps = todos[i as int].subtasks;
                &&& final(self).wf()
                &&& *final(self) == (App {
                    all_projects: final(self).all_projects,
                    selected_subtask: step_after_removal(s as int, steps.len() as int),
                    is_dirty: true,
                    ..*old(self)
                })
                &&& final(self).all_projects.deep_view() == (AllV {
                    todos: with_steps(todos, i as int, steps.remove(s as int)),
                    ..old(self).all_projects.deep_view()
                })
            }),
    {
        let ghost todos = self.all_projects.todo_list.deep_view();
        let ghost steps0 = todos[i as int].subtasks;
        proof {
            assert(steps0 == self.all_projects.todo_list@[i as int].subtasks.deep_view());
        }
        let mut steps = clone_subtasks(&self.all_projects.todo_list[i].subtasks);
        steps.remove(s);
        proof {
            assert(steps.deep_view() =~= steps0.remove(s as int));
        }
        let n = steps.len();
        let sel = if n == 0 {
            None
        } else if s >= n {
            Some(n - 1)
        } else {
            Some(s)
        };
        let mut v = clone_todos(&self.all_projects.todo_list);
        let mut item = v[i].copy();
        item.subtasks = steps;
        v.set(i, item);
        proof {
            assert(v.deep_view() =~= with_steps(todos, i as int, steps.deep_view()));
        }
        self.put_todos(v);
        self.selected_subtask = sel;
        self.is_dirty = true;
    }

    #[verifier::rlimit(80)]
    fn cancel_entry_edit(&mut self)
        requires
            old(self).wf(),
        ensures
            entry_cancelled(*old(self), *final(self)),
    {
        let mut drop_entry = false;
        let mut idx: usize = 0;
        if self.editing_todo_name {
            match self.selected_todo {
                Some(i) => {
                    if i < self.all_projects.todo_list.len() && self.all_projects.todo_list[i].text.unicode_len() == 0 {
                        proof {
                            assert(self.all_projects.todo_list.deep_view()[i as int].text == self.all_projects.todo_list@[i as int].text@);
                        }
                        drop_entry = true;
                        idx = i;
                    }
                },
                None => {},
            }
        }
        proof {
            let todos = old(self).all_projects.todo_list.deep_view();
            assert(old(self).all_projects.todo_list@.len() == todos.len());
            if old(self).editing_todo_name && old(self).selected_todo is Some && old(self).selected_todo->0 < todos.len() {
                let i = old(self).selected_todo->0;
                assert(todos[i as int].text == old(self).all_projects.todo_list@[i as int].text@);
            }
        }
        if drop_entry {
            self.drop_todo_at(idx);
        }
        self.leave_editing();
    }

    fn leave_editing(&mut self)
        requires
            old(self).wf(),
        ensures
            final(self).wf(),
            *final(self) == (App {
                editing_todo_name: false,
                input_mode: InputMode::Normal,
                input_buffer: final(self).input_buffer,
                ..*old(self)
            }),
            final(self).input_buffer@.len() == 0,
    {
        self.editing_todo_name = false;
        self.input_mode = InputMode::Normal;
        self.input_buffer = String::new();
        proof {
            crate::app::lemma_wf_same_data(*old(self), *self);
        }
    }

    /// Handles a key press in editing mode.  The returned effect says what the caller is to do
    /// next.
    pub fn handle_editing_mode(&mut self, k: KeyPress) -> (e: Effect)
        requires
            old(self).wf(),
        ensures
            editing_key_post(*old(self), k, *final(self), e),
    {
        match k.key {
            Key::Char(c) => {
                if c == 'w' && k.modifiers.control && !k.modifiers.shift && !k.modifiers.alt && !k.modifiers.other {
                    match cut_last_word(self.input_buffer.as_str()) {
                        Some(t) => {
                            self.input_buffer = t;
                            Effect::Nothing
                        },
                        None => Effect::Fail,
                    }
                } else if !k.modifiers.control && !k.modifiers.alt && !k.modifiers.other {
                    push_char(&mut self.input_buffer, c);
                    Effect::Nothing
                } else {
                    Effect::Nothing
                }
            },
            Key::Enter => self.commit_edit(),
            Key::Esc => {
                self.cancel_edit();
                Effect::Nothing
            },
            Key::Backspace => {
                let n = self.input_buffer.unicode_len();
                if n > 0 {
                    let t = substring(self.input_buffer.as_str(), 0, n - 1);
                    proof {
                        assert(t@ =~= self.input_buffer@.drop_last());
                    }
                    self.input_buffer = t;
                }
                Effect::Nothing
            },
            _ => Effect::Nothing,
        }
    }
}

} // verus!
