//! Operations on the list of projects.

use vstd::prelude::*;
use crate::date::Date;
use crate::model::{AllV, ProjectData, ProjectV, Task, TaskV};
use crate::app::{rest_kept, App, data_wf, recalc_completes, FocusArea, ProjectField};
use crate::schedule::scheduled;
use crate::history::{with_active, undo_post, restored, rescheduled, reschedule_completes};
use crate::text::{concat3, u64_to_text, decimal};

verus! {

/// The project list after scheduling the project at `i`.
pub open spec fn with_scheduled(projects: Seq<ProjectV>, i: int) -> Seq<ProjectV> {
    projects.update(i, ProjectV { tasks: scheduled(projects[i].tasks, projects[i].start), ..projects[i] })
}

/// The tasks of the project that the planner creates when there is no data file.
pub open spec fn default_tasks_ok(ts: Seq<TaskV>) -> bool {
    &&& ts.len() == 2
    &&& ts[0] == (TaskV {
        id: 1,
        name: "Requirement Gathering"@,
        assigned_to: "Alice"@,
        duration: 5,
        progress: 100,
        dependencies: Seq::empty(),
        manual_start: None,
        details: None,
        parent_id: None,
        start: None,
        end: None,
    })
    &&& ts[1] == (TaskV {
        id: 2,
        name: "UI/UX Design"@,
        assigned_to: "Bob"@,
        duration: 7,
        progress: 50,
        dependencies: seq![1u32],
        manual_start: None,
        details: None,
        parent_id: None,
        start: None,
        end: None,
    })
}

/// August 1, 2024.
pub const DEFAULT_START_DAY: i32 = 739099i32;

fn plain_task(id: u32, name: &str, assigned: &str, duration: i64, progress: u8, deps: Vec<u32>) -> (r: Task)
    ensures
        r.deep_view() == (TaskV {
            id,
            name: name@,
            assigned_to: assigned@,
            duration,
            progress,
            dependencies: deps@,
            manual_start: None,
            details: None,
            parent_id: None,
            start: None,
            end: None,
        }),
{
    Task {
        id,
        name: String::from_str(name),
        assigned_to: String::from_str(assigned),
        duration,
        progress,
        dependencies: deps,
        manual_start_date: None,
        details: None,
        parent_id: None,
        start_date: None,
        end_date: None,
    }
}

impl App {
    /// Adds the sample project that a new data file starts with, and makes it current.
    pub fn add_default_project(&mut self)
        requires
            old(self).all_projects.projects@.len() == 0 || old(self).wf(),
            forall|i: int| 0 <= i < old(self).all_projects.projects@.len() ==> (#[trigger] old(self).all_projects.projects@[i]).tasks@.len() < u32::MAX - 2,
            forall|i: int| 0 <= i < old(self).deleted_projects@.len() ==> (#[trigger] old(self).deleted_projects@[i]).tasks@.len() < u32::MAX - 2,
        ensures
            final(self).wf(),
            final(self).all_projects.projects@.len() == old(self).all_projects.projects@.len() + 1,
            final(self).current_project_index == old(self).all_projects.projects@.len(),
            final(self).project_v().name == "New Project"@,
            final(self).project_v().start == DEFAULT_START_DAY,
            final(self).project_v().end is None,
            final(self).project_v().day_offset == 0,
            !final(self).project_v().archived,
            default_tasks_ok(final(self).tasks_v()),
            forall|i: int| 0 <= i < old(self).all_projects.projects@.len() ==> (#[trigger] final(self).all_projects.projects@[i]).deep_view() == old(self).all_projects.projects@[i].deep_view(),
            final(self).history@.len() == 0,
            final(self).redo_history@.len() == 0,
            final(self).is_dirty,
    {
        let start = match Date::from_day(DEFAULT_START_DAY) {
            Some(d) => d,
            None => self.today,
        };
        let mut tasks: Vec<Task> = Vec::new();
        tasks.push(plain_task(1, "Requirement Gathering", "Alice", 5, 100, Vec::new()));
        let mut deps: Vec<u32> = Vec::new();
        deps.push(1);
        tasks.push(plain_task(2, "UI/UX Design", "Bob", 7, 50, deps));
        let project = ProjectData {
            project_name: String::from_str("New Project"),
            project_start_date: start,
            project_end_date: None,
            day_offset: 0,
            tasks,
            archived: false,
        };
        self.all_projects.projects.push(project);
        self.current_project_index = self.all_projects.projects.len() - 1;
        self.history.clear();
        self.redo_history.clear();
        self.is_dirty = true;
        proof {
            assert(self.tasks_v() =~= self.all_projects.projects@.last().tasks.deep_view());
            assert(self.tasks_v()[1].dependencies =~= seq![1u32]);
            assert(self.tasks_v()[0].dependencies =~= Seq::<u32>::empty());
            let d = AllV { active: self.current_project_index, ..self.all_projects.deep_view() };
            assert forall|i: int| 0 <= i < d.projects.len() implies (#[trigger] d.projects[i]).tasks.len() < u32::MAX - 2 by {
                if i < old(self).all_projects.projects@.len() {
                    assert(self.all_projects.projects@[i] == old(self).all_projects.projects@[i]);
                }
            }
        }
    }

    /// Deletes the current project, keeping it to be restored, unless it is the only one.
    /// `ok` is `false` exactly where scheduling the project that becomes current cannot complete.
    pub fn delete_current_project(&mut self) -> (ok: bool)
        requires
            old(self).wf(),
        ensures
            delete_current_project_post(*old(self), *final(self), ok),

    {
        if self.all_projects.projects.len() <= 1 {
            self.status_message = String::from_str("Cannot delete the only project.");
            return true;
        }
        self.save_state_for_undo();
        let ghost snap = *self;
        let cur = self.current_project_index;
        let removed = self.remove_current();
        let status = concat3("Deleted project '", removed.project_name.as_str(), "'. Press Ctrl+u to restore.");
        let ghost removed_v = removed.deep_view();
        self.deleted_projects.push(removed);
        proof {
            let od = AllV { active: snap.current_project_index, ..snap.all_projects.deep_view() };
            assert(od.projects[cur as int].tasks.len() < u32::MAX - 2);
            let d = AllV { active: self.current_project_index, ..self.all_projects.deep_view() };
            assert forall|i: int| 0 <= i < d.projects.len() implies (#[trigger] d.projects[i]).tasks.len() < u32::MAX - 2 by {
                if i < cur {
                    assert(d.projects[i] == od.projects[i]);
                } else {
                    assert(d.projects[i] == od.projects[i + 1]);
                }
            }
            assert forall|i: int| 0 <= i < self.deleted_projects@.len() implies (#[trigger] self.deleted_projects@[i]).tasks@.len() < u32::MAX - 2 by {
                if i < snap.deleted_projects@.len() {
                    assert(self.deleted_projects@[i] == snap.deleted_projects@[i]);
                } else {
                    assert(self.deleted_projects@[i].deep_view() == removed_v);
                }
            }
            assert(self.deleted_projects.deep_view() =~= old(self).deleted_projects.deep_view().push(removed_v));
            assert(self.history == snap.history);
            assert(self.wf());
        }
        let ghost mid = self.all_projects.projects.deep_view();
        proof {
            assert(self.tasks_v() == mid[self.current_project_index as int].tasks);
            assert(self.project_v() == mid[self.current_project_index as int]);
            assert(removed_v == old(self).all_projects.projects.deep_view()[cur as int]);
            assert(removed_v.name == old(self).project_v().name);
            assert(rest_kept(*old(self), *self));
        }
        let ghost pre = *self;
        let ok = self.recalculate_schedule();
        proof {
            if ok {
                assert(rest_kept(pre, *self));
            }
        }
        self.status_message = status;
        self.is_dirty = true;
        proof {
            if ok {
                assert(self.all_projects.projects.deep_view() =~= with_scheduled(mid, self.current_project_index as int));
                let a = *old(self);
                let rest = a.all_projects.projects.deep_view().remove(cur as int);
                assert(rest =~= mid);
            }
        }
        ok
    }

    /// Takes the current project out of the list and keeps the index in range.
    fn remove_current(&mut self) -> (removed: ProjectData)
        requires
            old(self).all_projects.projects@.len() > 1,
            old(self).current_project_index < old(self).all_projects.projects@.len(),
        ensures
            ({
                let a = *old(self);
                let cur = a.current_project_index as int;
                let rest = a.all_projects.projects.deep_view().remove(cur);
                &&& removed.deep_view() == a.all_projects.projects.deep_view()[cur]
                &&& removed.tasks@.len() == a.all_projects.projects@[cur].tasks@.len()
                &&& final(self).all_projects.deep_view() == (AllV { projects: rest, ..a.all_projects.deep_view() })
                &&& final(self).current_project_index == (if cur >= rest.len() { rest.len() - 1 } else { cur })
                &&& *final(self) == (App {
                    all_projects: final(self).all_projects,
                    current_project_index: final(self).current_project_index,
                    ..a
                })
            }),
    {
        let cur = self.current_project_index;
        let removed = self.all_projects.projects.remove(cur);
        proof {
            assert(self.all_projects.projects.deep_view() =~= old(self).all_projects.projects.deep_view().remove(cur as int));
        }
        if self.current_project_index >= self.all_projects.projects.len() {
            self.current_project_index = self.all_projects.projects.len() - 1;
        }
        removed
    }

    /// Brings back the last deleted project as the current one.  `ok` is `false` exactly where
    /// scheduling it cannot complete.
    pub fn restore_deleted_project(&mut self) -> (ok: bool)
        requires
            old(self).wf(),
        ensures
            restore_deleted_project_post(*old(self), *final(self), ok),

    {
        if self.deleted_projects.len() == 0 {
            self.status_message = String::from_str("No deleted projects to restore.");
            return true;
        }
        self.save_state_for_undo();
        let ghost snap = *self;
        match self.deleted_projects.pop() {
            None => true,
            Some(project) => {
                let status = concat3("Restored project '", project.project_name.as_str(), "'.");
                self.all_projects.projects.push(project);
                self.current_project_index = self.all_projects.projects.len() - 1;
                proof {
                    assert(self.history == snap.history);
                    assert(self.all_projects.projects.deep_view() =~= old(self).all_projects.projects.deep_view().push(old(self).deleted_projects@.last().deep_view()));
                    let od = AllV { active: old(self).current_project_index, ..old(self).all_projects.deep_view() };
                    let d = AllV { active: self.current_project_index, ..self.all_projects.deep_view() };
                    assert(old(self).deleted_projects@.last().tasks@.len() < u32::MAX - 2);
                    assert forall|i: int| 0 <= i < d.projects.len() implies (#[trigger] d.projects[i]).tasks.len() < u32::MAX - 2 by {
                        if i < od.projects.len() {
                            assert(d.projects[i] == od.projects[i]);
                        }
                    }
                    assert forall|i: int| 0 <= i < self.deleted_projects@.len() implies (#[trigger] self.deleted_projects@[i]).tasks@.len() < u32::MAX - 2 by {
                        assert(self.deleted_projects@[i] == old(self).deleted_projects@[i]);
                    }
                    assert(self.deleted_projects.deep_view() =~= old(self).deleted_projects.deep_view().drop_last());
                }
                let ghost mid = self.all_projects.projects.deep_view();
                proof {
                    assert(self.tasks_v() == mid[self.current_project_index as int].tasks);
                    assert(self.project_v() == mid[self.current_project_index as int]);
                    assert(mid.last() == old(self).deleted_projects.deep_view().last());
                    assert(rest_kept(*old(self), *self));
                }
                let ghost pre = *self;
                let ok = self.recalculate_schedule();
                proof {
                    if ok {
                        assert(rest_kept(pre, *self));
                    }
                }
                self.status_message = status;
                self.is_dirty = true;
                proof {
                    if ok {
                        assert(self.all_projects.projects.deep_view() =~= with_scheduled(mid, self.current_project_index as int));
                        let a = *old(self);
                        let p = a.deleted_projects.deep_view().last();
                        let all = a.all_projects.projects.deep_view().push(p);
                        assert(all =~= mid);
                        assert(self.wf());
                        assert(self.status_message@ == "Restored project '"@ + p.name + "'."@);
                    }
                }
                ok
            },
        }
    }

    /// Moves the current project one place later in the list, if it is not the last.
    pub fn move_project_forward(&mut self)
        requires
            old(self).wf(),
        ensures
            move_project_forward_post(*old(self), *final(self)),

    {
        let cur = self.current_project_index;
        if cur < self.all_projects.projects.len() - 1 {
            self.save_state_for_undo();
            let ghost snap = *self;
            self.swap_projects(cur, cur + 1);
            self.current_project_index = cur + 1;
            proof {
                assert(snap.redo_history.deep_view().len() == snap.redo_history@.len());
                assert(self.redo_history@.len() == self.redo_history.deep_view().len());
                assert(self.all_projects.projects.deep_view() == swapped(old(self).all_projects.projects.deep_view(), cur as int, cur + 1));
                assert(self.all_projects.projects@[cur + 1].deep_view() == self.all_projects.projects.deep_view()[cur + 1]);
            }
            self.status_message = concat3("Moved project '", self.all_projects.projects[cur + 1].project_name.as_str(), "' forward.");
            self.is_dirty = true;
        }
    }

    /// Moves the current project one place earlier in the list, if it is not the first.
    pub fn move_project_backward(&mut self)
        requires
            old(self).wf(),
        ensures
            move_project_backward_post(*old(self), *final(self)),

    {
        let cur = self.current_project_index;
        if cur > 0 {
            self.save_state_for_undo();
            let ghost snap = *self;
            self.swap_projects(cur, cur - 1);
            self.current_project_index = cur - 1;
            proof {
                assert(snap.redo_history.deep_view().len() == snap.redo_history@.len());
                assert(self.redo_history@.len() == self.redo_history.deep_view().len());
                assert(self.all_projects.projects.deep_view() == swapped(old(self).all_projects.projects.deep_view(), cur as int, cur - 1));
                assert(self.all_projects.projects@[cur - 1].deep_view() == self.all_projects.projects.deep_view()[cur - 1]);
            }
            self.status_message = concat3("Moved project '", self.all_projects.projects[cur - 1].project_name.as_str(), "' backward.");
            self.is_dirty = true;
        }
    }

    fn swap_projects(&mut self, i: usize, j: usize)
        requires
            old(self).wf(),
            i < old(self).all_projects.projects@.len(),
            j < old(self).all_projects.projects@.len(),
        ensures
            final(self).all_projects.projects.deep_view() == swapped(old(self).all_projects.projects.deep_view(), i as int, j as int),
            final(self).all_projects.projects@.len() == old(self).all_projects.projects@.len(),
            final(self).current_project_index == old(self).current_project_index,
            final(self).all_projects.active_project_index == old(self).all_projects.active_project_index,
            final(self).history.deep_view() == old(self).history.deep_view(),
            final(self).redo_history.deep_view() == old(self).redo_history.deep_view(),
            final(self).deleted_projects.deep_view() == old(self).deleted_projects.deep_view(),
            final(self).all_projects.todo_list.deep_view() == old(self).all_projects.todo_list.deep_view(),
            final(self).wf(),
    {
        let a = self.all_projects.projects[i].copy();
        let b = self.all_projects.projects[j].copy();
        self.all_projects.projects.set(i, b);
        self.all_projects.projects.set(j, a);
        proof {
            assert(self.all_projects.projects.deep_view() =~= swapped(old(self).all_projects.projects.deep_view(), i as int, j as int));
            let od = AllV { active: old(self).current_project_index, ..old(self).all_projects.deep_view() };
            let d = AllV { active: self.current_project_index, ..self.all_projects.deep_view() };
            assert(od.projects[i as int].tasks.len() < u32::MAX - 2);
            assert(od.projects[j as int].tasks.len() < u32::MAX - 2);
            assert forall|k: int| 0 <= k < d.projects.len() implies (#[trigger] d.projects[k]).tasks.len() < u32::MAX - 2 by {
                assert(od.projects[k].tasks.len() < u32::MAX - 2);
            }
        }
    }
}

/// A list with the entries at `i` and `j` exchanged.
pub open spec fn swapped<A>(s: Seq<A>, i: int, j: int) -> Seq<A> {
    s.update(i, s[j]).update(j, s[i])
}

/// What deleting the current project does when there is another one.
pub open spec fn delete_post(a: App, b: App, ok: bool) -> bool {
    let cur = a.current_project_index as int;
    let rest = a.all_projects.projects.deep_view().remove(cur);
    let new_cur = if cur >= rest.len() { rest.len() - 1 } else { cur };
    &&& ok == recalc_completes(rest[new_cur].tasks, rest[new_cur].start)
    &&& ok ==> {
        &&& b.wf()
        &&& b.current_project_index == new_cur
        &&& b.all_projects.projects.deep_view() == with_scheduled(rest, new_cur)
        &&& b.deleted_projects.deep_view() == a.deleted_projects.deep_view().push(a.all_projects.projects.deep_view()[cur])
        &&& b.history.deep_view() == a.history.deep_view().push(with_active(a.all_projects.deep_view(), a.current_project_index))
        &&& b.redo_history@.len() == 0
        &&& b.status_message@ == "Deleted project '"@ + a.project_v().name + "'. Press Ctrl+u to restore."@
        &&& b.is_dirty
        &&& b.selected_task == a.selected_task && b.focus_area == a.focus_area
        &&& rest_kept(a, b)
    }
}

/// Undo right after deleting a project brings back the data as it was before the deletion,
/// with its active project scheduled again, and the project that was current becomes current
/// again; the deleted project stays among those that can be restored.
pub proof fn law_delete_then_undo(a: App, b: App, c: App, ok1: bool, ok2: bool)
    requires
        a.wf(),
        a.all_projects.projects@.len() > 1,
        delete_post(a, b, ok1),
        ok1,
        undo_post(b, c, ok2),
    ensures
        ({
            let before = with_active(a.all_projects.deep_view(), a.current_project_index);
            &&& ok2 == reschedule_completes(before)
            &&& ok2 ==> restored(c, before)
            &&& ok2 ==> c.current_project_index == a.current_project_index
            &&& ok2 ==> c.history.deep_view() == a.history.deep_view()
        }),
{
    let before = with_active(a.all_projects.deep_view(), a.current_project_index);
    assert(b.history.deep_view().last() == before);
    assert(b.history@.len() == b.history.deep_view().len());
    assert(b.history.deep_view()[b.history@.len() - 1] == b.history@.last().deep_view());
    assert(b.history.deep_view().drop_last() =~= a.history.deep_view());
}

/// Undo right after a change that records a snapshot of the data (creating, deleting,
/// restoring, moving or (un)archiving a project, as well as every edit of the tasks or of the
/// todo list) brings back the data as it was before the change, with its active project
/// scheduled again, and the history as it was.
pub proof fn law_snapshot_then_undo(a: App, b: App, c: App, ok2: bool)
    requires
        a.wf(),
        b.history.deep_view() == a.history.deep_view().push(with_active(a.all_projects.deep_view(), a.current_project_index)),
        undo_post(b, c, ok2),
    ensures
        ({
            let before = with_active(a.all_projects.deep_view(), a.current_project_index);
            &&& ok2 == reschedule_completes(before)
            &&& ok2 ==> restored(c, before)
            &&& ok2 ==> c.current_project_index == a.current_project_index
            &&& ok2 ==> c.history.deep_view() == a.history.deep_view()
        }),
{
    let before = with_active(a.all_projects.deep_view(), a.current_project_index);
    assert(b.history.deep_view().last() == before);
    assert(b.history@.len() == b.history.deep_view().len());
    assert(b.history.deep_view()[b.history@.len() - 1] == b.history@.last().deep_view());
    assert(b.history.deep_view().drop_last() =~= a.history.deep_view());
}

/// What restoring does when a project was deleted.
pub open spec fn restore_post(a: App, b: App, ok: bool) -> bool {
    let p = a.deleted_projects.deep_view().last();
    let all = a.all_projects.projects.deep_view().push(p);
    &&& ok == recalc_completes(p.tasks, p.start)
    &&& ok ==> {
        &&& b.wf()
        &&& b.current_project_index == all.len() - 1
        &&& b.all_projects.projects.deep_view() == with_scheduled(all, all.len() - 1)
        &&& b.deleted_projects.deep_view() == a.deleted_projects.deep_view().drop_last()
        &&& b.history.deep_view() == a.history.deep_view().push(with_active(a.all_projects.deep_view(), a.current_project_index))
        &&& b.redo_history@.len() == 0
        &&& b.status_message@ == "Restored project '"@ + p.name + "'."@
        &&& b.is_dirty
        &&& b.selected_task == a.selected_task && b.focus_area == a.focus_area
        &&& rest_kept(a, b)
    }
}

/// Restoring right after deleting brings the deleted project back, as the last one and the
/// current one; the other projects keep their order.
pub proof fn law_delete_then_restore(a: App, b: App, c: App, ok1: bool, ok2: bool)
    requires
        a.wf(),
        a.all_projects.projects@.len() > 1,
        delete_post(a, b, ok1),
        ok1,
        restore_post(b, c, ok2),
    ensures
        ({
            let cur = a.current_project_index as int;
            let rest = a.all_projects.projects.deep_view().remove(cur);
            let new_cur = if cur >= rest.len() { rest.len() - 1 } else { cur };
            let back = with_scheduled(rest, new_cur).push(a.project_v());
            &&& ok2 == recalc_completes(a.tasks_v(), a.project_v().start)
            &&& ok2 ==> c.all_projects.projects.deep_view() == with_scheduled(back, back.len() - 1)
            &&& ok2 ==> c.current_project_index == back.len() - 1
            &&& ok2 ==> c.deleted_projects.deep_view() == a.deleted_projects.deep_view()
        }),
{
    assert(b.deleted_projects.deep_view().last() == a.project_v());
    assert(b.deleted_projects.deep_view().drop_last() =~= a.deleted_projects.deep_view());
    assert(b.deleted_projects@.len() == b.deleted_projects.deep_view().len());
}

/// Moving a project forward and then backward gives back the list as it was.
pub proof fn law_forward_then_backward<A>(s: Seq<A>, i: int)
    requires
        0 <= i,
        i + 1 < s.len(),
    ensures
        swapped(swapped(s, i, i + 1), i + 1, i) == s,
{
    assert(swapped(swapped(s, i, i + 1), i + 1, i) =~= s);
}

/// What moving the current project forward does.
pub open spec fn move_project_forward_post(a: App, b: App) -> bool {
    &&& b.wf()
    &&& a.current_project_index + 1 < a.all_projects.projects@.len() ==> {
                    &&& b.all_projects.projects.deep_view() == swapped(a.all_projects.projects.deep_view(), a.current_project_index as int, a.current_project_index + 1)
                    &&& b.current_project_index == a.current_project_index + 1
                    &&& b.is_dirty
                    &&& b.status_message@ == "Moved project '"@ + a.project_v().name + "' forward."@
                    &&& b.all_projects.todo_list.deep_view() == a.all_projects.todo_list.deep_view()
                    &&& b.history.deep_view() == a.history.deep_view().push(with_active(a.all_projects.deep_view(), a.current_project_index))
                    &&& b.redo_history@.len() == 0
                }
    &&& a.current_project_index + 1 >= a.all_projects.projects@.len() ==> b == a
}

/// What moving the current project backward does.
pub open spec fn move_project_backward_post(a: App, b: App) -> bool {
    &&& b.wf()
    &&& a.current_project_index > 0 ==> {
                    &&& b.all_projects.projects.deep_view() == swapped(a.all_projects.projects.deep_view(), a.current_project_index as int, a.current_project_index - 1)
                    &&& b.current_project_index == a.current_project_index - 1
                    &&& b.is_dirty
                    &&& b.status_message@ == "Moved project '"@ + a.project_v().name + "' backward."@
                    &&& b.all_projects.todo_list.deep_view() == a.all_projects.todo_list.deep_view()
                    &&& b.history.deep_view() == a.history.deep_view().push(with_active(a.all_projects.deep_view(), a.current_project_index))
                    &&& b.redo_history@.len() == 0
                }
    &&& a.current_project_index == 0 ==> b == a
}

/// What deleting the current project does.
pub open spec fn delete_current_project_post(a: App, b: App, ok: bool) -> bool {
    &&& a.all_projects.projects@.len() <= 1 ==> ok && b.status_message@ == "Cannot delete the only project."@
                    && b == (App { status_message: b.status_message, ..a })
    &&& a.all_projects.projects@.len() > 1 ==> delete_post(a, b, ok)
}

/// What restoring the last deleted project does.
pub open spec fn restore_deleted_project_post(a: App, b: App, ok: bool) -> bool {
    &&& a.deleted_projects@.len() == 0 ==> ok && b.status_message@ == "No deleted projects to restore."@
                    && b == (App { status_message: b.status_message, ..a })
    &&& a.deleted_projects@.len() > 0 ==> restore_post(a, b, ok)
}

} // verus!
