//! Undo and redo: snapshots of all projects.

use vstd::prelude::*;
use crate::model::{AllProjectsData, AllV};
use crate::app::{App, data_wf, recalc_completes};
use crate::schedule::scheduled;

verus! {

/// The saved data with the given project as the active one.
pub open spec fn with_active(d: AllV, active: usize) -> AllV {
    AllV { active, ..d }
}

/// The saved data after scheduling its active project again.
pub open spec fn rescheduled(d: AllV) -> AllV {
    let p = d.projects[d.active as int];
    AllV {
        projects: d.projects.update(
            d.active as int,
            crate::model::ProjectV { tasks: scheduled(p.tasks, p.start), ..p },
        ),
        ..d
    }
}

/// Scheduling the active project of saved data completes.
pub open spec fn reschedule_completes(d: AllV) -> bool {
    recalc_completes(d.projects[d.active as int].tasks, d.projects[d.active as int].start)
}

/// The state after switching to saved data `d` and scheduling it, as undo and redo do.
pub open spec fn restored(b: App, d: AllV) -> bool {
    &&& b.all_projects.deep_view() == rescheduled(d)
    &&& b.current_project_index == d.active
}

impl App {
    /// Records a snapshot of all projects for undo, and forgets what could be redone.
    pub fn save_state_for_undo(&mut self)
        requires
            old(self).wf(),
        ensures
            snapshot_taken(*old(self), *final(self)),

    {
        self.all_projects.active_project_index = self.current_project_index;
        let snapshot = self.all_projects.copy();
        self.history.push(snapshot);
        self.redo_history.clear();
        self.is_dirty = true;
        proof {
            assert(self.all_projects.deep_view() =~= with_active(old(self).all_projects.deep_view(), old(self).current_project_index));
            assert(self.history.deep_view() =~= old(self).history.deep_view().push(self.all_projects.deep_view()));
            assert forall|i: int| 0 <= i < self.history@.len() implies data_wf(#[trigger] self.history@[i].deep_view()) by {
                if i < old(self).history@.len() {
                    assert(self.history@[i] == old(self).history@[i]);
                } else {
                    assert(self.history@[i].deep_view() == self.all_projects.deep_view());
                }
            }
        }
    }

    /// Goes back to the last snapshot.  `ok` is `false` exactly where scheduling the restored
    /// project cannot complete.
    pub fn undo(&mut self) -> (ok: bool)
        requires
            old(self).wf(),
        ensures
            undo_done(*old(self), *final(self), ok),

    {
        if self.history.len() == 0 {
            self.status_message = String::from_str("Nothing to undo.");
            return true;
        }
        match self.history.pop() {
            None => true,
            Some(prev) => {
                self.all_projects.active_project_index = self.current_project_index;
                let current = self.all_projects.copy();
                self.redo_history.push(current);
                self.all_projects = prev;
                self.current_project_index = self.all_projects.active_project_index;
                proof {
                    assert(data_wf(old(self).history@.last().deep_view()));
                    assert forall|i: int| 0 <= i < self.redo_history@.len() implies data_wf(#[trigger] self.redo_history@[i].deep_view()) by {
                        if i < old(self).redo_history@.len() {
                            assert(self.redo_history@[i] == old(self).redo_history@[i]);
                        }
                    }
                    assert forall|i: int| 0 <= i < self.history@.len() implies data_wf(#[trigger] self.history@[i].deep_view()) by {
                        assert(self.history@[i] == old(self).history@[i]);
                    }
                    assert(self.all_projects.deep_view() == AllV { active: self.current_project_index, ..self.all_projects.deep_view() });
                    let pv = old(self).history@.last().deep_view();
                    assert(self.all_projects.deep_view() == pv);
                    assert(self.tasks_v() == pv.projects[pv.active as int].tasks);
                    assert(self.project_v() == pv.projects[pv.active as int]);
                }
                let ok = self.recalculate_schedule();
                self.status_message = String::from_str("Undo successful.");
                self.is_dirty = true;
                proof {
                    if ok {
                        assert(self.all_projects.projects.deep_view() =~= rescheduled(old(self).history@.last().deep_view()).projects);
                        assert(self.all_projects.deep_view() =~= rescheduled(old(self).history@.last().deep_view()));
                        assert(self.history.deep_view() =~= old(self).history.deep_view().drop_last());
                        assert(self.redo_history.deep_view() =~= old(self).redo_history.deep_view().push(with_active(old(self).all_projects.deep_view(), old(self).current_project_index)));
                        assert(self.wf());
                        assert(restored(*self, old(self).history@.last().deep_view()));
                    }
                    assert(ok == reschedule_completes(old(self).history@.last().deep_view()));
                }
                ok
            },
        }
    }

    /// Returns to the last undone snapshot.  `ok` is `false` exactly where scheduling the
    /// restored project cannot complete.
    pub fn redo(&mut self) -> (ok: bool)
        requires
            old(self).wf(),
        ensures
            redo_done(*old(self), *final(self), ok),

    {
        if self.redo_history.len() == 0 {
            self.status_message = String::from_str("Nothing to redo.");
            return true;
        }
        match self.redo_history.pop() {
            None => true,
            Some(next) => {
                self.all_projects.active_project_index = self.current_project_index;
                let current = self.all_projects.copy();
                self.history.push(current);
                self.all_projects = next;
                self.current_project_index = self.all_projects.active_project_index;
                proof {
                    assert(data_wf(old(self).redo_history@.last().deep_view()));
                    assert forall|i: int| 0 <= i < self.history@.len() implies data_wf(#[trigger] self.history@[i].deep_view()) by {
                        if i < old(self).history@.len() {
                            assert(self.history@[i] == old(self).history@[i]);
                        }
                    }
                    assert forall|i: int| 0 <= i < self.redo_history@.len() implies data_wf(#[trigger] self.redo_history@[i].deep_view()) by {
                        assert(self.redo_history@[i] == old(self).redo_history@[i]);
                    }
                    assert(self.all_projects.deep_view() == AllV { active: self.current_project_index, ..self.all_projects.deep_view() });
                    let pv = old(self).redo_history@.last().deep_view();
                    assert(self.all_projects.deep_view() == pv);
                    assert(self.tasks_v() == pv.projects[pv.active as int].tasks);
                    assert(self.project_v() == pv.projects[pv.active as int]);
                }
                let ok = self.recalculate_schedule();
                self.status_message = String::from_str("Redo successful.");
                self.is_dirty = true;
                proof {
                    if ok {
                        assert(self.all_projects.projects.deep_view() =~= rescheduled(old(self).redo_history@.last().deep_view()).projects);
                        assert(self.all_projects.deep_view() =~= rescheduled(old(self).redo_history@.last().deep_view()));
                        assert(self.redo_history.deep_view() =~= old(self).redo_history.deep_view().drop_last());
                        assert(self.history.deep_view() =~= old(self).history.deep_view().push(with_active(old(self).all_projects.deep_view(), old(self).current_project_index)));
                        assert(self.wf());
                        assert(restored(*self, old(self).redo_history@.last().deep_view()));
                    }
                    assert(ok == reschedule_completes(old(self).redo_history@.last().deep_view()));
                }
                ok
            },
        }
    }
}

/// What undo does when there is a snapshot: the current data goes on the redo stack, the
/// last snapshot is restored and scheduled.
pub open spec fn undo_post(a: App, b: App, ok: bool) -> bool {
    let prev = a.history@.last().deep_view();
    &&& ok == reschedule_completes(prev)
    &&& ok ==> {
        &&& b.wf()
        &&& restored(b, prev)
        &&& b.history.deep_view() == a.history.deep_view().drop_last()
        &&& b.redo_history.deep_view() == a.redo_history.deep_view().push(
            with_active(a.all_projects.deep_view(), a.current_project_index),
        )
        &&& b.status_message@ == "Undo successful."@
        &&& b.is_dirty
        &&& b.deleted_projects.deep_view() == a.deleted_projects.deep_view()
    }
}

/// What redo does when something was undone: the current data goes on the undo stack, the
/// last undone snapshot is restored and scheduled.
pub open spec fn redo_post(a: App, b: App, ok: bool) -> bool {
    let next = a.redo_history@.last().deep_view();
    &&& ok == reschedule_completes(next)
    &&& ok ==> {
        &&& b.wf()
        &&& restored(b, next)
        &&& b.redo_history.deep_view() == a.redo_history.deep_view().drop_last()
        &&& b.history.deep_view() == a.history.deep_view().push(
            with_active(a.all_projects.deep_view(), a.current_project_index),
        )
        &&& b.status_message@ == "Redo successful."@
        &&& b.is_dirty
        &&& b.deleted_projects.deep_view() == a.deleted_projects.deep_view()
    }
}

/// Undo after redo comes back to the data that was current before the redo, with its
/// active project scheduled again; the undo and redo stacks are as they were.
pub proof fn law_redo_then_undo(a: App, b: App, c: App, ok1: bool, ok2: bool)
    requires
        a.wf(),
        a.redo_history@.len() > 0,
        redo_post(a, b, ok1),
        ok1,
        undo_post(b, c, ok2),
    ensures
        ok2 == reschedule_completes(with_active(a.all_projects.deep_view(), a.current_project_index)),
        ok2 ==> restored(c, with_active(a.all_projects.deep_view(), a.current_project_index)),
        ok2 ==> c.history.deep_view() == a.history.deep_view(),
        ok2 ==> c.redo_history.deep_view().drop_last() == a.redo_history.deep_view().drop_last(),
{
    assert(b.history.deep_view().len() > 0);
    assert(b.history@.len() == b.history.deep_view().len());
    assert(b.history.deep_view()[b.history@.len() - 1] == b.history@.last().deep_view());
    assert(b.history.deep_view().drop_last() =~= a.history.deep_view());
    if ok2 {
        assert(c.redo_history.deep_view().drop_last() =~= a.redo_history.deep_view().drop_last());
    }
}

/// Redo after undo comes back to the data that was current before the undo, with its
/// active project scheduled again; the undo stack is as it was.
pub proof fn law_undo_then_redo(a: App, b: App, c: App, ok1: bool, ok2: bool)
    requires
        a.wf(),
        a.history@.len() > 0,
        undo_post(a, b, ok1),
        ok1,
        redo_post(b, c, ok2),
    ensures
        ok2 == reschedule_completes(with_active(a.all_projects.deep_view(), a.current_project_index)),
        ok2 ==> restored(c, with_active(a.all_projects.deep_view(), a.current_project_index)),
        ok2 ==> c.redo_history.deep_view() == a.redo_history.deep_view(),
        ok2 ==> c.history.deep_view().drop_last() == a.history.deep_view().drop_last(),
{
    assert(b.redo_history.deep_view().len() > 0);
    assert(b.redo_history@.len() == b.redo_history.deep_view().len());
    assert(b.redo_history.deep_view()[b.redo_history@.len() - 1] == b.redo_history@.last().deep_view());
    assert(b.redo_history.deep_view().drop_last() =~= a.redo_history.deep_view());
    if ok2 {
        assert(c.history.deep_view().drop_last() =~= a.history.deep_view().drop_last());
    }
}

/// What undo does.
pub open spec fn undo_done(a: App, b: App, ok: bool) -> bool {
    &&& a.history@.len() == 0 ==> ok && b.status_message@ == "Nothing to undo."@
                    && b == (App { status_message: b.status_message, ..a })
    &&& a.history@.len() > 0 ==> undo_post(a, b, ok)
}

/// What redo does.
pub open spec fn redo_done(a: App, b: App, ok: bool) -> bool {
    &&& a.redo_history@.len() == 0 ==> ok && b.status_message@ == "Nothing to redo."@
                    && b == (App { status_message: b.status_message, ..a })
    &&& a.redo_history@.len() > 0 ==> redo_post(a, b, ok)
}

/// What taking a snapshot for undo does.
pub open spec fn snapshot_taken(a: App, b: App) -> bool {
    &&& b.wf()
    &&& b.history.deep_view() == a.history.deep_view().push(
                    with_active(a.all_projects.deep_view(), a.current_project_index),
                )
    &&& b.redo_history@.len() == 0
    &&& b.all_projects.deep_view() == with_active(
                    a.all_projects.deep_view(),
                    a.current_project_index,
                )
    &&& b == (App {
        all_projects: b.all_projects,
        history: b.history,
        redo_history: b.redo_history,
        is_dirty: true,
        ..a
    })
    &&& b.deleted_projects.deep_view() == a.deleted_projects.deep_view()
    &&& b.status_message@ == a.status_message@
}

} // verus!
