//! Archived projects: skipped when switching projects, unless they are shown.

use vstd::prelude::*;
use crate::model::{AllV, ProjectData, ProjectV};
use crate::app::{rest_kept, App, recalc_completes};
use crate::history::{with_active, snapshot_taken};
use crate::projects::with_scheduled;
use crate::text::concat3;

verus! {

/// Whether switching projects stops at a project.
pub open spec fn shown(p: ProjectV, show: bool) -> bool {
    show || !p.archived
}

/// The first project shown `d` or more places after `cur`, going round, before coming back to
/// `cur`.
pub open spec fn shown_after(ps: Seq<ProjectV>, cur: int, show: bool, d: int) -> Option<int>
    decreases ps.len() - d,
{
    if d < 1 || d >= ps.len() {
        None
    } else {
        let j = (cur + d) % (ps.len() as int);
        if shown(ps[j], show) {
            Some(j)
        } else {
            shown_after(ps, cur, show, d + 1)
        }
    }
}

/// The first project shown `d` or more places before `cur`, going round, before coming back to
/// `cur`.
pub open spec fn shown_before(ps: Seq<ProjectV>, cur: int, show: bool, d: int) -> Option<int>
    decreases ps.len() - d,
{
    if d < 1 || d >= ps.len() {
        None
    } else {
        let j = (cur + ps.len() - d) % (ps.len() as int);
        if shown(ps[j], show) {
            Some(j)
        } else {
            shown_before(ps, cur, show, d + 1)
        }
    }
}

/// The project that `N` switches to.
pub open spec fn next_shown(ps: Seq<ProjectV>, cur: int, show: bool) -> Option<int> {
    shown_after(ps, cur, show, 1)
}

/// The project that `P` switches to.
pub open spec fn previous_shown(ps: Seq<ProjectV>, cur: int, show: bool) -> Option<int> {
    shown_before(ps, cur, show, 1)
}

proof fn lemma_shown_after_bound(ps: Seq<ProjectV>, cur: int, show: bool, d: int)
    requires
        ps.len() > 0,
    ensures
        shown_after(ps, cur, show, d) matches Some(j) ==> 0 <= j < ps.len(),
        shown_before(ps, cur, show, d) matches Some(j) ==> 0 <= j < ps.len(),
    decreases ps.len() - d,
{
    if 1 <= d < ps.len() {
        lemma_shown_after_bound(ps, cur, show, d + 1);
    }
}

/// A remainder of a number below twice the divisor.
proof fn lemma_mod_below_twice(x: int, n: int)
    requires
        0 <= x < 2 * n,
    ensures
        x % n == if x < n { x } else { x - n },
{
    if x < n {
        assert(x % n == x) by (nonlinear_arith)
            requires 0 <= x < n;
    } else {
        assert(x % n == x - n) by (nonlinear_arith)
            requires n <= x < 2 * n;
    }
}

/// Where switching forward from `cur` finds `j`, `j` lies `d` places after `cur` and no project
/// in between is shown.
proof fn lemma_found_after(ps: Seq<ProjectV>, cur: int, show: bool, d0: int) -> (d: int)
    requires
        0 <= cur < ps.len(),
        1 <= d0,
        shown_after(ps, cur, show, d0) is Some,
    ensures
        d0 <= d < ps.len(),
        shown_after(ps, cur, show, d0) == Some((cur + d) % (ps.len() as int)),
        forall|t: int| d0 <= t < d ==> !shown(ps[#[trigger] ((cur + t) % (ps.len() as int))], show),
    decreases ps.len() - d0,
{
    let n = ps.len() as int;
    if shown(ps[(cur + d0) % n], show) {
        d0
    } else {
        lemma_found_after(ps, cur, show, d0 + 1)
    }
}

/// Going back from `j`, `d` places after `cur` with no project shown in between, the first
/// project shown `e` or more places back is `cur`.
proof fn lemma_back_to(ps: Seq<ProjectV>, cur: int, show: bool, d: int, e: int)
    requires
        0 <= cur < ps.len(),
        1 <= e <= d < ps.len(),
        shown(ps[cur], show),
        forall|t: int| 1 <= t < d ==> !shown(ps[#[trigger] ((cur + t) % (ps.len() as int))], show),
    ensures
        shown_before(ps, (cur + d) % (ps.len() as int), show, e) == Some(cur),
    decreases d - e,
{
    let n = ps.len() as int;
    let j = (cur + d) % n;
    lemma_mod_below_twice(cur + d, n);
    lemma_mod_below_twice(j + n - e, n);
    lemma_mod_below_twice(cur + d - e, n);
    assert((j + n - e) % n == (cur + (d - e)) % n);
    if e < d {
        assert(!shown(ps[(cur + (d - e)) % n], show));
        lemma_back_to(ps, cur, show, d, e + 1);
    } else {
        assert((j + n - e) % n == cur);
    }
}

/// Switching to the next project shown and then to the previous one comes back to the same
/// project, where that project is itself shown (an archived one is skipped unless archived
/// projects are shown).  Switching keeps the order of the projects, so the second switch
/// looks at the same list.
pub proof fn law_next_then_previous(ps: Seq<ProjectV>, cur: int, show: bool)
    requires
        0 <= cur < ps.len(),
        shown(ps[cur], show),
    ensures
        next_shown(ps, cur, show) matches Some(j) ==> previous_shown(ps, j, show) == Some(cur),
{
    if next_shown(ps, cur, show) is Some {
        let d = lemma_found_after(ps, cur, show, 1);
        lemma_back_to(ps, cur, show, d, 1);
    }
}

/// The next project that switching stops at, after `cur`.
pub fn find_next_shown(projects: &Vec<ProjectData>, cur: usize, show: bool) -> (r: Option<usize>)
    requires
        cur < projects@.len(),
    ensures
        next_shown(projects.deep_view(), cur as int, show) == (match r {
            Some(j) => Some(j as int),
            None => None,
        }),
        r matches Some(j) ==> j < projects@.len(),
{
    let ghost pv = projects.deep_view();
    let n = projects.len();
    let mut d: usize = 1;
    let mut j: usize = if cur + 1 == n { 0 } else { cur + 1 };
    proof {
        if n > 1 {
            assert((cur + 1) % (n as int) == j) by (nonlinear_arith)
                requires
                    cur < n,
                    j == (if cur + 1 == n { 0 } else { cur + 1 }),
            ;
        }
    }
    while d < n
        invariant
            pv == projects.deep_view(),
            n == projects@.len(),
            cur < n,
            1 <= d,
            j < n,
            d < n ==> j == (cur + d) % (n as int),
            next_shown(pv, cur as int, show) == shown_after(pv, cur as int, show, d as int),
        decreases n - d,
    {
        let p = &projects[j];
        proof {
            assert(pv[j as int] == p.deep_view());
        }
        if show || !p.archived {
            return Some(j);
        }
        let j2: usize = if j + 1 == n { 0 } else { j + 1 };
        proof {
            assert((cur + d + 1) % (n as int) == j2) by (nonlinear_arith)
                requires
                    j == (cur + d) % (n as int),
                    j2 == (if j + 1 == n { 0 } else { j + 1 }),
                    j < n,
                    n > 0,
            ;
        }
        j = j2;
        d = d + 1;
    }
    None
}

/// The previous project that switching stops at, before `cur`.
pub fn find_previous_shown(projects: &Vec<ProjectData>, cur: usize, show: bool) -> (r: Option<usize>)
    requires
        cur < projects@.len(),
    ensures
        previous_shown(projects.deep_view(), cur as int, show) == (match r {
            Some(j) => Some(j as int),
            None => None,
        }),
        r matches Some(j) ==> j < projects@.len(),
{
    let ghost pv = projects.deep_view();
    let n = projects.len();
    let mut d: usize = 1;
    let mut j: usize = if cur == 0 { n - 1 } else { cur - 1 };
    proof {
        if n > 1 {
            assert((cur + n - 1) % (n as int) == j) by (nonlinear_arith)
                requires
                    cur < n,
                    j == (if cur == 0 { n - 1 } else { cur - 1 }),
            ;
        }
    }
    while d < n
        invariant
            pv == projects.deep_view(),
            n == projects@.len(),
            cur < n,
            1 <= d,
            j < n,
            d < n ==> j == (cur + n - d) % (n as int),
            previous_shown(pv, cur as int, show) == shown_before(pv, cur as int, show, d as int),
        decreases n - d,
    {
        let p = &projects[j];
        proof {
            assert(pv[j as int] == p.deep_view());
        }
        if show || !p.archived {
            return Some(j);
        }
        let j2: usize = if j == 0 { n - 1 } else { j - 1 };
        proof {
            if d + 1 < n {
                assert((cur + n - (d + 1)) % (n as int) == j2) by (nonlinear_arith)
                    requires
                        j == (cur + n - d) % (n as int),
                        j2 == (if j == 0 { n - 1 } else { j - 1 }),
                        j < n,
                        d + 1 < n,
                        cur < n,
                ;
            }
        }
        j = j2;
        d = d + 1;
    }
    None
}

/// What `X` does, after recording a snapshot for undo: an archived current project is brought
/// back; otherwise it is archived and the next project that is not archived becomes current, or,
/// when there is none, archived projects are shown.
pub open spec fn archive_post(a: App, b: App, ok: bool) -> bool {
    let cur = a.current_project_index as int;
    let ps = a.all_projects.projects.deep_view();
    let p = ps[cur];
    let history = a.history.deep_view().push(with_active(a.all_projects.deep_view(), a.current_project_index));
    if p.archived {
        let ps2 = ps.update(cur, ProjectV { archived: false, ..p });
        &&& ok
        &&& b.wf()
        &&& b == (App {
            all_projects: b.all_projects,
            history: b.history,
            redo_history: b.redo_history,
            status_message: b.status_message,
            is_dirty: true,
            ..a
        })
        &&& b.all_projects.deep_view() == (AllV { projects: ps2, active: a.current_project_index, ..a.all_projects.deep_view() })
        &&& b.history.deep_view() == history
        &&& b.redo_history@.len() == 0
        &&& b.status_message@ == "Unarchived project '"@ + p.name + "'."@
    } else {
        let ps2 = ps.update(cur, ProjectV { archived: true, ..p });
        match next_shown(ps2, cur, false) {
            None => {
                &&& ok
                &&& b.wf()
                &&& b == (App {
                    all_projects: b.all_projects,
                    history: b.history,
                    redo_history: b.redo_history,
                    status_message: b.status_message,
                    is_dirty: true,
                    show_archived: true,
                    ..a
                })
                &&& b.all_projects.deep_view() == (AllV { projects: ps2, active: a.current_project_index, ..a.all_projects.deep_view() })
                &&& b.history.deep_view() == history
                &&& b.redo_history@.len() == 0
                &&& b.status_message@ == "Archived project '"@ + p.name + "'."@
            },
            Some(j) => {
                &&& ok == recalc_completes(ps2[j].tasks, ps2[j].start)
                &&& ok ==> {
                    &&& b.wf()
                    &&& b.current_project_index == j
                    &&& b.all_projects.projects.deep_view() == with_scheduled(ps2, j)
                    &&& b.all_projects.todo_list.deep_view() == a.all_projects.todo_list.deep_view()
                    &&& b.selected_task == Some(0usize)
                    &&& b.is_dirty
                    &&& b.history.deep_view() == history
                    &&& b.status_message@ == "Archived project '"@ + p.name + "'."@
                    &&& b.focus_area == a.focus_area
                    &&& b.redo_history@.len() == 0
                    &&& b.deleted_projects.deep_view() == a.deleted_projects.deep_view()
                    &&& b.all_projects.ntfy_topic.deep_view() == a.all_projects.ntfy_topic.deep_view()
                    &&& rest_kept(a, b)
                }
            },
        }
    }
}

impl App {
    fn set_current_archived(&mut self, archived: bool)
        requires
            old(self).wf(),
        ensures
            final(self).wf(),
            *final(self) == (App { all_projects: final(self).all_projects, is_dirty: true, ..*old(self) }),
            final(self).all_projects.deep_view() == (AllV {
                projects: old(self).all_projects.projects.deep_view().update(
                    old(self).current_project_index as int,
                    ProjectV { archived, ..old(self).project_v() },
                ),
                ..old(self).all_projects.deep_view()
            }),
    {
        let cur = self.current_project_index;
        let mut p = self.all_projects.projects[cur].copy();
        p.archived = archived;
        proof {
            assert(p.tasks@.len() == p.tasks.deep_view().len());
            assert(self.all_projects.projects@[cur as int].tasks@.len() == self.tasks_v().len());
        }
        self.put_current_project(p);
        self.is_dirty = true;
    }

    /// `X`: archives the current project, or brings it back if it is archived.  `ok` is
    /// `false` exactly where scheduling the project that becomes current cannot complete.
    pub fn toggle_archive(&mut self) -> (ok: bool)
        requires
            old(self).wf(),
        ensures
            archive_post(*old(self), *final(self), ok),
    {
        let cur = self.current_project_index;
        proof {
            assert(self.project_v() == self.all_projects.projects@[cur as int].deep_view());
        }
        let ghost a = *self;
        self.save_state_for_undo();
        proof {
            assert(self.project_v() == self.all_projects.projects@[cur as int].deep_view());
            assert(self.redo_history@.len() == self.redo_history.deep_view().len());
        }
        if self.all_projects.projects[cur].archived {
            let msg = concat3("Unarchived project '", self.all_projects.projects[cur].project_name.as_str(), "'.");
            self.set_current_archived(false);
            self.status_message = msg;
            true
        } else {
            self.archive_current(Ghost(a))
        }
    }

    /// Archives the current project, after the snapshot of `a` for undo.
    fn archive_current(&mut self, Ghost(a): Ghost<App>) -> (ok: bool)
        requires
            a.wf(),
            snapshot_taken(a, *old(self)),
            !old(self).project_v().archived,
        ensures
            archive_post(a, *final(self), ok),
    {
        let cur = self.current_project_index;
        proof {
            assert(self.project_v() == self.all_projects.projects@[cur as int].deep_view());
        }
        let msg = concat3("Archived project '", self.all_projects.projects[cur].project_name.as_str(), "'.");
        self.set_current_archived(true);
        self.status_message = msg;
        let ghost mid = *self;
        match find_next_shown(&self.all_projects.projects, cur, false) {
            None => {
                self.show_archived = true;
                true
            },
            Some(j) => {
                proof {
                    assert(mid.redo_history.deep_view().len() == mid.redo_history@.len());
                }
                let ok = self.make_current(j);
                self.selected_task = Some(0);
                proof {
                    assert(self.redo_history.deep_view().len() == self.redo_history@.len());
                }
                ok
            },
        }
    }

    /// Makes project `j` the current one and schedules it.
    fn make_current(&mut self, j: usize) -> (ok: bool)
        requires
            old(self).wf(),
            j < old(self).all_projects.projects@.len(),
        ensures
            ({
                let ps = old(self).all_projects.projects.deep_view();
                &&& ok == recalc_completes(ps[j as int].tasks, ps[j as int].start)
                &&& ok ==> {
                    &&& final(self).wf()
                    &&& final(self).current_project_index == j
                    &&& final(self).all_projects.projects.deep_view() == with_scheduled(ps, j as int)
                    &&& final(self).all_projects.todo_list.deep_view() == old(self).all_projects.todo_list.deep_view()
                    &&& final(self).history.deep_view() == old(self).history.deep_view()
                    &&& final(self).is_dirty == old(self).is_dirty
                    &&& final(self).status_message@ == old(self).status_message@
                    &&& final(self).selected_task == old(self).selected_task
                    &&& final(self).focus_area == old(self).focus_area
                    &&& final(self).redo_history.deep_view() == old(self).redo_history.deep_view()
                    &&& final(self).deleted_projects.deep_view() == old(self).deleted_projects.deep_view()
                    &&& rest_kept(*old(self), *final(self))
                }
            }),
    {
        self.current_project_index = j;
        proof {
            let od = AllV { active: old(self).current_project_index, ..old(self).all_projects.deep_view() };
            let d = AllV { active: self.current_project_index, ..self.all_projects.deep_view() };
            assert(d.projects == od.projects);
            assert(self.project_v() == old(self).all_projects.projects.deep_view()[j as int]);
        }
        let ghost mid = *self;
        proof {
            assert(mid.tasks_v() == old(self).all_projects.projects.deep_view()[j as int].tasks);
        }
        let ok = self.recalculate_schedule();
        proof {
            if ok {
                assert(self.all_projects.projects.deep_view() =~= with_scheduled(old(self).all_projects.projects.deep_view(), j as int));
            }
        }
        ok
    }

    /// Ctrl+b: shows or hides archived projects when switching.
    pub fn toggle_show_archived(&mut self)
        ensures
            *final(self) == (App {
                show_archived: !old(self).show_archived,
                status_message: final(self).status_message,
                ..*old(self)
            }),
            final(self).status_message@ == (if old(self).show_archived {
                "Archived projects hidden."@
            } else {
                "Archived projects shown."@
            }),
    {
        self.show_archived = !self.show_archived;
        self.status_message = if self.show_archived {
            String::from_str("Archived projects shown.")
        } else {
            String::from_str("Archived projects hidden.")
        };
    }
}

} // verus!
