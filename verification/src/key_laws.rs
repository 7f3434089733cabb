//! What the keys promise across all the states they act on: quitting asks first when
//! something is unsaved, and deleting a project takes two presses of Ctrl+d.

use vstd::prelude::*;
use crate::app::App;
use crate::keys::{Key, KeyPress, Effect, control_only, cancel_post, routed_key_post, normal_key_post};

verus! {

/// `q`, outside the column settings and the help screen, quits at once when nothing is unsaved
/// or a quit is already pending; otherwise it only warns, and a second `q` quits.  Any other key
/// is handled after a pending quit is cancelled.
pub proof fn law_quit_asks_first(a: App, k: KeyPress, b: App, e: Effect)
    requires
        a.wf(),
        normal_key_post(a, k, b, e),
        !a.column_config_open,
        !a.help_open,
    ensures
        k.key == Key::Char('q') && !control_only(k.modifiers) ==> {
            &&& e is Nothing
            &&& b.should_quit == (a.should_quit || !a.is_dirty || a.quit_pending)
            &&& (a.is_dirty && !a.quit_pending ==> b.quit_pending && b.all_projects == a.all_projects)
        },
        k.key != Key::Char('q') ==> exists|m: App| #[trigger] routed_key_post(m, k, b, e) && !m.quit_pending
            && m.all_projects == a.all_projects,
{
    let m = choose|m: App| #[trigger] cancel_post(a, k, m) && m.wf() && routed_key_post(m, k, b, e);
    assert(routed_key_post(m, k, b, e));
}

/// Ctrl+d, outside the column settings and the help screen, first only asks for confirmation;
/// pressed again right away it deletes the current project, unless it is the only one.  Any
/// other key cancels the request.
pub proof fn law_delete_takes_two_presses(a: App, k: KeyPress, b: App, e: Effect)
    requires
        a.wf(),
        normal_key_post(a, k, b, e),
        !a.column_config_open,
        !a.help_open,
    ensures
        control_only(k.modifiers) && k.key == Key::Char('d') ==> {
            let n = a.all_projects.projects@.len();
            &&& !a.confirm_delete_project ==> e is Nothing && b.confirm_delete_project && b.all_projects == a.all_projects
            &&& a.confirm_delete_project && n <= 1 ==> e is Nothing && !b.confirm_delete_project
                && b.all_projects == a.all_projects
            &&& a.confirm_delete_project && n > 1 && e is Nothing ==> !b.confirm_delete_project
                && b.all_projects.projects@.len() == n - 1
        },
        !(control_only(k.modifiers) && k.key == Key::Char('d')) ==> exists|m: App| #[trigger] routed_key_post(m, k, b, e)
            && !m.confirm_delete_project && m.all_projects == a.all_projects,
{
    let m = choose|m: App| #[trigger] cancel_post(a, k, m) && m.wf() && routed_key_post(m, k, b, e);
    assert(routed_key_post(m, k, b, e));
    if control_only(k.modifiers) && k.key == Key::Char('d') && a.confirm_delete_project && a.all_projects.projects@.len() > 1 && e is Nothing {
        assert(b.all_projects.projects@.len() == b.all_projects.projects.deep_view().len());
        assert(m.all_projects.projects@.len() == m.all_projects.projects.deep_view().len());
    }
}

} // verus!
