//! Saving, the start-up of the planner, switching and creating projects after a save, and the
//! todo list sent to a phone.

use vstd::prelude::*;
use crate::date::Date;
use crate::model::{AllProjectsData, AllV, ColumnVisibility, ProjectData, ProjectV, TodoItem, TodoV};
use crate::app::{rest_kept, App, AfterSave, FocusArea, HighlightMode, InputMode, ProjectField, TaskField, data_wf, recalc_completes};
use crate::history::with_active;
use crate::projects::with_scheduled;
use crate::archive::{next_shown, previous_shown, find_next_shown, find_previous_shown};
use crate::text::{concat3, decimal, signed_decimal, u64_to_text, i64_to_text};

verus! {

/// A request to send the todo list to a phone through the ntfy.sh service: the message goes
/// to `url` with `body`, under the headers `Title`, `Markdown` and `Tags`.
pub struct PushRequest {
    pub url: String,
    pub body: String,
    pub topic: String,
    pub title: String,
    pub markdown: String,
    pub tags: String,
}

/// The first three todo entries (or all, if fewer) are completed.
pub open spec fn top_three_done(todos: Seq<TodoV>) -> bool {
    forall|i: int| 0 <= i < todos.len() && i < 3 ==> (#[trigger] todos[i]).completed
}

/// The section of the message that entry `i` goes to: 0 for priority, 1 for future, 2 for done.
pub open spec fn section_of(todos: Seq<TodoV>, i: int, top3: bool) -> int {
    if todos[i].completed {
        2
    } else if i >= 3 && !top3 {
        1
    } else {
        0
    }
}

/// The line of a description, if there is one, between `pre` and `post`.
pub open spec fn description_line(d: Seq<char>, pre: Seq<char>, post: Seq<char>) -> Seq<char> {
    if d.len() == 0 {
        Seq::empty()
    } else {
        "  "@ + pre + d + post + "\n"@
    }
}

/// The text of entry `i` in the message.
pub open spec fn entry_text(todos: Seq<TodoV>, i: int, top3: bool) -> Seq<char> {
    let t = todos[i];
    let sec = section_of(todos, i, top3);
    if sec == 2 {
        "\u{2705} **"@ + t.text + "**\n"@ + description_line(t.description, Seq::empty(), Seq::empty()) + "\n"@
    } else if sec == 1 {
        "\u{25cc} _**"@ + t.text + "**_\n"@ + description_line(t.description, "_"@, "_"@) + "\n"@
    } else {
        (if i < 3 { "\u{1f525} "@ } else { "\u{2022} "@ }) + "**"@ + t.text + "**\n"@
            + description_line(t.description, Seq::empty(), Seq::empty()) + "\n"@
    }
}

/// The texts of the entries among the first `k` that go to section `sec`, in order.
pub open spec fn section_text(todos: Seq<TodoV>, k: int, top3: bool, sec: int) -> Seq<char>
    decreases k,
{
    if k <= 0 {
        Seq::empty()
    } else {
        section_text(todos, k - 1, top3, sec) + if section_of(todos, k - 1, top3) == sec {
            entry_text(todos, k - 1, top3)
        } else {
            Seq::empty()
        }
    }
}

/// A section of the message under its heading, or nothing when it is empty.
pub open spec fn headed(heading: Seq<char>, body: Seq<char>) -> Seq<char> {
    if body.len() == 0 {
        Seq::empty()
    } else {
        heading + body
    }
}

/// The message that lists the todo entries: the priority entries (the first three, and all
/// open ones once the first three are done), the future ones and the done ones.
pub open spec fn push_body(todos: Seq<TodoV>) -> Seq<char> {
    let top3 = top_three_done(todos);
    let n = todos.len() as int;
    "\u{200b}\n"@
        + headed("#### \u{26a1} PRIORITY\n"@, section_text(todos, n, top3, 0))
        + headed("#### \u{25cc} FUTURE\n"@, section_text(todos, n, top3, 1))
        + headed("#### \u{2705} DONE\n"@, section_text(todos, n, top3, 2))
}

fn description_text(d: &String, pre: &str, post: &str) -> (r: String)
    ensures
        r@ == description_line(d@, pre@, post@),
{
    if d.unicode_len() == 0 {
        String::new()
    } else {
        let mut r = String::from_str("  ");
        r.append(pre);
        r.append(d.as_str());
        r.append(post);
        r.append("\n");
        r
    }
}

fn entry_text_of(todos: &Vec<TodoItem>, i: usize, top3: bool) -> (r: String)
    requires
        i < todos@.len(),
    ensures
        r@ == entry_text(todos.deep_view(), i as int, top3),
{
    let t = &todos[i];
    proof {
        assert(todos.deep_view()[i as int] == t.deep_view());
        reveal_strlit("");
    }
    let mut r: String;
    if t.completed {
        r = String::from_str("\u{2705} **");
        r.append(t.text.as_str());
        r.append("**\n");
        let d = description_text(&t.description, "", "");
        r.append(d.as_str());
    } else if i >= 3 && !top3 {
        r = String::from_str("\u{25cc} _**");
        r.append(t.text.as_str());
        r.append("**_\n");
        let d = description_text(&t.description, "_", "_");
        r.append(d.as_str());
    } else {
        r = if i < 3 {
            String::from_str("\u{1f525} ")
        } else {
            String::from_str("\u{2022} ")
        };
        r.append("**");
        r.append(t.text.as_str());
        r.append("**\n");
        let d = description_text(&t.description, "", "");
        r.append(d.as_str());
    }
    r.append("\n");
    r
}

/// The message that lists the todo entries.
pub fn push_body_text(todos: &Vec<TodoItem>) -> (r: String)
    ensures
        r@ == push_body(todos.deep_view()),
{
    let ghost tv = todos.deep_view();
    let mut top3 = true;
    let mut k: usize = 0;
    while k < todos.len() && k < 3
        invariant
            tv == todos.deep_view(),
            k <= todos@.len(),
            k <= 3,
            top3 == (forall|i: int| 0 <= i < k ==> (#[trigger] tv[i]).completed),
        decreases 3 - k,
    {
        proof {
            assert(tv[k as int] == todos@[k as int].deep_view());
        }
        if !todos[k].completed {
            top3 = false;
        }
        k = k + 1;
    }
    proof {
        if top3 {
            assert forall|i: int| 0 <= i < tv.len() && i < 3 implies (#[trigger] tv[i]).completed by {
                assert(i < k);
            }
        }
        assert(top3 == top_three_done(tv));
    }
    let mut priority = String::new();
    let mut future = String::new();
    let mut done = String::new();
    let mut i: usize = 0;
    while i < todos.len()
        invariant
            tv == todos.deep_view(),
            top3 == top_three_done(tv),
            i <= todos@.len(),
            priority@ == section_text(tv, i as int, top3, 0),
            future@ == section_text(tv, i as int, top3, 1),
            done@ == section_text(tv, i as int, top3, 2),
        decreases todos@.len() - i,
    {
        proof {
            assert(tv[i as int] == todos@[i as int].deep_view());
        }
        let e = entry_text_of(todos, i, top3);
        if todos[i].completed {
            done.append(e.as_str());
        } else if i >= 3 && !top3 {
            future.append(e.as_str());
        } else {
            priority.append(e.as_str());
        }
        i = i + 1;
        proof {
            assert(section_text(tv, i as int, top3, 0) =~= priority@);
            assert(section_text(tv, i as int, top3, 1) =~= future@);
            assert(section_text(tv, i as int, top3, 2) =~= done@);
        }
    }
    let mut body = String::from_str("\u{200b}\n");
    if priority.unicode_len() > 0 {
        body.append("#### \u{26a1} PRIORITY\n");
        body.append(priority.as_str());
    }
    if future.unicode_len() > 0 {
        body.append("#### \u{25cc} FUTURE\n");
        body.append(future.as_str());
    }
    if done.unicode_len() > 0 {
        body.append("#### \u{2705} DONE\n");
        body.append(done.as_str());
    }
    proof {
        assert(body@ =~= push_body(tv));
    }
    body
}

/// The topic that the todo list is sent to.
pub open spec fn topic_of(a: App) -> Seq<char> {
    match a.all_projects.ntfy_topic.deep_view() {
        Some(t) => t,
        None => "gantt-cli-default"@,
    }
}

/// What asking to send the todo list does: nothing is sent when it is empty; otherwise the
/// request is made and the status says so.
pub open spec fn push_requested(a: App, b: App, r: Option<PushRequest>) -> bool {
    &&& b == (App { status_message: b.status_message, ..a })
    &&& a.all_projects.todo_list@.len() == 0 ==> r is None && b.status_message@ == "Todo list is empty!"@
    &&& a.all_projects.todo_list@.len() > 0 ==> {
        &&& r is Some
        &&& r->0.topic@ == topic_of(a)
        &&& r->0.url@ == "https://ntfy.sh/"@ + topic_of(a)
        &&& r->0.body@ == push_body(a.all_projects.todo_list.deep_view())
        &&& r->0.title@ == "Gantt-CLI Todo List"@
        &&& r->0.markdown@ == "yes"@
        &&& r->0.tags@ == "clipboard,calendar"@
        &&& b.status_message@ == "Pushing to phone..."@
    }
}

/// The status after sending the todo list: `error` is the text of the failure, if any.
pub open spec fn push_message(topic: Seq<char>, error: Option<Seq<char>>) -> Seq<char> {
    match error {
        None => "Todo list pushed to ntfy.sh/"@ + topic,
        Some(e) => "Failed to push: "@ + e,
    }
}

/// The status message after a save: `saved` tells whether the data file was written, `error`
/// is the text of the failure.
pub open spec fn save_message(a: App, saved: bool, error: Seq<char>) -> Seq<char> {
    let path = a.current_file_path@;
    if saved {
        if a.after_save == AfterSave::Startup {
            "Welcome! New database created at "@ + path + "."@
        } else {
            "All projects saved successfully to "@ + path + "!"@
        }
    } else {
        match a.after_save {
            AfterSave::Report => "Failed to save projects."@,
            AfterSave::NewProject => "Failed to save current project before creating new one."@,
            AfterSave::NextProject => "Failed to save current project before switching."@,
            AfterSave::PreviousProject => "Failed to save current project before switching."@,
            AfterSave::Startup => "Failed to create data file at "@ + path + ": "@ + error,
            AfterSave::Nothing => a.status_message@,
        }
    }
}

/// The state right after a save, before what was waiting for it.
pub open spec fn save_recorded(a: App, b: App, saved: bool, error: Seq<char>) -> bool {
    &&& b == (App {
        status_message: b.status_message,
        is_dirty: if saved { false } else { a.is_dirty },
        quit_pending: if saved { false } else { a.quit_pending },
        after_save: AfterSave::Nothing,
        ..a
    })
    &&& b.status_message@ == save_message(a, saved, error)
}

/// What switching to project `j` after a save does.
pub open spec fn switch_post(a: App, b: App, j: int, ok: bool) -> bool {
    let projects = a.all_projects.projects.deep_view();
    &&& ok == recalc_completes(projects[j].tasks, projects[j].start)
    &&& ok ==> {
        &&& b.wf()
        &&& b.current_project_index == j
        &&& b.all_projects.projects.deep_view() == with_scheduled(projects, j)
        &&& b.all_projects.todo_list.deep_view() == a.all_projects.todo_list.deep_view()
        &&& b.history.deep_view() == a.history.deep_view()
        &&& b.selected_task == Some(0usize)
        &&& b.status_message@ == "Switched to project: "@ + projects[j].name
        &&& b.is_dirty == a.is_dirty && b.focus_area == a.focus_area
        &&& b.redo_history.deep_view() == a.redo_history.deep_view()
        &&& b.deleted_projects.deep_view() == a.deleted_projects.deep_view()
        &&& rest_kept(a, b)
    }
}

/// The project that creating one adds, the `n`-th, starting on `start`.
pub open spec fn fresh_project(n: int, start: int) -> ProjectV {
    ProjectV { name: "New Project "@ + decimal(n as nat), start, end: None, day_offset: 0, tasks: Seq::empty(), archived: false }
}

/// What creating a project after a save does.
pub open spec fn new_project_post(a: App, b: App, now: int, ok: bool) -> bool {
    let n = a.all_projects.projects@.len() as int;
    let all = a.all_projects.projects.deep_view().push(fresh_project(n + 1, now));
    &&& ok == (n < usize::MAX && recalc_completes(Seq::empty(), now))
    &&& ok ==> {
        &&& b.wf()
        &&& b.current_project_index == n
        &&& b.all_projects.projects.deep_view() == with_scheduled(all, n)
        &&& b.all_projects.todo_list.deep_view() == a.all_projects.todo_list.deep_view()
        &&& b.history.deep_view() == a.history.deep_view().push(with_active(a.all_projects.deep_view(), a.current_project_index))
        &&& b.redo_history@.len() == 0
        &&& b.selected_task is None
        &&& b.focus_area == FocusArea::Project(ProjectField::Name)
        &&& b.status_message@ == "New project '"@ + fresh_project(n + 1, now).name + "' created."@
        &&& b.is_dirty
        &&& b.deleted_projects.deep_view() == a.deleted_projects.deep_view()
        &&& rest_kept(a, b)
    }
}

/// What finishing a save does: the status and flags of the save, then what was waiting for it.
pub open spec fn save_finished(a: App, b: App, saved: bool, error: Seq<char>, now: int, ok: bool) -> bool {
    exists|m: App| {
        &&& #[trigger] save_recorded(a, m, saved, error)
        &&& m.wf()
        &&& match a.after_save {
            AfterSave::NewProject => new_project_post(m, b, now, ok),
            AfterSave::NextProject => match next_shown(m.all_projects.projects.deep_view(), m.current_project_index as int, m.show_archived) {
                Some(j) => switch_post(m, b, j, ok),
                None => ok && b == m,
            },
            AfterSave::PreviousProject => match previous_shown(m.all_projects.projects.deep_view(), m.current_project_index as int, m.show_archived) {
                Some(j) => switch_post(m, b, j, ok),
                None => ok && b == m,
            },
            _ => ok && b == m,
        }
    }
}

/// The remainder of `t` divided by `m`, with the sign of `t`, as Rust's `%` computes it.
pub open spec fn rem_toward_zero(t: int, m: int) -> int {
    if t >= 0 {
        t % m
    } else {
        -((-t) % m)
    }
}

/// The topic that a new data set gets from the clock.
pub open spec fn clock_topic(timestamp: i64) -> Seq<char> {
    "gantt-cli-"@ + signed_decimal(rem_toward_zero(timestamp as int, 1000000))
}

/// The topic that a new data set gets from the clock.
pub fn clock_topic_text(timestamp: i64) -> (r: String)
    ensures
        r@ == clock_topic(timestamp),
{
    let r: i64 = if timestamp >= 0 {
        timestamp % 1000000
    } else if timestamp == i64::MIN {
        proof {
            assert(((i64::MAX as int % 1000000) + 1) % 1000000 == (-(timestamp as int)) % 1000000) by (nonlinear_arith)
                requires
                    timestamp == i64::MIN,
            ;
        }
        -(((i64::MAX % 1000000) + 1) % 1000000)
    } else {
        -((-timestamp) % 1000000)
    };
    let num = i64_to_text(r);
    let mut topic = String::from_str("gantt-cli-");
    topic.append(num.as_str());
    topic
}

impl App {
    /// The state before any data is loaded, with the data file at `path`.
    pub fn initial(path: String, today: Date) -> (r: App)
        ensures
            r.all_projects.projects@.len() == 0,
            r.all_projects.todo_list@.len() == 0,
            r.all_projects.ntfy_topic is None,
            !r.all_projects.compact_timeline,
            r.all_projects.column_visibility == (ColumnVisibility {
                assigned_to: true,
                start_date: true,
                end_date: true,
                duration: true,
                progress: true,
                dependencies: true,
            }),
            r.current_project_index == 0,
            r.today == today,
            r.selected_task is None,
            r.selected_todo is None,
            r.input_mode == InputMode::Normal,
            r.focus_area == FocusArea::Tasks,
            r.selected_task_field == TaskField::Name,
            r.input_buffer@.len() == 0,
            r.next_task_id == 1,
            !r.should_quit,
            r.status_message@ == "Welcome! Press 'q' to quit."@,
            r.history@.len() == 0,
            r.redo_history@.len() == 0,
            r.current_file_path@ == path@,
            !r.todo_list_open,
            r.highlight_mode == HighlightMode::Today,
            !r.is_dirty,
            !r.quit_pending,
            !r.confirm_delete_project,
            r.deleted_projects@.len() == 0,
            !r.help_open,
            !r.editing_todo_name,
            !r.column_config_open,
            r.column_config_selected == 0,
            r.after_save == AfterSave::Nothing,
            !r.show_archived,
            !r.overwrite_pending,
            r.selected_subtask is None,
    {
        App {
            all_projects: AllProjectsData {
                projects: Vec::new(),
                active_project_index: 0,
                todo_list: Vec::new(),
                ntfy_topic: None,
                compact_timeline: false,
                column_visibility: ColumnVisibility::all_visible(),
            },
            current_project_index: 0,
            today,
            selected_task: None,
            selected_todo: None,
            input_mode: InputMode::Normal,
            focus_area: FocusArea::Tasks,
            selected_task_field: TaskField::Name,
            input_buffer: String::new(),
            next_task_id: 1,
            should_quit: false,
            status_message: String::from_str("Welcome! Press 'q' to quit."),
            history: Vec::new(),
            redo_history: Vec::new(),
            current_file_path: path,
            todo_list_open: false,
            highlight_mode: HighlightMode::Today,
            is_dirty: false,
            quit_pending: false,
            confirm_delete_project: false,
            deleted_projects: Vec::new(),
            help_open: false,
            editing_todo_name: false,
            column_config_open: false,
            column_config_selected: 0,
            after_save: AfterSave::Nothing,
            show_archived: false,
            overwrite_pending: false,
            selected_subtask: None,
        }
    }

    /// Takes the data read from the data file; its active project becomes the current one.
    /// `ok` is `false` exactly where that index names no project (or a project holds as many
    /// tasks as an id can count).
    pub fn load_data(&mut self, data: AllProjectsData) -> (ok: bool)
        requires
            old(self).deleted_projects@.len() == 0,
        ensures
            ok == data_wf(data.deep_view()),
            ok ==> final(self).wf(),
            ok ==> final(self).all_projects.deep_view() == data.deep_view(),
            ok ==> final(self).current_project_index == data.active_project_index,
            ok ==> final(self).history@.len() == 0 && final(self).redo_history@.len() == 0,
            ok ==> final(self).status_message@ == "Projects loaded successfully from "@ + old(self).current_file_path@ + "."@,
            ok ==> *final(self) == (App {
                all_projects: final(self).all_projects,
                current_project_index: final(self).current_project_index,
                history: final(self).history,
                redo_history: final(self).redo_history,
                status_message: final(self).status_message,
                ..*old(self)
            }),
    {
        let n = data.projects.len();
        if data.active_project_index >= n {
            return false;
        }
        let mut i: usize = 0;
        while i < n
            invariant
                n == data.projects@.len(),
                i <= n,
                forall|k: int| 0 <= k < i ==> (#[trigger] data.projects@[k]).tasks@.len() < u32::MAX - 2,
            decreases n - i,
        {
            if data.projects[i].tasks.len() >= 4294967293usize {
                proof {
                    assert(data.deep_view().projects[i as int].tasks.len() == data.projects@[i as int].tasks@.len());
                }
                return false;
            }
            i = i + 1;
        }
        proof {
            let d = data.deep_view();
            assert forall|k: int| 0 <= k < d.projects.len() implies (#[trigger] d.projects[k]).tasks.len() < u32::MAX - 2 by {
                assert(d.projects[k].tasks.len() == data.projects@[k].tasks@.len());
            }
        }
        let active = data.active_project_index;
        self.all_projects = data;
        self.current_project_index = active;
        self.history = Vec::new();
        self.redo_history = Vec::new();
        self.status_message = concat3("Projects loaded successfully from ", self.current_file_path.as_str(), ".");
        proof {
            assert(AllV { active: self.current_project_index, ..self.all_projects.deep_view() } == self.all_projects.deep_view());
        }
        true
    }

    /// Finishes the start-up: gives the data a notification topic from the clock when it has
    /// none, selects the first task (or the project name when there is none) and schedules the
    /// current project.  `ok` is `false` exactly where scheduling cannot complete.
    pub fn finish_startup(&mut self, timestamp: i64) -> (ok: bool)
        requires
            old(self).wf(),
        ensures
            ok == recalc_completes(old(self).tasks_v(), old(self).project_v().start),
            ok ==> final(self).wf(),
            ok ==> final(self).all_projects.ntfy_topic.deep_view() == (match old(self).all_projects.ntfy_topic.deep_view() {
                Some(t) => Some(t),
                None => Some(clock_topic(timestamp)),
            }),
            ok ==> final(self).all_projects.projects.deep_view() == with_scheduled(old(self).all_projects.projects.deep_view(), old(self).current_project_index as int),
            ok ==> final(self).all_projects.todo_list.deep_view() == old(self).all_projects.todo_list.deep_view(),
            ok ==> final(self).current_project_index == old(self).current_project_index,
            ok && old(self).tasks_v().len() > 0 ==> final(self).selected_task == Some(0usize) && final(self).focus_area == FocusArea::Tasks,
            ok && old(self).tasks_v().len() == 0 ==> final(self).selected_task == old(self).selected_task
                && final(self).focus_area == FocusArea::Project(ProjectField::Name),
            ok ==> final(self).status_message@ == old(self).status_message@,
    {
        self.ensure_topic(timestamp);
        let ghost t1 = *self;
        let cur = self.current_project_index;
        if self.all_projects.projects[cur].tasks.len() > 0 {
            self.selected_task = Some(0);
            self.focus_area = FocusArea::Tasks;
        } else {
            self.focus_area = FocusArea::Project(ProjectField::Name);
        }
        proof {
            crate::app::lemma_wf_same_data(t1, *self);
        }
        proof {
            assert(self.tasks_v() == old(self).tasks_v());
            assert(self.project_v() == old(self).project_v());
        }
        let ok = self.recalculate_schedule();
        proof {
            if ok {
                assert(self.all_projects.projects.deep_view() =~= with_scheduled(old(self).all_projects.projects.deep_view(), old(self).current_project_index as int));
            }
        }
        ok
    }

    fn ensure_topic(&mut self, timestamp: i64)
        requires
            old(self).wf(),
        ensures
            final(self).wf(),
            final(self).all_projects.ntfy_topic.deep_view() == (match old(self).all_projects.ntfy_topic.deep_view() {
                Some(t) => Some(t),
                None => Some(clock_topic(timestamp)),
            }),
            final(self).all_projects.projects == old(self).all_projects.projects,
            final(self).all_projects.todo_list == old(self).all_projects.todo_list,
            final(self).current_project_index == old(self).current_project_index,
            final(self).selected_task == old(self).selected_task,
            final(self).status_message == old(self).status_message,
    {
        if self.all_projects.ntfy_topic.is_none() {
            let topic = clock_topic_text(timestamp);
            self.all_projects.ntfy_topic = Some(topic);
            proof {
                let od = AllV { active: old(self).current_project_index, ..old(self).all_projects.deep_view() };
                let d = AllV { active: self.current_project_index, ..self.all_projects.deep_view() };
                assert(d.projects == od.projects);
            }
        }
    }

    /// Asks to send the todo list to the phone: `None` (and a status saying so) when the list
    /// is empty, else the request to make.
    pub fn begin_push(&mut self) -> (r: Option<PushRequest>)
        ensures
            push_requested(*old(self), *final(self), r),
    {
        let topic = match &self.all_projects.ntfy_topic {
            Some(t) => t.clone(),
            None => String::from_str("gantt-cli-default"),
        };
        let mut url = String::from_str("https://ntfy.sh/");
        url.append(topic.as_str());
        if self.all_projects.todo_list.len() == 0 {
            self.status_message = String::from_str("Todo list is empty!");
            return None;
        }
        let body = push_body_text(&self.all_projects.todo_list);
        self.status_message = String::from_str("Pushing to phone...");
        Some(PushRequest {
            url,
            body,
            topic,
            title: String::from_str("Gantt-CLI Todo List"),
            markdown: String::from_str("yes"),
            tags: String::from_str("clipboard,calendar"),
        })
    }

    /// Takes the outcome of sending the todo list to `topic`: `error` is the text of the
    /// failure, if any.
    pub fn finish_push(&mut self, topic: &str, error: Option<String>)
        ensures
            *final(self) == (App { status_message: final(self).status_message, ..*old(self) }),
            final(self).status_message@ == push_message(topic@, match error {
                Some(e) => Some(e@),
                None => None,
            }),
    {
        match error {
            None => {
                let mut m = String::from_str("Todo list pushed to ntfy.sh/");
                m.append(topic);
                self.status_message = m;
            },
            Some(e) => {
                let mut m = String::from_str("Failed to push: ");
                m.append(e.as_str());
                self.status_message = m;
            },
        }
    }

    /// Prepares a save of all projects: the current project is recorded as the active one,
    /// and `after` is what is to happen once the save has been attempted.
    pub fn begin_save(&mut self, after: AfterSave)
        requires
            old(self).wf(),
        ensures
            final(self).wf(),
            final(self).all_projects.deep_view() == with_active(old(self).all_projects.deep_view(), old(self).current_project_index),
            *final(self) == (App { all_projects: final(self).all_projects, after_save: after, ..*old(self) }),
    {
        self.all_projects.active_project_index = self.current_project_index;
        self.after_save = after;
    }

    /// Takes the outcome of writing the data file (`saved`, and `error`, the text of the
    /// failure), then does what was waiting for the save, with `now` as today's date.  `ok` is
    /// `false` exactly where scheduling the project that becomes current cannot complete.
    pub fn finish_save(&mut self, saved: bool, error: &str, now: Date) -> (ok: bool)
        requires
            old(self).wf(),
        ensures
            save_finished(*old(self), *final(self), saved, error@, now@, ok),
    {
        let after = self.after_save;
        self.record_save(saved, error);
        let ghost m = *self;
        let cur = self.current_project_index;
        let ok = match after {
            AfterSave::NewProject => self.create_project(now),
            AfterSave::NextProject => match find_next_shown(&self.all_projects.projects, cur, self.show_archived) {
                Some(j) => self.switch_to_project(j),
                None => true,
            },
            AfterSave::PreviousProject => match find_previous_shown(&self.all_projects.projects, cur, self.show_archived) {
                Some(j) => self.switch_to_project(j),
                None => true,
            },
            _ => true,
        };
        proof {
            assert(save_recorded(*old(self), m, saved, error@) && m.wf());
        }
        ok
    }

    fn record_save(&mut self, saved: bool, error: &str)
        requires
            old(self).wf(),
        ensures
            save_recorded(*old(self), *final(self), saved, error@),
            final(self).wf(),
    {
        let msg = self.save_message_text(saved, error);
        self.status_message = msg;
        if saved {
            self.is_dirty = false;
            self.quit_pending = false;
        }
        self.after_save = AfterSave::Nothing;
        proof {
            crate::app::lemma_wf_same_data(*old(self), *self);
        }
    }

    fn save_message_text(&self, saved: bool, error: &str) -> (r: String)
        ensures
            r@ == save_message(*self, saved, error@),
    {
        let after = self.after_save;
        if saved {
            if after == AfterSave::Startup {
                concat3("Welcome! New database created at ", self.current_file_path.as_str(), ".")
            } else {
                concat3("All projects saved successfully to ", self.current_file_path.as_str(), "!")
            }
        } else {
            match after {
                AfterSave::Report => String::from_str("Failed to save projects."),
                AfterSave::NewProject => String::from_str("Failed to save current project before creating new one."),
                AfterSave::NextProject => String::from_str("Failed to save current project before switching."),
                AfterSave::PreviousProject => String::from_str("Failed to save current project before switching."),
                AfterSave::Startup => {
                    let mut head = concat3("Failed to create data file at ", self.current_file_path.as_str(), ": ");
                    head.append(error);
                    head
                },
                AfterSave::Nothing => self.status_message.clone(),
            }
        }
    }

    fn switch_to_project(&mut self, j: usize) -> (ok: bool)
        requires
            old(self).wf(),
            j < old(self).all_projects.projects@.len(),
        ensures
            switch_post(*old(self), *final(self), j as int, ok),
    {
        self.current_project_index = j;
        proof {
            let od = AllV { active: old(self).current_project_index, ..old(self).all_projects.deep_view() };
            let d = AllV { active: self.current_project_index, ..self.all_projects.deep_view() };
            assert(d.projects == od.projects);
            assert(self.project_v() == old(self).all_projects.projects.deep_view()[j as int]);
        }
        let mut status = String::from_str("Switched to project: ");
        status.append(self.all_projects.projects[j].project_name.as_str());
        let ghost mid = *self;
        proof {
            assert(mid.tasks_v() == old(self).all_projects.projects.deep_view()[j as int].tasks);
        }
        let ok = self.recalculate_schedule();
        self.status_message = status;
        self.selected_task = Some(0);
        proof {
            if ok {
                assert(self.all_projects.projects.deep_view() =~= with_scheduled(old(self).all_projects.projects.deep_view(), j as int));
            }
        }
        ok
    }

    fn create_project(&mut self, now: Date) -> (ok: bool)
        requires
            old(self).wf(),
        ensures
            new_project_post(*old(self), *final(self), now@, ok),
    {
        let n = self.all_projects.projects.len();
        if n == usize::MAX {
            return false;
        }
        self.save_state_for_undo();
        let ghost snap = *self;
        let num = u64_to_text((n + 1) as u64);
        let mut name = String::from_str("New Project ");
        name.append(num.as_str());
        let status = concat3("New project '", name.as_str(), "' created.");
        let p = ProjectData {
            project_name: name,
            project_start_date: now,
            project_end_date: None,
            day_offset: 0,
            tasks: Vec::new(),
            archived: false,
        };
        self.all_projects.projects.push(p);
        self.current_project_index = n;
        proof {
            assert(self.history == snap.history);
            assert(p.tasks.deep_view() =~= Seq::<crate::model::TaskV>::empty());
            assert(self.all_projects.projects.deep_view() =~= old(self).all_projects.projects.deep_view().push(fresh_project(n + 1, now@)));
            let od = AllV { active: old(self).current_project_index, ..old(self).all_projects.deep_view() };
            let d = AllV { active: self.current_project_index, ..self.all_projects.deep_view() };
            assert forall|i: int| 0 <= i < d.projects.len() implies (#[trigger] d.projects[i]).tasks.len() < u32::MAX - 2 by {
                if i < n {
                    assert(d.projects[i] == od.projects[i]);
                }
            }
            assert(self.tasks_v() =~= Seq::<crate::model::TaskV>::empty());
        }
        let ok = self.recalculate_schedule();
        self.selected_task = None;
        self.focus_area = FocusArea::Project(ProjectField::Name);
        self.status_message = status;
        self.is_dirty = true;
        proof {
            if ok {
                let all = old(self).all_projects.projects.deep_view().push(fresh_project(n + 1, now@));
                assert(self.all_projects.projects.deep_view() =~= with_scheduled(all, n as int));
            }
        }
        ok
    }
}

} // verus!
