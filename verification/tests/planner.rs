use gantt_cli::app::{AfterSave, App, FocusArea, HighlightMode, InputMode, ProjectField, TaskField};
use gantt_cli::chart::{bar_cell, entry_emphasis, header_mark, is_parent, timeline_days, todo_highlighted, Emphasis, HeaderMark};
use gantt_cli::date::{format_mdy, parse_mdy, Date};
use gantt_cli::edit::{read_duration, read_progress};
use gantt_cli::keys::{cut_last_word, Effect, Key, KeyPress, Modifiers};
use gantt_cli::labels::task_labels;
use gantt_cli::layout::{task_row_kind, RowKind};
use gantt_cli::model::{ProjectData, Task, TodoItem, TodoSubtask};
use gantt_cli::renumber::renumber;
use gantt_cli::schedule::schedule_tasks;
use gantt_cli::session::{clock_topic_text, push_body_text};

const AUG_1_2024: i32 = 739099;

fn day(d: i32) -> Date {
    Date::from_day(d).unwrap()
}

fn mdy(d: &Option<Date>) -> String {
    match d {
        Some(x) => format_mdy(x),
        None => String::from("-"),
    }
}

fn task(id: u32, name: &str, duration: i64, deps: Vec<u32>, parent: Option<u32>) -> Task {
    Task {
        id,
        name: name.to_string(),
        assigned_to: String::from("Unassigned"),
        duration,
        progress: 0,
        dependencies: deps,
        manual_start_date: None,
        details: None,
        parent_id: parent,
        start_date: None,
        end_date: None,
    }
}

fn press(c: char) -> KeyPress {
    KeyPress {
        key: Key::Char(c),
        modifiers: Modifiers { shift: false, control: false, alt: false, other: false },
    }
}

fn key(k: Key) -> KeyPress {
    KeyPress { key: k, modifiers: Modifiers { shift: false, control: false, alt: false, other: false } }
}

fn ctrl(c: char) -> KeyPress {
    KeyPress {
        key: Key::Char(c),
        modifiers: Modifiers { shift: false, control: true, alt: false, other: false },
    }
}

fn started() -> App {
    let mut app = App::initial(String::from("projects.json"), day(AUG_1_2024 + 3));
    app.add_default_project();
    assert!(app.finish_startup(1700123456));
    app
}

fn normal(app: &mut App, k: KeyPress) -> Effect {
    app.handle_normal_mode(k)
}

fn editing(app: &mut App, k: KeyPress) -> Effect {
    app.handle_editing_mode(k)
}

fn type_text(app: &mut App, s: &str) {
    for c in s.chars() {
        assert!(matches!(editing(app, press(c)), Effect::Nothing));
    }
}

fn clear_buffer(app: &mut App) {
    while !app.input_buffer.is_empty() {
        assert!(matches!(editing(app, key(Key::Backspace)), Effect::Nothing));
    }
}

fn project_with(tasks: Vec<Task>) -> App {
    let mut app = App::initial(String::from("p.json"), day(AUG_1_2024 + 3));
    app.add_default_project();
    app.all_projects.projects[0].tasks = tasks;
    assert!(app.finish_startup(5));
    app
}

#[test]
fn dates_read_and_written_as_month_day_year() {
    assert_eq!(format_mdy(&day(AUG_1_2024)), "08/01/24");
    assert_eq!(parse_mdy("08/01/24").map(|d| d.day()), Some(AUG_1_2024));
    assert_eq!(parse_mdy("12/31/24").map(|d| d.day()), Some(AUG_1_2024 + 152));
    assert!(parse_mdy("13/40/24").is_none());
    assert!(parse_mdy("today").is_none());
    assert_eq!(day(AUG_1_2024).add_days(30).map(|d| d.day()), Some(AUG_1_2024 + 30));
    assert!(Date::from_day(i32::MAX).is_none());
}

#[test]
fn startup_with_default_project() {
    let app = started();
    let p = &app.all_projects.projects[0];
    assert_eq!(p.project_name, "New Project");
    assert_eq!(p.tasks.len(), 2);
    // The design task depends on the requirements task and starts the day after it ends.
    assert_eq!(p.tasks[0].id, 1);
    assert_eq!(p.tasks[1].id, 2);
    assert_eq!(mdy(&p.tasks[0].start_date), "08/01/24");
    assert_eq!(mdy(&p.tasks[0].end_date), "08/05/24");
    assert_eq!(mdy(&p.tasks[1].start_date), "08/06/24");
    assert_eq!(mdy(&p.tasks[1].end_date), "08/12/24");
    assert_eq!(app.all_projects.ntfy_topic.as_deref(), Some("gantt-cli-123456"));
    assert_eq!(app.selected_task, Some(0));
    assert!(app.focus_area == FocusArea::Tasks);
    assert_eq!(app.next_task_id, 3);
}

#[test]
fn clock_topic_keeps_sign_of_remainder() {
    assert_eq!(clock_topic_text(1700123456), "gantt-cli-123456");
    assert_eq!(clock_topic_text(-1234567), "gantt-cli--234567");
    assert_eq!(clock_topic_text(i64::MIN), "gantt-cli--775808");
}

#[test]
fn schedule_follows_dependencies_and_stretches_parents() {
    let tasks = vec![
        task(1, "Parent", 1, vec![], None),
        task(2, "First", 3, vec![], Some(1)),
        task(3, "Second", 2, vec![2], Some(1)),
    ];
    let out = schedule_tasks(&tasks, day(AUG_1_2024)).unwrap();
    assert_eq!(mdy(&out[1].start_date), "08/01/24");
    assert_eq!(mdy(&out[1].end_date), "08/03/24");
    assert_eq!(mdy(&out[2].start_date), "08/04/24");
    assert_eq!(mdy(&out[2].end_date), "08/05/24");
    assert_eq!(mdy(&out[0].start_date), "08/01/24");
    assert_eq!(mdy(&out[0].end_date), "08/05/24");
    assert_eq!(out[0].duration, 5);
}

#[test]
fn schedule_uses_manual_start_and_minimum_length() {
    let mut t = task(1, "Solo", 0, vec![], None);
    t.manual_start_date = Some(day(AUG_1_2024 + 10));
    let out = schedule_tasks(&vec![t], day(AUG_1_2024)).unwrap();
    assert_eq!(mdy(&out[0].start_date), "08/11/24");
    assert_eq!(mdy(&out[0].end_date), "08/11/24");
}

#[test]
fn schedule_refuses_a_cycle_of_parents() {
    let tasks = vec![task(1, "A", 1, vec![], Some(2)), task(2, "B", 1, vec![], Some(1))];
    assert!(schedule_tasks(&tasks, day(AUG_1_2024)).is_none());
}

#[test]
fn renumbering_maps_ids_to_positions() {
    let tasks = vec![task(5, "A", 1, vec![], None), task(9, "B", 1, vec![5, 7], Some(5))];
    let out = renumber(&tasks);
    assert_eq!(out[0].id, 1);
    assert_eq!(out[1].id, 2);
    assert_eq!(out[1].dependencies, vec![1]);
    assert_eq!(out[1].parent_id, Some(1));
    let again = renumber(&out);
    assert_eq!(again[1].dependencies, vec![1]);
    assert_eq!(again[1].id, 2);
}

#[test]
fn outline_labels_alternate_letters_and_numbers() {
    let tasks = vec![
        task(1, "A", 1, vec![], None),
        task(2, "B", 1, vec![], Some(1)),
        task(3, "C", 1, vec![], Some(1)),
        task(4, "D", 1, vec![], None),
        task(5, "E", 1, vec![], Some(2)),
    ];
    let l = task_labels(&tasks).unwrap();
    let got: Vec<String> = (1..=5).map(|id| l.get(id).unwrap()).collect();
    assert_eq!(got, vec!["1", "1a", "1b", "2", "1a1"]);
    let cyclic = vec![task(1, "A", 1, vec![], Some(2)), task(2, "B", 1, vec![], Some(1))];
    assert!(task_labels(&cyclic).is_none());
}

#[test]
fn durations_read_with_units() {
    assert_eq!(read_duration("2w", 1), Some(14));
    assert_eq!(read_duration(" 3m ", 1), Some(90));
    assert_eq!(read_duration("1y", 1), Some(365));
    assert_eq!(read_duration("12", 1), Some(12));
    assert_eq!(read_duration("abc", 4), Some(4));
    assert_eq!(read_duration("xw", 4), Some(4));
    assert_eq!(read_duration("9223372036854775807w", 4), None);
}

#[test]
fn progress_is_read_and_capped() {
    assert_eq!(read_progress("42", 5), 42);
    assert_eq!(read_progress("150", 5), 100);
    assert_eq!(read_progress("300", 5), 100);
    assert_eq!(read_progress("+99999999999999999999999", 5), 100);
    assert_eq!(read_progress("-3", 5), 5);
    assert_eq!(read_progress("x", 5), 5);
}

#[test]
fn ctrl_w_cuts_the_last_word() {
    assert_eq!(cut_last_word("hello world  ").as_deref(), Some("hello "));
    assert_eq!(cut_last_word("single").as_deref(), Some(""));
    assert_eq!(cut_last_word("").as_deref(), Some(""));
    assert!(cut_last_word("a\u{3000}b").is_none());
}

#[test]
fn rows_are_done_overdue_or_current() {
    let mut t = task(1, "T", 3, vec![], None);
    t.start_date = Some(day(100));
    t.end_date = Some(day(102));
    assert!(matches!(task_row_kind(&t, &day(101)), RowKind::Current { elapsed: 2, total: 3 }));
    assert!(matches!(task_row_kind(&t, &day(103)), RowKind::Overdue));
    assert!(matches!(task_row_kind(&t, &day(99)), RowKind::Plain));
    t.progress = 100;
    assert!(matches!(task_row_kind(&t, &day(103)), RowKind::Done));
}

#[test]
fn column_widths_of_the_sample_project() {
    let app = started();
    assert_eq!(app.calculate_column_widths(), Some(vec![4, 35, 10, 12, 12, 6, 7, 6]));
}

#[test]
fn hidden_columns_have_no_width() {
    let mut app = started();
    app.all_projects.column_visibility.assigned_to = false;
    app.all_projects.column_visibility.dependencies = false;
    assert_eq!(app.calculate_column_widths(), Some(vec![4, 35, 0, 12, 12, 6, 7, 0]));
}

#[test]
fn push_message_groups_entries() {
    let todos = vec![
        TodoItem { text: "A".into(), completed: true, description: "".into(), subtasks: vec![] },
        TodoItem { text: "B".into(), completed: false, description: "note".into(), subtasks: vec![] },
        TodoItem { text: "C".into(), completed: false, description: "".into(), subtasks: vec![] },
        TodoItem { text: "D".into(), completed: false, description: "".into(), subtasks: vec![] },
    ];
    let body = push_body_text(&todos);
    let expected = "\u{200b}\n#### \u{26a1} PRIORITY\n\u{1f525} **B**\n  note\n\n\u{1f525} **C**\n\n#### \u{25cc} FUTURE\n\u{25cc} _**D**_\n\n#### \u{2705} DONE\n\u{2705} **A**\n\n";
    assert_eq!(body, expected);
}

#[test]
fn push_message_when_first_three_done() {
    let mut todos: Vec<TodoItem> = (0..4)
        .map(|i| TodoItem { text: format!("T{}", i), completed: i < 3, description: String::new(), subtasks: vec![] })
        .collect();
    todos[3].description = "d".into();
    let body = push_body_text(&todos);
    assert!(body.contains("#### \u{26a1} PRIORITY\n\u{2022} **T3**\n  d\n\n"));
    assert!(!body.contains("FUTURE"));
}

#[test]
fn adding_a_sibling_and_naming_it() {
    let mut app = started();
    assert!(matches!(normal(&mut app, press('a')), Effect::Nothing));
    assert!(app.input_mode == InputMode::Editing);
    assert_eq!(app.selected_task, Some(1));
    assert_eq!(app.input_buffer, "New Task");
    assert_eq!(app.status_message, "Added new sibling task.");
    let ids: Vec<u32> = app.all_projects.projects[0].tasks.iter().map(|t| t.id).collect();
    assert_eq!(ids, vec![1, 2, 3]);
    clear_buffer(&mut app);
    type_text(&mut app, "Review");
    assert!(matches!(editing(&mut app, key(Key::Enter)), Effect::Nothing));
    assert!(app.input_mode == InputMode::Normal);
    assert_eq!(app.all_projects.projects[0].tasks[1].name, "Review");
    assert_eq!(app.history.len(), 2);
}

#[test]
fn editing_duration_with_weeks() {
    let mut app = started();
    app.selected_task_field = TaskField::Duration;
    assert!(matches!(normal(&mut app, key(Key::Enter)), Effect::Nothing));
    assert_eq!(app.input_buffer, "5");
    clear_buffer(&mut app);
    type_text(&mut app, "2w");
    assert!(matches!(editing(&mut app, key(Key::Enter)), Effect::Nothing));
    assert_eq!(app.all_projects.projects[0].tasks[0].duration, 14);
}

#[test]
fn bad_date_leaves_a_message() {
    let mut app = started();
    app.focus_area = FocusArea::Project(ProjectField::StartDate);
    assert!(matches!(normal(&mut app, key(Key::Enter)), Effect::Nothing));
    assert_eq!(app.input_buffer, "08/01/24");
    clear_buffer(&mut app);
    type_text(&mut app, "nope");
    assert!(matches!(editing(&mut app, key(Key::Enter)), Effect::Nothing));
    assert_eq!(app.status_message, "Invalid date format. Please use mm/dd/yyyy or 'today'.");
    assert_eq!(app.all_projects.projects[0].project_start_date.day(), AUG_1_2024);
}

#[test]
fn end_date_sets_the_duration() {
    let mut app = project_with(vec![task(1, "A", 2, vec![], None)]);
    app.selected_task_field = TaskField::EndDate;
    assert!(matches!(normal(&mut app, key(Key::Enter)), Effect::Nothing));
    clear_buffer(&mut app);
    type_text(&mut app, "08/10/24");
    assert!(matches!(editing(&mut app, key(Key::Enter)), Effect::Nothing));
    assert_eq!(app.all_projects.projects[0].tasks[0].duration, 10);
    assert_eq!(mdy(&app.all_projects.projects[0].tasks[0].end_date), "08/10/24");
}

#[test]
fn dependencies_by_label_with_warning() {
    let mut app = project_with(vec![
        task(1, "A", 2, vec![], None),
        task(2, "B", 2, vec![], None),
    ]);
    app.selected_task = Some(1);
    app.selected_task_field = TaskField::Dependencies;
    assert!(matches!(normal(&mut app, key(Key::Enter)), Effect::Nothing));
    assert_eq!(app.input_buffer, "");
    type_text(&mut app, "1, zz");
    assert!(matches!(editing(&mut app, key(Key::Enter)), Effect::Nothing));
    let t = &app.all_projects.projects[0].tasks[1];
    assert_eq!(t.dependencies, vec![1]);
    assert_eq!(mdy(&t.start_date), "08/03/24");
    assert_eq!(app.status_message, "Some dependency IDs were not recognized and were dropped.");
}

#[test]
fn start_date_needs_finished_dependencies() {
    let mut app = project_with(vec![task(1, "A", 2, vec![], None), task(2, "B", 2, vec![1], None)]);
    app.selected_task = Some(1);
    app.selected_task_field = TaskField::StartDate;
    assert!(matches!(normal(&mut app, key(Key::Enter)), Effect::Nothing));
    assert_eq!(app.status_message, "Cannot edit Start Date: dependencies are not all finished.");
    assert!(app.input_mode == InputMode::Normal);
}

#[test]
fn undo_then_redo_restores_the_edit() {
    let mut app = started();
    assert!(matches!(normal(&mut app, press('A')), Effect::Nothing));
    clear_buffer(&mut app);
    type_text(&mut app, "Extra");
    assert!(matches!(editing(&mut app, key(Key::Enter)), Effect::Nothing));
    assert_eq!(app.all_projects.projects[0].tasks.len(), 3);
    assert!(matches!(normal(&mut app, press('u')), Effect::Nothing));
    assert_eq!(app.status_message, "Undo successful.");
    assert_eq!(app.all_projects.projects[0].tasks.len(), 3);
    assert_eq!(app.all_projects.projects[0].tasks[2].name, "New Task");
    assert!(matches!(normal(&mut app, press('u')), Effect::Nothing));
    assert_eq!(app.all_projects.projects[0].tasks.len(), 2);
    assert!(matches!(normal(&mut app, ctrl('r')), Effect::Nothing));
    assert_eq!(app.all_projects.projects[0].tasks.len(), 3);
    assert!(matches!(normal(&mut app, ctrl('r')), Effect::Nothing));
    assert_eq!(app.all_projects.projects[0].tasks[2].name, "Extra");
    assert!(matches!(normal(&mut app, ctrl('r')), Effect::Nothing));
    assert_eq!(app.status_message, "Nothing to redo.");
}

#[test]
fn moving_a_task_down_then_up() {
    let mut app = project_with(vec![task(1, "A", 1, vec![], None), task(2, "B", 1, vec![], None)]);
    assert!(matches!(normal(&mut app, press('J')), Effect::Nothing));
    assert_eq!(app.all_projects.projects[0].tasks[0].name, "B");
    assert_eq!(app.selected_task, Some(1));
    assert!(matches!(normal(&mut app, press('K')), Effect::Nothing));
    assert_eq!(app.all_projects.projects[0].tasks[0].name, "A");
    assert_eq!(app.selected_task, Some(0));
}

#[test]
fn indent_then_unindent() {
    let mut app = project_with(vec![task(1, "A", 1, vec![], None), task(2, "B", 1, vec![], None)]);
    app.selected_task = Some(1);
    assert!(matches!(normal(&mut app, press('>')), Effect::Nothing));
    assert_eq!(app.all_projects.projects[0].tasks[1].parent_id, Some(1));
    assert!(matches!(normal(&mut app, press('<')), Effect::Nothing));
    assert_eq!(app.all_projects.projects[0].tasks[1].parent_id, None);
}

#[test]
fn deleting_the_last_task_moves_focus_to_the_project() {
    let mut app = project_with(vec![task(1, "A", 1, vec![], None)]);
    assert!(matches!(normal(&mut app, press('D')), Effect::Nothing));
    assert!(app.all_projects.projects[0].tasks.is_empty());
    assert_eq!(app.selected_task, None);
    assert!(app.focus_area == FocusArea::Project(ProjectField::DayOffset));
}

#[test]
fn navigating_up_from_the_first_task() {
    let mut app = started();
    assert!(matches!(normal(&mut app, press('k')), Effect::Nothing));
    assert!(app.focus_area == FocusArea::Project(ProjectField::DayOffset));
    assert_eq!(app.selected_task, None);
    assert!(matches!(normal(&mut app, press('j')), Effect::Nothing));
    assert!(app.focus_area == FocusArea::Tasks);
    assert_eq!(app.selected_task, Some(0));
    assert!(matches!(normal(&mut app, press('G')), Effect::Nothing));
    assert_eq!(app.selected_task, Some(1));
    assert!(matches!(normal(&mut app, press('g')), Effect::Nothing));
    assert_eq!(app.selected_task, Some(0));
}

#[test]
fn down_with_a_selection_in_an_empty_table_fails() {
    let mut app = project_with(vec![]);
    app.focus_area = FocusArea::Tasks;
    app.selected_task = Some(0);
    assert!(matches!(normal(&mut app, press('j')), Effect::Fail));
}

#[test]
fn fields_skip_hidden_columns() {
    let mut app = started();
    app.all_projects.column_visibility.assigned_to = false;
    app.all_projects.column_visibility.start_date = false;
    assert!(matches!(normal(&mut app, press('l')), Effect::Nothing));
    assert!(app.selected_task_field == TaskField::EndDate);
    assert!(matches!(normal(&mut app, press('h')), Effect::Nothing));
    assert!(app.selected_task_field == TaskField::Name);
    assert!(matches!(normal(&mut app, press('h')), Effect::Nothing));
    assert!(app.selected_task_field == TaskField::Dependencies);
}

#[test]
fn tab_then_backtab_from_the_topic() {
    let mut app = started();
    app.focus_area = FocusArea::NtfyTopic;
    assert!(matches!(normal(&mut app, key(Key::Tab)), Effect::Nothing));
    assert!(app.focus_area == FocusArea::Project(ProjectField::Name));
    assert!(matches!(normal(&mut app, key(Key::BackTab)), Effect::Nothing));
    assert!(app.focus_area == FocusArea::NtfyTopic);
}

#[test]
fn quitting_with_unsaved_changes_asks_twice() {
    let mut app = started();
    app.is_dirty = true;
    normal(&mut app, press('q'));
    assert!(app.quit_pending && !app.should_quit);
    assert_eq!(app.status_message, "Unsaved changes! Press 'q' again to discard changes, or Ctrl+s to save.");
    normal(&mut app, press('q'));
    assert!(app.should_quit);
}

#[test]
fn other_key_cancels_a_pending_quit() {
    let mut app = started();
    app.is_dirty = true;
    normal(&mut app, press('q'));
    normal(&mut app, press('O'));
    assert!(!app.quit_pending);
    assert_eq!(app.status_message, "Quit cancelled.");
    assert!(app.highlight_mode == HighlightMode::Urgent);
}

#[test]
fn saving_checks_the_file_first() {
    let mut app = started();
    assert!(matches!(normal(&mut app, ctrl('s')), Effect::CheckFile));
    assert!(matches!(app.save_checked(true), Effect::Nothing));
    assert!(app.overwrite_pending);
    assert!(matches!(normal(&mut app, ctrl('s')), Effect::Save));
    assert!(app.after_save == AfterSave::Report);
    assert!(app.finish_save(true, "", day(AUG_1_2024)));
    assert_eq!(app.status_message, "All projects saved successfully to projects.json!");
    assert!(!app.is_dirty);
    assert!(app.after_save == AfterSave::Nothing);
}

#[test]
fn failed_save_is_reported() {
    let mut app = started();
    assert!(matches!(app.save_checked(false), Effect::Save));
    assert!(app.finish_save(false, "disk full", day(AUG_1_2024)));
    assert_eq!(app.status_message, "Failed to save projects.");
}

#[test]
fn new_project_after_save() {
    let mut app = started();
    app.focus_area = FocusArea::Tasks;
    assert!(matches!(normal(&mut app, press('C')), Effect::Save));
    assert!(app.finish_save(true, "", day(AUG_1_2024 + 10)));
    assert_eq!(app.all_projects.projects.len(), 2);
    assert_eq!(app.current_project_index, 1);
    assert_eq!(app.all_projects.projects[1].project_name, "New Project 2");
    assert_eq!(app.all_projects.projects[1].project_start_date.day(), AUG_1_2024 + 10);
    assert_eq!(app.status_message, "New project 'New Project 2' created.");
    assert!(app.focus_area == FocusArea::Project(ProjectField::Name));
}

#[test]
fn next_and_previous_project_after_save() {
    let mut app = started();
    normal(&mut app, press('C'));
    app.finish_save(true, "", day(AUG_1_2024));
    assert!(matches!(normal(&mut app, press('N')), Effect::Save));
    assert!(app.finish_save(false, "x", day(AUG_1_2024)));
    assert_eq!(app.current_project_index, 0);
    assert_eq!(app.status_message, "Switched to project: New Project");
    assert!(matches!(normal(&mut app, press('P')), Effect::Save));
    assert!(app.finish_save(true, "", day(AUG_1_2024)));
    assert_eq!(app.current_project_index, 1);
}

#[test]
fn only_project_cannot_be_switched_or_deleted() {
    let mut app = started();
    assert!(matches!(normal(&mut app, press('N')), Effect::Nothing));
    assert_eq!(app.status_message, "No other projects to switch to.");
    normal(&mut app, ctrl('d'));
    assert!(app.confirm_delete_project);
    assert_eq!(app.status_message, "Delete project 'New Project'? Press Ctrl+d again to confirm.");
    normal(&mut app, ctrl('d'));
    assert_eq!(app.status_message, "Cannot delete the only project.");
}

#[test]
fn delete_then_restore_a_project() {
    let mut app = started();
    normal(&mut app, press('C'));
    app.finish_save(true, "", day(AUG_1_2024));
    normal(&mut app, ctrl('d'));
    assert!(matches!(normal(&mut app, ctrl('d')), Effect::Nothing));
    assert_eq!(app.all_projects.projects.len(), 1);
    assert_eq!(app.status_message, "Deleted project 'New Project 2'. Press Ctrl+u to restore.");
    assert!(matches!(normal(&mut app, ctrl('u')), Effect::Nothing));
    assert_eq!(app.all_projects.projects.len(), 2);
    assert_eq!(app.current_project_index, 1);
    assert_eq!(app.status_message, "Restored project 'New Project 2'.");
}

#[test]
fn other_key_cancels_a_pending_delete() {
    let mut app = started();
    normal(&mut app, ctrl('d'));
    normal(&mut app, press('O'));
    assert!(!app.confirm_delete_project);
    assert_eq!(app.status_message, "Delete cancelled.");
}

#[test]
fn archiving_moves_on_and_hides_the_project() {
    let mut app = started();
    normal(&mut app, press('C'));
    app.finish_save(true, "", day(AUG_1_2024));
    assert_eq!(app.current_project_index, 1);
    assert!(matches!(normal(&mut app, press('X')), Effect::Nothing));
    assert!(app.all_projects.projects[1].archived);
    assert_eq!(app.current_project_index, 0);
    assert_eq!(app.status_message, "Archived project 'New Project 2'.");
    assert!(matches!(normal(&mut app, press('N')), Effect::Nothing));
    assert_eq!(app.status_message, "No other projects to switch to.");
    normal(&mut app, ctrl('b'));
    assert!(app.show_archived);
    assert_eq!(app.status_message, "Archived projects shown.");
    assert!(matches!(normal(&mut app, press('N')), Effect::Save));
}

#[test]
fn archiving_the_last_open_project_shows_archived_ones() {
    let mut app = started();
    normal(&mut app, press('X'));
    assert!(app.all_projects.projects[0].archived);
    assert!(app.show_archived);
    normal(&mut app, press('X'));
    assert!(!app.all_projects.projects[0].archived);
    assert_eq!(app.status_message, "Unarchived project 'New Project'.");
}

#[test]
fn todo_from_task_and_completion_note() {
    let mut app = started();
    assert!(matches!(normal(&mut app, press('+')), Effect::Nothing));
    assert_eq!(app.status_message, "Task 'Requirement Gathering' added to todo list.");
    normal(&mut app, press('+'));
    assert_eq!(app.status_message, "Task 'Requirement Gathering' is already in the todo list.");
    assert_eq!(app.all_projects.todo_list.len(), 1);
    assert!(matches!(normal(&mut app, press('T')), Effect::Nothing));
    assert!(app.focus_area == FocusArea::TodoList);
    assert_eq!(app.selected_todo, Some(0));
    app.all_projects.todo_list[0].description = String::from("met client");
    assert!(matches!(normal(&mut app, press(' ')), Effect::Nothing));
    assert!(app.all_projects.todo_list[0].completed);
    assert_eq!(app.all_projects.projects[0].tasks[0].details.as_deref(), Some("08/04/24: met client"));
    assert!(app.focus_area == FocusArea::Tasks);
    assert!(app.selected_task_field == TaskField::Progress);
    assert!(app.input_mode == InputMode::Editing);
    assert_eq!(app.input_buffer, "100");
}

#[test]
fn completing_an_unlinked_todo() {
    let mut app = started();
    app.all_projects.todo_list.push(TodoItem { text: "Buy milk".into(), completed: false, description: String::new(), subtasks: vec![] });
    normal(&mut app, press('T'));
    normal(&mut app, press(' '));
    assert_eq!(app.status_message, "'Buy milk' marked done.");
    normal(&mut app, press('C'));
    assert!(app.all_projects.todo_list.is_empty());
    assert_eq!(app.status_message, "Cleared all completed todo items.");
}

#[test]
fn new_todo_named_or_dropped() {
    let mut app = started();
    normal(&mut app, press('T'));
    normal(&mut app, press('a'));
    assert!(app.editing_todo_name && app.input_mode == InputMode::Editing);
    type_text(&mut app, "Call Bob");
    editing(&mut app, key(Key::Enter));
    assert_eq!(app.all_projects.todo_list[0].text, "Call Bob");
    normal(&mut app, press('a'));
    editing(&mut app, key(Key::Esc));
    assert_eq!(app.all_projects.todo_list.len(), 1);
    assert_eq!(app.selected_todo, Some(0));
}

#[test]
fn todo_steps_can_be_added_moved_and_removed() {
    let mut app = started();
    app.all_projects.todo_list.push(TodoItem { text: "Trip".into(), completed: false, description: String::new(), subtasks: vec![] });
    normal(&mut app, press('T'));
    normal(&mut app, press('i'));
    assert_eq!(app.selected_subtask, Some(0));
    assert!(app.input_mode == InputMode::Editing);
    type_text(&mut app, "Book train");
    editing(&mut app, key(Key::Enter));
    normal(&mut app, press('a'));
    type_text(&mut app, "Pack");
    editing(&mut app, key(Key::Enter));
    let steps: Vec<String> = app.all_projects.todo_list[0].subtasks.iter().map(|s| s.text.clone()).collect();
    assert_eq!(steps, vec!["Book train", "Pack"]);
    assert_eq!(app.selected_subtask, Some(1));
    normal(&mut app, press('k'));
    assert_eq!(app.selected_subtask, Some(0));
    normal(&mut app, press(' '));
    assert!(app.all_projects.todo_list[0].subtasks[0].completed);
    normal(&mut app, press('-'));
    assert_eq!(app.status_message, "Subtask 'Book train' removed.");
    assert_eq!(app.all_projects.todo_list[0].subtasks.len(), 1);
    normal(&mut app, press('h'));
    assert_eq!(app.selected_subtask, None);
    normal(&mut app, press('l'));
    assert_eq!(app.selected_subtask, Some(0));
}

#[test]
fn empty_step_dropped_on_escape() {
    let mut app = started();
    app.all_projects.todo_list.push(TodoItem {
        text: "Trip".into(),
        completed: false,
        description: String::new(),
        subtasks: vec![TodoSubtask { text: "Pack".into(), completed: false }],
    });
    normal(&mut app, press('T'));
    normal(&mut app, press('i'));
    assert_eq!(app.all_projects.todo_list[0].subtasks.len(), 2);
    editing(&mut app, key(Key::Esc));
    assert_eq!(app.all_projects.todo_list[0].subtasks.len(), 1);
    assert_eq!(app.selected_subtask, Some(0));
}

#[test]
fn todo_entries_move_up_and_down() {
    let mut app = started();
    for t in ["A", "B"] {
        app.all_projects.todo_list.push(TodoItem { text: t.into(), completed: false, description: String::new(), subtasks: vec![] });
    }
    normal(&mut app, press('T'));
    normal(&mut app, press('J'));
    assert_eq!(app.all_projects.todo_list[1].text, "A");
    assert_eq!(app.selected_todo, Some(1));
    normal(&mut app, press('K'));
    assert_eq!(app.all_projects.todo_list[0].text, "A");
    normal(&mut app, key(Key::Esc));
    assert!(!app.todo_list_open);
    assert!(app.focus_area == FocusArea::Tasks);
}

#[test]
fn column_settings_popup() {
    let mut app = started();
    normal(&mut app, press('\\'));
    assert!(app.column_config_open);
    normal(&mut app, press('j'));
    normal(&mut app, key(Key::Enter));
    assert!(!app.all_projects.column_visibility.start_date);
    normal(&mut app, key(Key::Esc));
    assert!(!app.column_config_open);
}

#[test]
fn help_screen_takes_the_keys() {
    let mut app = started();
    normal(&mut app, press('?'));
    assert!(app.help_open);
    normal(&mut app, press('D'));
    assert_eq!(app.all_projects.projects[0].tasks.len(), 2);
    normal(&mut app, key(Key::Esc));
    assert!(!app.help_open);
}

#[test]
fn calendar_keys_move_the_offset() {
    let mut app = started();
    normal(&mut app, press('t'));
    assert_eq!(app.all_projects.projects[0].day_offset, 3);
    assert_eq!(app.status_message, "Jumped to today's date.");
    normal(&mut app, press('H'));
    assert_eq!(app.all_projects.projects[0].day_offset, 2);
    normal(&mut app, press('L'));
    normal(&mut app, press('L'));
    assert_eq!(app.all_projects.projects[0].day_offset, 4);
    app.all_projects.projects[0].day_offset = i64::MIN;
    assert!(matches!(normal(&mut app, press('H')), Effect::Fail));
}

#[test]
fn compact_timeline_toggle() {
    let mut app = started();
    normal(&mut app, press('Z'));
    assert!(app.all_projects.compact_timeline);
    assert_eq!(app.status_message, "Compact timeline (1 char/day). Press Z to switch back.");
}

#[test]
fn push_request_for_the_topic() {
    let mut app = started();
    assert!(matches!(normal(&mut app, ctrl('f')), Effect::Nothing));
    assert_eq!(app.status_message, "Todo list is empty!");
    app.all_projects.todo_list.push(TodoItem { text: "A".into(), completed: false, description: String::new(), subtasks: vec![] });
    match normal(&mut app, ctrl('f')) {
        Effect::Push(r) => {
            assert_eq!(r.url, "https://ntfy.sh/gantt-cli-123456");
            assert_eq!(r.topic, "gantt-cli-123456");
            assert_eq!(r.title, "Gantt-CLI Todo List");
            assert_eq!(r.markdown, "yes");
            assert_eq!(r.tags, "clipboard,calendar");
            assert_eq!(app.status_message, "Pushing to phone...");
            app.finish_push(&r.topic, None);
            assert_eq!(app.status_message, "Todo list pushed to ntfy.sh/gantt-cli-123456");
            app.finish_push(&r.topic, Some(String::from("timeout")));
            assert_eq!(app.status_message, "Failed to push: timeout");
        },
        _ => panic!("expected a push request"),
    }
}

#[test]
fn loading_data_checks_the_active_index() {
    let mut app = App::initial(String::from("f.json"), day(AUG_1_2024));
    let mut data = started().all_projects;
    data.active_project_index = 3;
    assert!(!app.load_data(data));
    let mut app = App::initial(String::from("f.json"), day(AUG_1_2024));
    let data = started().all_projects;
    assert!(app.load_data(data));
    assert_eq!(app.status_message, "Projects loaded successfully from f.json.");
}

#[test]
fn startup_save_messages() {
    let mut app = App::initial(String::from("/data/p.json"), day(AUG_1_2024));
    app.add_default_project();
    app.begin_save(AfterSave::Startup);
    app.finish_save(true, "", day(AUG_1_2024));
    assert_eq!(app.status_message, "Welcome! New database created at /data/p.json.");
    app.begin_save(AfterSave::Startup);
    app.finish_save(false, "permission denied", day(AUG_1_2024));
    assert_eq!(app.status_message, "Failed to create data file at /data/p.json: permission denied");
}

#[test]
fn project_name_edit() {
    let mut app = started();
    app.focus_area = FocusArea::Project(ProjectField::Name);
    normal(&mut app, key(Key::Enter));
    assert_eq!(app.input_buffer, "New Project");
    normal_ctrl_w(&mut app);
    type_text(&mut app, "Launch");
    editing(&mut app, key(Key::Enter));
    assert_eq!(app.all_projects.projects[0].project_name, "Launch");
    let _ = ProjectData { project_name: String::new(), project_start_date: day(1), project_end_date: None, day_offset: 0, tasks: vec![], archived: false };
}

fn normal_ctrl_w(app: &mut App) {
    assert!(matches!(editing(app, ctrl('w')), Effect::Nothing));
    assert_eq!(app.input_buffer, "New ");
    assert!(matches!(editing(app, ctrl('w')), Effect::Nothing));
    assert_eq!(app.input_buffer, "");
}

#[test]
fn today_in_any_case_names_the_given_date() {
    let mut app = started();
    app.focus_area = FocusArea::Project(ProjectField::StartDate);
    assert!(matches!(normal(&mut app, key(Key::Enter)), Effect::Nothing));
    clear_buffer(&mut app);
    type_text(&mut app, "ToDaY");
    assert!(app.save_buffer_with_today(day(AUG_1_2024 + 10)));
    assert_eq!(app.all_projects.projects[0].project_start_date.day(), AUG_1_2024 + 10);
}

#[test]
fn wide_characters_widen_the_name_column() {
    let app = project_with(vec![task(1, "日本語", 2, vec![], None)]);
    let widths = app.calculate_column_widths().unwrap();
    assert_eq!(widths[1], 20);
}

#[test]
fn bar_cells_of_a_task() {
    let (start, end, done, today) = (day(10), day(14), day(11), day(12));
    assert_eq!(bar_cell(&day(9), &start, &end, &done, false, &today, false), "   ");
    assert_eq!(bar_cell(&day(10), &start, &end, &done, false, &today, false), "\u{2591}\u{2591}\u{2591}");
    assert_eq!(bar_cell(&day(12), &start, &end, &done, false, &today, false), "|\u{2588}\u{2588}");
    assert_eq!(bar_cell(&day(13), &start, &end, &done, false, &today, false), "\u{2588}\u{2588}\u{2588}");
    assert_eq!(bar_cell(&day(10), &start, &end, &done, true, &today, false), "[==");
    assert_eq!(bar_cell(&day(12), &start, &end, &done, true, &today, false), "===");
    assert_eq!(bar_cell(&day(14), &start, &end, &done, true, &today, false), "==]");
    assert_eq!(bar_cell(&day(12), &day(20), &day(22), &day(19), false, &today, false), "|  ");
    assert_eq!(bar_cell(&day(10), &start, &end, &done, true, &today, true), "[");
    assert_eq!(bar_cell(&day(12), &start, &end, &done, false, &today, true), "|");
    assert_eq!(bar_cell(&day(11), &start, &end, &done, false, &today, true), "\u{2591}");
    assert_eq!(bar_cell(&day(15), &start, &end, &done, false, &today, true), " ");
}

#[test]
fn parents_are_the_tasks_that_others_name() {
    let tasks = vec![task(1, "P", 1, vec![], None), task(2, "C", 1, vec![], Some(1))];
    assert!(is_parent(&tasks, 1));
    assert!(!is_parent(&tasks, 2));
    assert!(!is_parent(&tasks, 7));
}

#[test]
fn todo_entries_after_the_first_three_wait() {
    let entry = |t: &str, done: bool| TodoItem { text: t.into(), completed: done, description: String::new(), subtasks: vec![] };
    let mut todos = vec![entry("a", true), entry("b", false), entry("c", true), entry("d", false), entry("e", true)];
    assert!(entry_emphasis(&todos, 0) == Emphasis::Completed);
    assert!(entry_emphasis(&todos, 1) == Emphasis::Top);
    assert!(entry_emphasis(&todos, 3) == Emphasis::Dimmed);
    assert!(entry_emphasis(&todos, 4) == Emphasis::Completed);
    todos[1].completed = true;
    assert!(entry_emphasis(&todos, 3) == Emphasis::Open);
}

#[test]
fn dependent_starts_after_the_latest_dependency() {
    let tasks = vec![
        task(1, "A", 3, vec![], None),
        task(2, "B", 5, vec![], None),
        task(3, "C", 1, vec![1, 2], None),
    ];
    let out = schedule_tasks(&tasks, day(AUG_1_2024)).unwrap();
    assert_eq!(mdy(&out[1].end_date), "08/05/24");
    assert_eq!(mdy(&out[2].start_date), "08/06/24");
}

#[test]
fn dependent_of_a_parent_starts_after_the_parent_spans_its_children() {
    let tasks = vec![
        task(1, "P", 1, vec![], None),
        task(2, "Child", 3, vec![], Some(1)),
        task(3, "After P", 1, vec![1], None),
    ];
    let out = schedule_tasks(&tasks, day(AUG_1_2024)).unwrap();
    assert_eq!(mdy(&out[0].start_date), "08/01/24");
    assert_eq!(mdy(&out[0].end_date), "08/03/24");
    assert_eq!(out[0].duration, 3);
    assert_eq!(mdy(&out[2].start_date), "08/04/24");
    assert_eq!(mdy(&out[2].end_date), "08/04/24");
}

#[test]
fn progress_above_a_hundred_is_clamped_when_saved() {
    let mut app = started();
    app.all_projects.projects[0].tasks[0].progress = 40;
    app.selected_task_field = TaskField::Progress;
    assert!(matches!(normal(&mut app, key(Key::Enter)), Effect::Nothing));
    clear_buffer(&mut app);
    type_text(&mut app, "300");
    assert!(matches!(editing(&mut app, key(Key::Enter)), Effect::Nothing));
    assert_eq!(app.all_projects.projects[0].tasks[0].progress, 100);
}

#[test]
fn tab_cycles_through_the_topic_with_the_todo_list_closed() {
    let mut app = started();
    assert!(app.focus_area == FocusArea::Tasks);
    assert!(matches!(normal(&mut app, key(Key::Tab)), Effect::Nothing));
    assert!(app.focus_area == FocusArea::NtfyTopic);
    assert!(matches!(normal(&mut app, key(Key::Tab)), Effect::Nothing));
    assert!(app.focus_area == FocusArea::Project(ProjectField::Name));
    assert!(matches!(normal(&mut app, key(Key::Tab)), Effect::Nothing));
    assert!(app.focus_area == FocusArea::Tasks);
    assert!(matches!(normal(&mut app, key(Key::BackTab)), Effect::Nothing));
    assert!(app.focus_area == FocusArea::Project(ProjectField::Name));
}

#[test]
fn undo_brings_back_a_deleted_project() {
    let mut app = started();
    normal(&mut app, press('C'));
    app.finish_save(true, "", day(AUG_1_2024));
    normal(&mut app, ctrl('d'));
    assert!(matches!(normal(&mut app, ctrl('d')), Effect::Nothing));
    assert_eq!(app.all_projects.projects.len(), 1);
    assert!(!app.confirm_delete_project);
    assert!(matches!(normal(&mut app, press('u')), Effect::Nothing));
    assert_eq!(app.status_message, "Undo successful.");
    assert_eq!(app.all_projects.projects.len(), 2);
    assert_eq!(app.all_projects.projects[1].project_name, "New Project 2");
    assert_eq!(app.current_project_index, 1);
}

#[test]
fn parent_spans_its_dated_children_when_one_cannot_be_dated() {
    let tasks = vec![
        task(1, "P", 1, vec![], None),
        task(2, "C1", 2, vec![], Some(1)),
        task(3, "C2", 1, vec![4], Some(1)),
        task(4, "Loop A", 1, vec![5], None),
        task(5, "Loop B", 1, vec![4], None),
    ];
    let out = schedule_tasks(&tasks, day(AUG_1_2024)).unwrap();
    assert!(out[2].start_date.is_none());
    assert_eq!(mdy(&out[0].start_date), "08/01/24");
    assert_eq!(mdy(&out[0].end_date), "08/02/24");
    assert_eq!(out[0].duration, 2);
}

#[test]
fn rows_named_by_any_todo_entry_are_highlighted() {
    let todos = vec![
        TodoItem { text: "Review".into(), completed: false, description: String::new(), subtasks: vec![] },
        TodoItem { text: "Ship".into(), completed: true, description: String::new(), subtasks: vec![] },
    ];
    assert!(todo_highlighted(&task(1, "Ship", 1, vec![], None), &todos));
    assert!(todo_highlighted(&task(2, "Review", 1, vec![], None), &todos));
    assert!(!todo_highlighted(&task(3, "Plan", 1, vec![], None), &todos));
}

#[test]
fn header_marks_today_then_the_deadline() {
    let today = day(AUG_1_2024 + 2);
    let deadline = Some(day(AUG_1_2024 + 5));
    assert!(header_mark(&day(AUG_1_2024 + 2), &today, &deadline) == HeaderMark::Today);
    assert!(header_mark(&day(AUG_1_2024 + 5), &today, &deadline) == HeaderMark::Deadline);
    assert!(header_mark(&day(AUG_1_2024 + 3), &today, &deadline) == HeaderMark::Plain);
    assert!(header_mark(&today, &today, &Some(today)) == HeaderMark::Today);
}

#[test]
fn timeline_shows_one_day_per_three_columns() {
    let days = timeline_days(&day(AUG_1_2024), 10, false).unwrap();
    assert_eq!(days.len(), 4);
    assert_eq!(days[3].day(), AUG_1_2024 + 3);
    let compact = timeline_days(&day(AUG_1_2024), 10, true).unwrap();
    assert_eq!(compact.len(), 11);
    assert!(timeline_days(&day(95745399), 3, false).is_none());
}

#[test]
fn undo_takes_back_a_new_project() {
    let mut app = started();
    normal(&mut app, press('C'));
    app.finish_save(true, "", day(AUG_1_2024));
    assert_eq!(app.all_projects.projects.len(), 2);
    assert!(matches!(normal(&mut app, press('u')), Effect::Nothing));
    assert_eq!(app.status_message, "Undo successful.");
    assert_eq!(app.all_projects.projects.len(), 1);
    assert_eq!(app.current_project_index, 0);
}

#[test]
fn undo_takes_back_moving_a_project() {
    let mut app = started();
    normal(&mut app, press('C'));
    app.finish_save(true, "", day(AUG_1_2024));
    assert!(matches!(normal(&mut app, ctrl('p')), Effect::Nothing));
    assert_eq!(app.all_projects.projects[0].project_name, "New Project 2");
    assert_eq!(app.current_project_index, 0);
    assert!(matches!(normal(&mut app, press('u')), Effect::Nothing));
    assert_eq!(app.all_projects.projects[0].project_name, "New Project");
    assert_eq!(app.all_projects.projects[1].project_name, "New Project 2");
    assert_eq!(app.current_project_index, 1);
}

#[test]
fn undo_takes_back_archiving() {
    let mut app = started();
    normal(&mut app, press('C'));
    app.finish_save(true, "", day(AUG_1_2024));
    normal(&mut app, press('X'));
    assert!(app.all_projects.projects[1].archived);
    assert_eq!(app.current_project_index, 0);
    assert!(matches!(normal(&mut app, press('u')), Effect::Nothing));
    assert!(!app.all_projects.projects[1].archived);
    assert_eq!(app.current_project_index, 1);
}

#[test]
fn undo_takes_back_restoring_a_project() {
    let mut app = started();
    normal(&mut app, press('C'));
    app.finish_save(true, "", day(AUG_1_2024));
    normal(&mut app, ctrl('d'));
    normal(&mut app, ctrl('d'));
    assert!(matches!(normal(&mut app, ctrl('u')), Effect::Nothing));
    assert_eq!(app.all_projects.projects.len(), 2);
    assert!(matches!(normal(&mut app, press('u')), Effect::Nothing));
    assert_eq!(app.all_projects.projects.len(), 1);
    assert_eq!(app.current_project_index, 0);
}

#[test]
fn dependency_listed_later_is_dated_in_a_later_round() {
    let tasks = vec![
        task(1, "After", 2, vec![3], None),
        task(2, "Middle", 1, vec![1], None),
        task(3, "First", 3, vec![], None),
    ];
    let out = schedule_tasks(&tasks, day(AUG_1_2024)).unwrap();
    assert_eq!(mdy(&out[2].start_date), "08/01/24");
    assert_eq!(mdy(&out[2].end_date), "08/03/24");
    assert_eq!(mdy(&out[0].start_date), "08/04/24");
    assert_eq!(mdy(&out[0].end_date), "08/05/24");
    assert_eq!(mdy(&out[1].start_date), "08/06/24");
    assert_eq!(mdy(&out[1].end_date), "08/06/24");
}

#[test]
fn task_depending_on_a_parent_waits_for_its_children() {
    let tasks = vec![
        task(1, "Next", 1, vec![2], None),
        task(2, "Phase", 1, vec![], None),
        task(3, "Step", 4, vec![], Some(2)),
    ];
    let out = schedule_tasks(&tasks, day(AUG_1_2024)).unwrap();
    assert_eq!(mdy(&out[1].start_date), "08/01/24");
    assert_eq!(mdy(&out[1].end_date), "08/04/24");
    assert_eq!(mdy(&out[0].start_date), "08/05/24");
}

#[test]
fn undo_takes_back_completing_a_todo() {
    let mut app = started();
    normal(&mut app, press('T'));
    normal(&mut app, press('a'));
    type_text(&mut app, "Call Bob");
    editing(&mut app, key(Key::Enter));
    assert_eq!(app.all_projects.todo_list.len(), 1);
    assert!(!app.all_projects.todo_list[0].completed);
    normal(&mut app, press(' '));
    assert!(app.all_projects.todo_list[0].completed);
    assert!(matches!(normal(&mut app, press('u')), Effect::Nothing));
    assert_eq!(app.all_projects.todo_list.len(), 1);
    assert_eq!(app.all_projects.todo_list[0].text, "Call Bob");
    assert!(!app.all_projects.todo_list[0].completed);
}

#[test]
fn next_then_previous_skips_an_archived_project() {
    let mut app = started();
    normal(&mut app, press('C'));
    app.finish_save(true, "", day(AUG_1_2024));
    normal(&mut app, press('C'));
    app.finish_save(true, "", day(AUG_1_2024));
    assert_eq!(app.all_projects.projects.len(), 3);
    app.all_projects.projects[1].archived = true;
    app.current_project_index = 0;
    assert!(matches!(normal(&mut app, press('N')), Effect::Save));
    assert!(app.finish_save(true, "", day(AUG_1_2024)));
    assert_eq!(app.current_project_index, 2);
    assert!(matches!(normal(&mut app, press('P')), Effect::Save));
    assert!(app.finish_save(true, "", day(AUG_1_2024)));
    assert_eq!(app.current_project_index, 0);
}
