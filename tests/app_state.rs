use clickup_tui::app::{
    snooze_deadline, App, FocusedPane, InputMode, EARLIEST_TIME_MS, LATEST_TIME_MS, MS_PER_DAY,
};
use clickup_tui::models::{Task, TaskGroup};

fn task(id: &str, status: &str) -> Task {
    Task {
        id: id.to_string(),
        name: format!("Task {}", id),
        status: status.to_string(),
        list_name: "List".to_string(),
        due_date: None,
        priority: None,
        url: format!("https://example.com/{}", id),
        tags: vec![],
        description: None,
        custom_item_id: None,
        custom_id: None,
        parent_id: None,
        assignee_ids: vec![7],
    }
}

#[test]
fn new_app_starts_on_first_tab() {
    let app = App::new();
    assert_eq!(app.current_group, TaskGroup::MyAction);
    assert_eq!(app.input_mode, InputMode::Normal);
    assert_eq!(app.focused_pane, FocusedPane::TaskList);
    assert!(app.tasks.is_empty());
}

#[test]
fn user_id_is_parsed_or_cleared() {
    let mut app = App::new();
    app.set_user_id("42");
    assert_eq!(app.user_id, Some(42));
    app.set_user_id("+7");
    assert_eq!(app.user_id, Some(7));
    app.set_user_id("abc");
    assert_eq!(app.user_id, None);
    app.set_user_id("18446744073709551616");
    assert_eq!(app.user_id, None);
    app.set_user_id("18446744073709551615");
    assert_eq!(app.user_id, Some(u64::MAX));
}

#[test]
fn tabs_wrap_around() {
    let mut app = App::new();
    app.prev_tab();
    assert_eq!(app.current_group, TaskGroup::Person);
    app.next_tab();
    assert_eq!(app.current_group, TaskGroup::MyAction);
    app.selected_index = 3;
    app.next_tab();
    assert_eq!(app.current_group, TaskGroup::Waiting);
    assert_eq!(app.selected_index, 0);
}

#[test]
fn panes_and_scrolling() {
    let mut app = App::new();
    app.focus_next_pane();
    assert_eq!(app.focused_pane, FocusedPane::Preview);
    app.focus_prev_pane();
    assert_eq!(app.focused_pane, FocusedPane::TaskList);
    app.scroll_preview_up();
    assert_eq!(app.preview_scroll, 0);
    app.scroll_preview_down();
    app.scroll_preview_down();
    assert_eq!(app.preview_scroll, 2);
    app.reset_preview_scroll();
    assert_eq!(app.preview_scroll, 0);
}

#[test]
fn typing_goes_to_the_active_input() {
    let mut app = App::new();
    app.handle_char('x');
    assert!(app.search_query.is_empty());
    app.start_search();
    app.handle_char('a');
    app.handle_char('b');
    assert_eq!(app.search_query, "ab");
    app.handle_backspace();
    assert_eq!(app.search_query, "a");
    app.cancel_input();
    assert_eq!(app.input_mode, InputMode::Normal);
    assert!(app.search_query.is_empty());
    app.input_mode = InputMode::Snooze;
    app.handle_char('3');
    app.handle_char('x');
    app.handle_char('1');
    assert_eq!(app.snooze_input, "31");
}

#[test]
fn selection_moves_within_the_list() {
    let mut app = App::new();
    app.set_tasks(vec![task("a", "to do"), task("b", "to do"), task("c", "done")]);
    assert!(app.local_state.last_refresh.is_some());
    assert_eq!(app.current_tasks().len(), 2);
    app.select_next();
    app.select_next();
    assert_eq!(app.selected_index, 1);
    assert_eq!(app.selected_task().unwrap().task.id, "b");
    app.select_prev();
    app.select_prev();
    assert_eq!(app.selected_index, 0);
    let counts = app.group_counts();
    assert_eq!(counts[0], (TaskGroup::MyAction, 2));
    assert_eq!(counts[3], (TaskGroup::Done, 1));
}

#[test]
fn pin_and_snooze_the_selected_task() {
    let mut app = App::new();
    app.set_tasks(vec![task("a", "to do")]);
    assert!(app.toggle_pin());
    assert!(app.local_state.is_pinned("a"));
    assert_eq!(app.status_message.as_deref(), Some("Task pinned"));
    assert!(app.toggle_pin());
    assert_eq!(app.status_message.as_deref(), Some("Task unpinned"));
    app.start_snooze();
    assert_eq!(app.input_mode, InputMode::Snooze);
    app.handle_char('3');
    assert!(app.confirm_snooze_at(1_000));
    assert_eq!(app.status_message.as_deref(), Some("Task snoozed for 3 days"));
    assert_eq!(app.input_mode, InputMode::Normal);
    assert_eq!(app.local_state.get_overlay("a").snoozed_until, Some(1_000 + 3 * MS_PER_DAY));
    app.current_group = TaskGroup::Snoozed;
    assert!(app.unsnooze_at(2_000));
    assert_eq!(app.local_state.get_overlay("a").snoozed_until, None);
    assert_eq!(app.status_message.as_deref(), Some("Task unsnoozed"));
}

#[test]
fn snooze_input_that_is_no_number_is_invalid() {
    let mut app = App::new();
    app.set_tasks(vec![task("a", "to do")]);
    app.input_mode = InputMode::Snooze;
    assert!(!app.confirm_snooze_at(0));
    assert_eq!(app.status_message.as_deref(), Some("Invalid number"));
    app.snooze_input = "99999999999999".to_string();
    assert!(!app.confirm_snooze_at(0));
    assert_eq!(app.status_message.as_deref(), Some("Invalid number"));
}

#[test]
fn nothing_selected_changes_nothing() {
    let mut app = App::new();
    assert!(!app.toggle_pin());
    assert!(!app.unsnooze());
    app.start_snooze();
    assert_eq!(app.input_mode, InputMode::Normal);
    assert!(app.selected_task().is_none());
}

#[test]
fn snooze_deadline_in_and_out_of_range() {
    assert_eq!(snooze_deadline(0, 2), Some(2 * 86_400_000));
    assert_eq!(snooze_deadline(0, -1), Some(-86_400_000));
    assert_eq!(snooze_deadline(i64::MAX, 1), None);
    assert_eq!(snooze_deadline(LATEST_TIME_MS, 0), Some(LATEST_TIME_MS));
    assert_eq!(snooze_deadline(LATEST_TIME_MS - MS_PER_DAY + 1, 1), None);
    assert_eq!(snooze_deadline(EARLIEST_TIME_MS + MS_PER_DAY, -1), Some(EARLIEST_TIME_MS));
    assert_eq!(snooze_deadline(EARLIEST_TIME_MS, -1), None);
}

#[test]
fn search_view_of_the_app() {
    let mut app = App::new();
    let mut t = task("a", "to do");
    t.name = "Task Create".to_string();
    app.set_tasks(vec![t, task("b", "done")]);
    assert!(app.search_all_tasks().is_empty());
    app.start_search();
    app.handle_char('t');
    app.handle_char('c');
    let r = app.search_all_tasks();
    assert_eq!(r.len(), 1);
    assert_eq!(app.selected_search_result().unwrap().task.id, "a");
    app.search_select_next();
    assert_eq!(app.search_selected_index, 0);
}

use clickup_tui::app::{Action, Key};

#[test]
fn keys_in_normal_mode() {
    let mut app = App::new();
    let mut t = task("a", "to do");
    t.url = "https://example.com/a".to_string();
    app.set_tasks(vec![t]);
    app.status_message = Some("old".to_string());
    assert_eq!(app.handle_key(Key::Char('r')), Action::Refresh);
    assert!(app.status_message.is_none());
    assert_eq!(app.handle_key(Key::Char('o')), Action::Open("https://example.com/a".to_string()));
    assert_eq!(app.handle_key(Key::Char('y')), Action::Copy("Task a".to_string()));
    assert_eq!(app.handle_key(Key::Char('p')), Action::Save);
    assert!(app.local_state.is_pinned("a"));
    assert_eq!(app.handle_key(Key::Char('4')), Action::Nothing);
    assert_eq!(app.current_group, TaskGroup::Done);
    assert_eq!(app.handle_key(Key::Char('o')), Action::Nothing);
    assert_eq!(app.handle_key(Key::Tab), Action::Nothing);
    assert_eq!(app.focused_pane, FocusedPane::Preview);
    app.handle_key(Key::Char('?'));
    assert_eq!(app.input_mode, InputMode::Help);
    app.handle_key(Key::Char('x'));
    assert_eq!(app.input_mode, InputMode::Help);
    app.handle_key(Key::Esc);
    assert_eq!(app.input_mode, InputMode::Normal);
    assert!(!app.show_help);
    app.handle_key(Key::Char('q'));
    assert!(app.should_quit);
}

#[test]
fn keys_in_search_and_snooze_modes() {
    let mut app = App::new();
    let mut t = task("a", "to do");
    t.name = "Task Create".to_string();
    t.url = "u".to_string();
    app.set_tasks(vec![t]);
    app.handle_key(Key::Char('/'));
    assert_eq!(app.input_mode, InputMode::Search);
    app.handle_key(Key::Char('t'));
    app.handle_key(Key::Char('c'));
    assert_eq!(app.search_query, "tc");
    app.handle_key(Key::Char('j'));
    assert_eq!(app.search_query, "tcj");
    app.handle_key(Key::Backspace);
    assert_eq!(app.handle_key(Key::Enter), Action::Open("u".to_string()));
    assert_eq!(app.input_mode, InputMode::Normal);
    // The query stays as the list's text filter until search is left.
    assert_eq!(app.search_query, "tc");
    assert!(app.current_tasks().is_empty());
    app.handle_key(Key::Char('/'));
    app.handle_key(Key::Esc);
    assert!(app.search_query.is_empty());
    app.handle_key(Key::Char('s'));
    assert_eq!(app.input_mode, InputMode::Snooze);
    app.handle_key(Key::Char('2'));
    assert_eq!(app.handle_key(Key::Enter), Action::Save);
    assert_eq!(app.status_message.as_deref(), Some("Task snoozed for 2 days"));
    assert_eq!(app.input_mode, InputMode::Normal);
}

#[test]
fn refresh_reports_its_outcome() {
    let mut app = App::new();
    app.begin_refresh(true);
    assert!(app.is_loading);
    assert!(app.status_message.is_none());
    assert!(!app.finish_refresh(Err("offline".to_string()), true));
    assert_eq!(app.status_message.as_deref(), Some("Failed to load: offline"));
    app.begin_refresh(false);
    assert!(app.is_loading);
    assert_eq!(app.status_message.as_deref(), Some("Refreshing..."));
    assert!(app.finish_refresh(Ok(vec![task("a", "to do"), task("b", "done")]), false));
    assert!(!app.is_loading);
    assert_eq!(app.status_message.as_deref(), Some("Loaded 2 tasks"));
    assert_eq!(app.tasks.len(), 2);
    app.begin_refresh(false);
    assert!(!app.finish_refresh(Err("timeout".to_string()), false));
    assert_eq!(app.status_message.as_deref(), Some("Failed: timeout"));
    assert_eq!(app.tasks.len(), 2);
}

#[test]
fn keys_move_and_switch() {
    let mut app = App::new();
    app.set_tasks(vec![task("a", "to do"), task("b", "to do")]);
    app.handle_key(Key::Char('j'));
    assert_eq!(app.selected_index, 1);
    app.handle_key(Key::Down);
    assert_eq!(app.selected_index, 1);
    app.handle_key(Key::Up);
    assert_eq!(app.selected_index, 0);
    app.handle_key(Key::Char('l'));
    assert_eq!(app.current_group, TaskGroup::Waiting);
    app.handle_key(Key::Char('h'));
    app.handle_key(Key::Char('h'));
    assert_eq!(app.current_group, TaskGroup::Person);
    app.handle_key(Key::Tab);
    app.handle_key(Key::Char('j'));
    assert_eq!(app.preview_scroll, 1);
    app.handle_key(Key::Char('k'));
    assert_eq!(app.preview_scroll, 0);
    app.handle_key(Key::Char('/'));
    assert_eq!(app.input_mode, InputMode::Search);
    app.handle_key(Key::Char('k'));
    assert!(app.search_query.is_empty());
    app.handle_key(Key::Char('x'));
    app.handle_key(Key::Char('k'));
    assert_eq!(app.search_query, "xk");
    app.handle_key(Key::Backspace);
    assert_eq!(app.search_query, "x");
    app.handle_key(Key::Esc);
    app.handle_key(Key::Char('1'));
    app.handle_key(Key::Char('s'));
    assert_eq!(app.input_mode, InputMode::Snooze);
    app.handle_key(Key::Char('4'));
    app.handle_key(Key::Char('2'));
    app.handle_key(Key::Backspace);
    assert_eq!(app.snooze_input, "4");
    app.handle_key(Key::Esc);
    assert_eq!(app.input_mode, InputMode::Normal);
    assert!(app.snooze_input.is_empty());
}
