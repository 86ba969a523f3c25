//! State of the dashboard and the rules of its key-driven actions.

use vstd::prelude::*;
use crate::models::{
    DisplayTask, LocalState, Task, TaskGroup, TaskOverlay, TaskView, group_at, group_index,
    now_millis, overlay_in,
};
use crate::order::{entry_views, in_family_order};
use crate::search::{MAX_QUERY_CHARS, in_rank_order, search, search_hits};
use crate::text::{
    append, clear_string, decimal_of, lower_of, nat_digits, parse_i64, parse_u64, pop_char,
    push_char, push_decimal, push_digits, i64_of, unsigned_text,
};
use crate::workset::{build_set, count_in, counts, task_seq, working_set};

verus! {

/// Milliseconds in a day.
pub const MS_PER_DAY: i64 = 86_400_000;

/// What typed keys go to.
#[derive(Debug, Clone, Copy, PartialEq, Eq, Structural)]
pub enum InputMode {
    Normal,
    Search,
    Snooze,
    Help,
}

impl Default for InputMode {
    fn default() -> (r: Self)
        ensures
            r == InputMode::Normal,
    {
        InputMode::Normal
    }
}

/// Which pane has the focus.
#[derive(Debug, Clone, Copy, PartialEq, Eq, Structural)]
pub enum FocusedPane {
    TaskList,
    Preview,
}

impl Default for FocusedPane {
    fn default() -> (r: Self)
        ensures
            r == FocusedPane::TaskList,
    {
        FocusedPane::TaskList
    }
}

/// A key press, as the dashboard reads it.
#[derive(Debug, Clone, Copy, PartialEq, Eq, Structural)]
pub enum Key {
    Char(char),
    Up,
    Down,
    Enter,
    Esc,
    Tab,
    BackTab,
    Backspace,
    Other,
}

/// Outside work that a key asks for.
#[derive(Debug, PartialEq, Eq)]
pub enum Action {
    /// Nothing to do.
    Nothing,
    /// Fetch the tasks again.
    Refresh,
    /// Keep the overlays.
    Save,
    /// Open the address in the browser.
    Open(String),
    /// Copy the text to the clipboard.
    Copy(String),
}

/// `app` with its status message cleared.
pub open spec fn unmarked(app: App) -> App {
    App { status_message: None, ..app }
}

/// The action asks to keep the overlays.
pub open spec fn saves(a: Action) -> bool {
    a == Action::Save
}

/// The category that a digit key selects.
pub open spec fn digit_group(c: char) -> Option<TaskGroup> {
    if '1' <= c && c <= '6' {
        group_at(c as int - '1' as int)
    } else {
        None
    }
}

/// Moving down: to the next task of the list shown, stopping at the last,
/// or the preview scrolls down when it has the focus.
pub open spec fn moved_down(old: App, new: App) -> bool {
    if old.focused_pane == FocusedPane::TaskList {
        exists|now: i64, out: Seq<(TaskView, TaskOverlay)>|
            #[trigger] shows(old, now, out) && new == (App {
                selected_index: if old.selected_index + 1 < out.len() {
                    (old.selected_index + 1) as usize
                } else {
                    old.selected_index
                },
                preview_scroll: 0,
                ..old
            })
    } else {
        new == (App {
            preview_scroll: if old.preview_scroll < u16::MAX {
                (old.preview_scroll + 1) as u16
            } else {
                u16::MAX
            },
            ..old
        })
    }
}

/// Moving up: to the previous task, stopping at the first, or the preview
/// scrolls up when it has the focus.
pub open spec fn moved_up(old: App, new: App) -> bool {
    if old.focused_pane == FocusedPane::TaskList {
        new == (App {
            selected_index: if old.selected_index > 0 {
                (old.selected_index - 1) as usize
            } else {
                0
            },
            preview_scroll: 0,
            ..old
        })
    } else {
        new == (App {
            preview_scroll: if old.preview_scroll > 0 {
                (old.preview_scroll - 1) as u16
            } else {
                0
            },
            ..old
        })
    }
}

/// The category shown moved `step` places on in tab order, first task selected.
pub open spec fn tab_moved(old: App, new: App, step: int) -> bool {
    &&& group_at((group_index(old.current_group) + step) % 6) == Some(new.current_group)
    &&& new == (App { current_group: new.current_group, selected_index: 0, ..old })
}

/// The selected task of the list shown is handed out: its address to open,
/// or its name to copy for `y`; nothing when no task is selected.
pub open spec fn handed_out(old: App, key: Key, r: Action) -> bool {
    exists|now: i64, out: Seq<(TaskView, TaskOverlay)>|
        #[trigger] shows(old, now, out) && if old.selected_index < out.len() {
            match r {
                Action::Open(u) => key != Key::Char('y') && u@ == out[old.selected_index as int].0.url,
                Action::Copy(n) => key == Key::Char('y') && n@ == out[old.selected_index as int].0.name,
                _ => false,
            }
        } else {
            r == Action::Nothing
        }
}

/// Input left: normal mode, both inputs cleared.
pub open spec fn input_left(old: App, new: App) -> bool {
    &&& new.search_query@.len() == 0
    &&& new.snooze_input@.len() == 0
    &&& new == (App {
        input_mode: InputMode::Normal,
        search_query: new.search_query,
        snooze_input: new.snooze_input,
        ..old
    })
}

/// A key in normal mode took `old` to `new`, asking for `r`.
pub open spec fn normal_key(old: App, key: Key, new: App, r: Action) -> bool {
    if key == Key::Char('q') {
        r == Action::Nothing && new == (App { should_quit: true, ..old })
    } else if key == Key::Char('j') || key == Key::Down {
        r == Action::Nothing && moved_down(old, new)
    } else if key == Key::Char('k') || key == Key::Up {
        r == Action::Nothing && moved_up(old, new)
    } else if key is Char && digit_group(key->Char_0) is Some {
        r == Action::Nothing && new == (App {
            current_group: digit_group(key->Char_0)->0,
            selected_index: 0,
            ..old
        })
    } else if key == Key::Tab || key == Key::BackTab {
        r == Action::Nothing && new == (App { focused_pane: other_pane(old.focused_pane), ..old })
    } else if key == Key::Char('l') {
        r == Action::Nothing && tab_moved(old, new, 1)
    } else if key == Key::Char('h') {
        r == Action::Nothing && tab_moved(old, new, 5)
    } else if key == Key::Char('p') {
        (r == Action::Save || r == Action::Nothing) && exists|now: i64|
            #[trigger] pin_toggled(old, now, new, saves(r))
    } else if key == Key::Char('s') {
        r == Action::Nothing && exists|now: i64| #[trigger] snooze_started(old, now, new)
    } else if key == Key::Char('S') {
        (r == Action::Save || r == Action::Nothing) && exists|now: i64|
            #[trigger] snooze_ended(old, now, new, saves(r))
    } else if key == Key::Char('o') || key == Key::Enter || key == Key::Char('y') {
        new == old && handed_out(old, key, r)
    } else if key == Key::Char('/') {
        &&& r == Action::Nothing
        &&& new.search_query@.len() == 0
        &&& new == (App {
            input_mode: InputMode::Search,
            search_query: new.search_query,
            search_selected_index: 0,
            ..old
        })
    } else if key == Key::Char('r') {
        r == Action::Refresh && new == old
    } else if key == Key::Char('?') {
        r == Action::Nothing && new == (App { show_help: true, input_mode: InputMode::Help, ..old })
    } else {
        r == Action::Nothing && new == old
    }
}

/// The search selection moved to the next result, stopping at the last.
pub open spec fn result_down(old: App, new: App) -> bool {
    exists|out: Seq<(TaskView, TaskOverlay)>|
        #[trigger] finds(old, out) && new == (App {
            search_selected_index: if old.search_selected_index + 1 < out.len() {
                (old.search_selected_index + 1) as usize
            } else {
                old.search_selected_index
            },
            ..old
        })
}

/// The search selection moved to the previous result, stopping at the first.
pub open spec fn result_up(old: App, new: App) -> bool {
    new == (App {
        search_selected_index: if old.search_selected_index > 0 {
            (old.search_selected_index - 1) as usize
        } else {
            0
        },
        ..old
    })
}

/// `c` was added to the search query, the first result selected.
pub open spec fn typed(old: App, c: char, new: App) -> bool {
    &&& new.search_query@ == old.search_query@.push(c)
    &&& new == (App { search_query: new.search_query, search_selected_index: 0, ..old })
}

/// A key in search mode took `old` to `new`, asking for `r`. `j` and `k`
/// move the selection while the query is empty, and are typed otherwise.
pub open spec fn search_key(old: App, key: Key, new: App, r: Action) -> bool {
    if key == Key::Esc {
        r == Action::Nothing && input_left(old, new)
    } else if key == Key::Enter {
        &&& new == (App { input_mode: InputMode::Normal, ..old })
        &&& exists|out: Seq<(TaskView, TaskOverlay)>|
            #[trigger] finds(old, out) && if old.search_selected_index < out.len() {
                r matches Action::Open(u) && u@ == out[old.search_selected_index as int].0.url
            } else {
                r == Action::Nothing
            }
    } else if key == Key::Down || (key == Key::Char('j') && old.search_query@.len() == 0) {
        r == Action::Nothing && result_down(old, new)
    } else if key == Key::Up || (key == Key::Char('k') && old.search_query@.len() == 0) {
        r == Action::Nothing && result_up(old, new)
    } else if key == Key::Backspace {
        &&& r == Action::Nothing
        &&& new.search_query@ == (if old.search_query@.len() > 0 {
            old.search_query@.drop_last()
        } else {
            old.search_query@
        })
        &&& new == (App { search_query: new.search_query, search_selected_index: 0, ..old })
    } else if key is Char {
        r == Action::Nothing && typed(old, key->Char_0, new)
    } else {
        r == Action::Nothing && new == old
    }
}

/// A key in snooze mode took `old` to `new`, asking for `r`.
pub open spec fn snooze_key(old: App, key: Key, new: App, r: Action) -> bool {
    if key == Key::Esc {
        r == Action::Nothing && input_left(old, new)
    } else if key == Key::Enter {
        (r == Action::Save || r == Action::Nothing) && exists|now: i64|
            #[trigger] snooze_confirmed(old, now, new, saves(r))
    } else if key == Key::Backspace {
        &&& r == Action::Nothing
        &&& new.snooze_input@ == (if old.snooze_input@.len() > 0 {
            old.snooze_input@.drop_last()
        } else {
            old.snooze_input@
        })
        &&& new == (App { snooze_input: new.snooze_input, ..old })
    } else if key is Char {
        &&& r == Action::Nothing
        &&& new.snooze_input@ == (if '0' <= key->Char_0 && key->Char_0 <= '9' {
            old.snooze_input@.push(key->Char_0)
        } else {
            old.snooze_input@
        })
        &&& new == (App { snooze_input: new.snooze_input, ..old })
    } else {
        r == Action::Nothing && new == old
    }
}

/// A key took `old` to `new` in the mode of `old`, asking for `r`; on the
/// help screen Esc, `q` and `?` close it.
pub open spec fn key_handled(old: App, key: Key, new: App, r: Action) -> bool {
    match old.input_mode {
        InputMode::Normal => normal_key(old, key, new, r),
        InputMode::Search => search_key(old, key, new, r),
        InputMode::Snooze => snooze_key(old, key, new, r),
        InputMode::Help => r == Action::Nothing && new == if key == Key::Esc || key == Key::Char('q')
            || key == Key::Char('?') {
            App { show_help: false, input_mode: InputMode::Normal, ..old }
        } else {
            old
        },
    }
}

/// The other pane.
pub open spec fn other_pane(p: FocusedPane) -> FocusedPane {
    match p {
        FocusedPane::TaskList => FocusedPane::Preview,
        FocusedPane::Preview => FocusedPane::TaskList,
    }
}

/// State of the dashboard.
pub struct App {
    /// All tasks of the remote feed.
    pub tasks: Vec<Task>,
    /// Pins and snoozes.
    pub local_state: LocalState,
    /// The category shown.
    pub current_group: TaskGroup,
    /// Position of the selected task in the category's list.
    pub selected_index: usize,
    /// Text of the search or filter.
    pub search_query: String,
    /// What typed keys go to.
    pub input_mode: InputMode,
    /// Days typed for a snooze.
    pub snooze_input: String,
    /// Message for the status bar.
    pub status_message: Option<String>,
    /// Whether to quit.
    pub should_quit: bool,
    /// Whether tasks are being fetched.
    pub is_loading: bool,
    /// Position of the selected search result.
    pub search_selected_index: usize,
    /// Whether the help screen shows.
    pub show_help: bool,
    /// The user whose tasks are shown, if known.
    pub user_id: Option<u64>,
    /// Which pane has the focus.
    pub focused_pane: FocusedPane,
    /// Scroll offset of the preview pane.
    pub preview_scroll: u16,
}

/// `out` is what the category list of `app` shows at time `now`.
pub open spec fn shows(app: App, now: i64, out: Seq<(TaskView, TaskOverlay)>) -> bool {
    in_family_order(
        working_set(
            task_seq(app.tasks@),
            app.local_state.overlays@,
            now,
            app.current_group,
            app.user_id,
            app.search_query@,
        ),
        out,
    )
}

/// `out` is what the search view of `app` shows.
pub open spec fn finds(app: App, out: Seq<(TaskView, TaskOverlay)>) -> bool {
    if app.search_query@.len() == 0 || lower_of(app.search_query@).len() > MAX_QUERY_CHARS {
        out.len() == 0
    } else {
        in_rank_order(
            search_hits(task_seq(app.tasks@), app.local_state.overlays@, lower_of(app.search_query@)),
            out,
        )
    }
}

/// `r` gives for each category the number of its tasks at time `now`.
pub open spec fn counted(app: App, now: i64, r: Seq<(TaskGroup, usize)>) -> bool {
    forall|i: int|
        0 <= i < r.len() ==> #[trigger] r[i].1 == count_in(
            task_seq(app.tasks@),
            app.local_state.overlays@,
            now,
            r[i].0,
        )
}

/// Earliest time the stored overlays can hold: the first day of year
/// -262143, in milliseconds since the Unix epoch (chrono's `DateTime<Utc>`
/// range).
pub const EARLIEST_TIME_MS: i64 = -8334601315200000;

/// Latest time the stored overlays can hold: the last millisecond of year
/// 262142, in milliseconds since the Unix epoch (chrono's `DateTime<Utc>`
/// range).
pub const LATEST_TIME_MS: i64 = 8210266876799999;

/// The snooze end `days` days after `now`, if it is a time in range.
pub open spec fn deadline(now: i64, days: int) -> Option<i64> {
    let t = now + days * MS_PER_DAY;
    if EARLIEST_TIME_MS <= t <= LATEST_TIME_MS {
        Some(t as i64)
    } else {
        None
    }
}

/// The end of a snooze of `days` days from `now`, in milliseconds since the
/// Unix epoch; `None` when out of range.
pub fn snooze_deadline(now: i64, days: i64) -> (r: Option<i64>)
    ensures
        r == deadline(now, days as int),
{
    let span: i128 = days as i128 * 86_400_000i128;
    let t: i128 = now as i128 + span;
    if t < EARLIEST_TIME_MS as i128 || t > LATEST_TIME_MS as i128 {
        None
    } else {
        Some(t as i64)
    }
}

/// The id of the task selected in `out`, the list shown.
pub open spec fn selected_id(app: App, out: Seq<(TaskView, TaskOverlay)>) -> Seq<char> {
    out[app.selected_index as int].0.id
}

/// `new` is `old` with other overlays and status message only.
pub open spec fn same_but_marks(old: App, new: App) -> bool {
    new == (App { local_state: new.local_state, status_message: new.status_message, ..old })
}

/// The status message is the text `m`.
pub open spec fn says(app: App, m: Seq<char>) -> bool {
    app.status_message matches Some(s) && s@ == m
}

/// Pin toggling at time `now` took `old` to `new`, and `r` tells whether
/// there was a selected task (and so a change to keep).
pub open spec fn pin_toggled(old: App, now: i64, new: App, r: bool) -> bool {
    exists|out: Seq<(TaskView, TaskOverlay)>|
        #[trigger] shows(old, now, out) && if old.selected_index < out.len() {
            let id = selected_id(old, out);
            let o = overlay_in(old.local_state.overlays@, id);
            &&& r
            &&& same_but_marks(old, new)
            &&& new.local_state.last_refresh == old.local_state.last_refresh
            &&& new.local_state.overlays@ == old.local_state.overlays@.insert(
                id,
                TaskOverlay { pinned: !o.pinned, ..o },
            )
            &&& says(new, if o.pinned { "Task unpinned"@ } else { "Task pinned"@ })
        } else {
            !r && new == old
        }
}

/// Ending the snooze of the selected task at time `now` took `old` to
/// `new`; `r` tells whether there was a selected task.
pub open spec fn snooze_ended(old: App, now: i64, new: App, r: bool) -> bool {
    exists|out: Seq<(TaskView, TaskOverlay)>|
        #[trigger] shows(old, now, out) && if old.selected_index < out.len() {
            let id = selected_id(old, out);
            &&& r
            &&& same_but_marks(old, new)
            &&& new.local_state.last_refresh == old.local_state.last_refresh
            &&& old.local_state.overlays@.contains_key(id) ==> new.local_state.overlays@
                == old.local_state.overlays@.insert(
                id,
                TaskOverlay { snoozed_until: None, ..old.local_state.overlays@[id] },
            )
            &&& !old.local_state.overlays@.contains_key(id) ==> new.local_state.overlays@
                == old.local_state.overlays@
            &&& says(new, "Task unsnoozed"@)
        } else {
            !r && new == old
        }
}

/// Starting snooze input at time `now` took `old` to `new`: only with a
/// task selected.
pub open spec fn snooze_started(old: App, now: i64, new: App) -> bool {
    exists|out: Seq<(TaskView, TaskOverlay)>|
        #[trigger] shows(old, now, out) && if old.selected_index < out.len() {
            &&& new.input_mode == InputMode::Snooze
            &&& new.snooze_input@.len() == 0
            &&& says(new, "Snooze for how many days? (Enter number)"@)
            &&& new == (App {
                input_mode: new.input_mode,
                snooze_input: new.snooze_input,
                status_message: new.status_message,
                ..old
            })
        } else {
            new == old
        }
}

/// `new` is `old` back in normal mode with the snooze days cleared, and
/// with other overlays and status message only.
pub open spec fn snooze_closed(old: App, new: App) -> bool {
    &&& new.input_mode == InputMode::Normal
    &&& new.snooze_input@.len() == 0
    &&& new.local_state.last_refresh == old.local_state.last_refresh
    &&& new == (App {
        local_state: new.local_state,
        status_message: new.status_message,
        input_mode: new.input_mode,
        snooze_input: new.snooze_input,
        ..old
    })
}

/// Confirming the typed snooze days at time `now` took `old` to `new`; `r`
/// tells whether a snooze was set. Text that is no number, or a snooze end
/// out of range, is reported as an invalid number.
pub open spec fn snooze_confirmed(old: App, now: i64, new: App, r: bool) -> bool {
    &&& snooze_closed(old, new)
    &&& match i64_of(old.snooze_input@) {
        None => !r && new.local_state.overlays@ == old.local_state.overlays@ && says(
            new,
            "Invalid number"@,
        ),
        Some(days) => exists|out: Seq<(TaskView, TaskOverlay)>|
            #[trigger] shows(old, now, out) && if old.selected_index < out.len() {
                let id = selected_id(old, out);
                match deadline(now, days as int) {
                    Some(until) => r && new.local_state.overlays@
                        == old.local_state.overlays@.insert(
                        id,
                        TaskOverlay {
                            snoozed_until: Some(until),
                            ..overlay_in(old.local_state.overlays@, id)
                        },
                    ) && says(
                        new,
                        "Task snoozed for "@ + decimal_of(days as int) + " days"@,
                    ),
                    None => !r && new.local_state.overlays@ == old.local_state.overlays@ && says(
                        new,
                        "Invalid number"@,
                    ),
                }
            } else {
                !r && new.local_state.overlays@ == old.local_state.overlays@
                    && new.status_message == old.status_message
            },
    }
}

impl App {
    /// A fresh dashboard: no tasks, first category, nothing selected.
    pub fn new() -> (r: Self)
        ensures
            r.tasks@.len() == 0,
            r.local_state.overlays@ == Map::<Seq<char>, TaskOverlay>::empty(),
            r.local_state.last_refresh is None,
            r.current_group == TaskGroup::MyAction,
            r.selected_index == 0,
            r.search_query@.len() == 0,
            r.input_mode == InputMode::Normal,
            r.snooze_input@.len() == 0,
            r.status_message is None,
            !r.should_quit,
            !r.is_loading,
            r.search_selected_index == 0,
            !r.show_help,
            r.user_id is None,
            r.focused_pane == FocusedPane::TaskList,
            r.preview_scroll == 0,
    {
        App {
            tasks: Vec::new(),
            local_state: LocalState::default(),
            current_group: TaskGroup::MyAction,
            selected_index: 0,
            search_query: String::new(),
            input_mode: InputMode::Normal,
            snooze_input: String::new(),
            status_message: None,
            should_quit: false,
            is_loading: false,
            search_selected_index: 0,
            show_help: false,
            user_id: None,
            focused_pane: FocusedPane::TaskList,
            preview_scroll: 0,
        }
    }

    /// Moves the focus to the next pane.
    pub fn focus_next_pane(&mut self)
        ensures
            *final(self) == (App { focused_pane: other_pane(old(self).focused_pane), ..*old(self) }),
    {
        self.focused_pane = match self.focused_pane {
            FocusedPane::TaskList => FocusedPane::Preview,
            FocusedPane::Preview => FocusedPane::TaskList,
        };
    }

    /// Moves the focus to the previous pane.
    pub fn focus_prev_pane(&mut self)
        ensures
            *final(self) == (App { focused_pane: other_pane(old(self).focused_pane), ..*old(self) }),
    {
        self.focused_pane = match self.focused_pane {
            FocusedPane::TaskList => FocusedPane::Preview,
            FocusedPane::Preview => FocusedPane::TaskList,
        };
    }

    /// Scrolls the preview one line down, stopping at the largest offset.
    pub fn scroll_preview_down(&mut self)
        ensures
            *final(self) == (App {
                preview_scroll: if old(self).preview_scroll < u16::MAX {
                    (old(self).preview_scroll + 1) as u16
                } else {
                    u16::MAX
                },
                ..*old(self)
            }),
    {
        if self.preview_scroll < u16::MAX {
            self.preview_scroll = self.preview_scroll + 1;
        }
    }

    /// Scrolls the preview one line up, stopping at the top.
    pub fn scroll_preview_up(&mut self)
        ensures
            *final(self) == (App {
                preview_scroll: if old(self).preview_scroll > 0 {
                    (old(self).preview_scroll - 1) as u16
                } else {
                    0
                },
                ..*old(self)
            }),
    {
        if self.preview_scroll > 0 {
            self.preview_scroll = self.preview_scroll - 1;
        }
    }

    /// Scrolls the preview back to the top.
    pub fn reset_preview_scroll(&mut self)
        ensures
            *final(self) == (App { preview_scroll: 0, ..*old(self) }),
    {
        self.preview_scroll = 0;
    }

    /// Sets the user from the text of its numeric id; text that is no
    /// number clears it.
    pub fn set_user_id(&mut self, user_id: &str)
        ensures
            *final(self) == (App {
                user_id: match unsigned_text(user_id@) {
                    Some(v) => if v <= u64::MAX {
                        Some(v as u64)
                    } else {
                        None
                    },
                    None => None,
                },
                ..*old(self)
            }),
    {
        self.user_id = parse_u64(user_id);
    }

    /// Replaces the tasks, records the refresh time and selects the first
    /// task.
    pub fn set_tasks(&mut self, tasks: Vec<Task>)
        ensures
            final(self).local_state.last_refresh is Some,
            *final(self) == (App {
                tasks: tasks,
                selected_index: 0,
                local_state: LocalState {
                    last_refresh: final(self).local_state.last_refresh,
                    ..old(self).local_state
                },
                ..*old(self)
            }),
    {
        self.tasks = tasks;
        self.local_state.last_refresh = Some(now_millis());
        self.selected_index = 0;
    }

    /// Marks the start of a refresh of the tasks; a refresh asked for by
    /// the user (not the one at start) says so in the status bar.
    pub fn begin_refresh(&mut self, at_start: bool)
        ensures
            at_start ==> *final(self) == (App { is_loading: true, ..*old(self) }),
            !at_start ==> says(*final(self), "Refreshing..."@) && *final(self) == (App {
                is_loading: true,
                status_message: final(self).status_message,
                ..*old(self)
            }),
    {
        self.is_loading = true;
        if !at_start {
            self.status_message = Some("Refreshing...".to_string());
        }
    }

    /// Ends a refresh with the fetched tasks, or with the text of what went
    /// wrong (reported as a failure to load for the refresh at start);
    /// tells whether there are new tasks to keep.
    pub fn finish_refresh(&mut self, fetched: Result<Vec<Task>, String>, at_start: bool) -> (r: bool)
        ensures
            !final(self).is_loading,
            r == fetched is Ok,
            fetched matches Ok(tasks) ==> final(self).tasks == tasks && final(self).selected_index
                == 0 && final(self).local_state.last_refresh is Some && final(self).local_state.overlays
                == old(self).local_state.overlays && says(
                *final(self),
                "Loaded "@ + nat_digits(tasks@.len()) + " tasks"@,
            ),
            fetched matches Err(e) ==> *final(self) == (App {
                is_loading: false,
                status_message: final(self).status_message,
                ..*old(self)
            }) && says(
                *final(self),
                (if at_start {
                    "Failed to load: "@
                } else {
                    "Failed: "@
                }) + e@,
            ),
    {
        match fetched {
            Ok(tasks) => {
                let n = tasks.len();
                self.set_tasks(tasks);
                self.is_loading = false;
                let mut m = "Loaded ".to_string();
                push_digits(&mut m, n as u64);
                append(&mut m, " tasks");
                self.status_message = Some(m);
                true
            },
            Err(e) => {
                self.is_loading = false;
                let mut m = if at_start {
                    "Failed to load: ".to_string()
                } else {
                    "Failed: ".to_string()
                };
                append(&mut m, e.as_str());
                self.status_message = Some(m);
                false
            },
        }
    }

    /// The list of the current category at time `now` (milliseconds since
    /// the Unix epoch): the working set, in family order.
    pub fn current_tasks_at(&self, now: i64) -> (r: Vec<DisplayTask>)
        ensures
            shows(*self, now, entry_views(r@)),
    {
        build_set(
            &self.tasks,
            &self.local_state.overlays,
            now,
            self.current_group,
            self.user_id,
            self.search_query.as_str(),
        )
    }

    /// The list of the current category now.
    pub fn current_tasks(&self) -> (r: Vec<DisplayTask>)
        ensures
            exists|now: i64| shows(*self, now, entry_views(r@)),
    {
        self.current_tasks_at(now_millis())
    }

    /// The number of tasks in each category now, in tab order.
    pub fn group_counts(&self) -> (r: Vec<(TaskGroup, usize)>)
        ensures
            r@.len() == 6,
            forall|i: int| 0 <= i < 6 ==> group_at(i) == Some(#[trigger] r@[i].0),
            exists|now: i64| #[trigger] counted(*self, now, r@),
    {
        let now = now_millis();
        let r = counts(&self.tasks, &self.local_state.overlays, now);
        assert(counted(*self, now, r@));
        r
    }

    /// The selected task of the list at time `now`, if the selection is in it.
    pub fn selected_task_at(&self, now: i64) -> (r: Option<DisplayTask>)
        ensures
            exists|out: Seq<(TaskView, TaskOverlay)>|
                shows(*self, now, out) && match r {
                    Some(d) => self.selected_index < out.len() && d@ == out[self.selected_index as int],
                    None => self.selected_index >= out.len(),
                },
    {
        let tasks = self.current_tasks_at(now);
        if self.selected_index < tasks.len() {
            Some(tasks[self.selected_index].clone())
        } else {
            None
        }
    }

    /// The selected task of the list now.
    pub fn selected_task(&self) -> (r: Option<DisplayTask>)
        ensures
            exists|now: i64, out: Seq<(TaskView, TaskOverlay)>|
                shows(*self, now, out) && match r {
                    Some(d) => self.selected_index < out.len() && d@ == out[self.selected_index as int],
                    None => self.selected_index >= out.len(),
                },
    {
        self.selected_task_at(now_millis())
    }

    /// The results of the search over all tasks.
    pub fn search_all_tasks(&self) -> (r: Vec<DisplayTask>)
        ensures
            finds(*self, entry_views(r@)),
    {
        search(&self.tasks, &self.local_state.overlays, self.search_query.as_str())
    }

    /// The selected search result, if the selection is among the results.
    pub fn selected_search_result(&self) -> (r: Option<DisplayTask>)
        ensures
            exists|out: Seq<(TaskView, TaskOverlay)>|
                finds(*self, out) && match r {
                    Some(d) => self.search_selected_index < out.len() && d@
                        == out[self.search_selected_index as int],
                    None => self.search_selected_index >= out.len(),
                },
    {
        let results = self.search_all_tasks();
        if self.search_selected_index < results.len() {
            Some(results[self.search_selected_index].clone())
        } else {
            None
        }
    }

    /// Moves the search selection up, stopping at the first result.
    pub fn search_select_prev(&mut self)
        ensures
            *final(self) == (App {
                search_selected_index: if old(self).search_selected_index > 0 {
                    (old(self).search_selected_index - 1) as usize
                } else {
                    0
                },
                ..*old(self)
            }),
    {
        if self.search_selected_index > 0 {
            self.search_selected_index = self.search_selected_index - 1;
        }
    }

    /// Moves the search selection down, stopping at the last result.
    pub fn search_select_next(&mut self)
        ensures
            exists|out: Seq<(TaskView, TaskOverlay)>|
                finds(*old(self), out) && *final(self) == (App {
                    search_selected_index: if old(self).search_selected_index + 1 < out.len() {
                        (old(self).search_selected_index + 1) as usize
                    } else {
                        old(self).search_selected_index
                    },
                    ..*old(self)
                }),
    {
        let results = self.search_all_tasks();
        if results.len() > 0 && self.search_selected_index < results.len() - 1 {
            self.search_selected_index = self.search_selected_index + 1;
        }
    }

    /// Moves the selection up, stopping at the first task.
    pub fn select_prev(&mut self)
        ensures
            *final(self) == (App {
                selected_index: if old(self).selected_index > 0 {
                    (old(self).selected_index - 1) as usize
                } else {
                    0
                },
                ..*old(self)
            }),
    {
        if self.selected_index > 0 {
            self.selected_index = self.selected_index - 1;
        }
    }

    /// Moves the selection down, stopping at the last task of the list now.
    pub fn select_next(&mut self)
        ensures
            exists|now: i64, out: Seq<(TaskView, TaskOverlay)>|
                shows(*old(self), now, out) && *final(self) == (App {
                    selected_index: if old(self).selected_index + 1 < out.len() {
                        (old(self).selected_index + 1) as usize
                    } else {
                        old(self).selected_index
                    },
                    ..*old(self)
                }),
    {
        let tasks = self.current_tasks();
        if tasks.len() > 0 && self.selected_index < tasks.len() - 1 {
            self.selected_index = self.selected_index + 1;
        }
    }

    /// Shows a category, selecting its first task.
    pub fn switch_group(&mut self, group: TaskGroup)
        ensures
            *final(self) == (App { current_group: group, selected_index: 0, ..*old(self) }),
    {
        self.current_group = group;
        self.selected_index = 0;
    }

    /// Shows the next category in tab order, after the last the first.
    pub fn next_tab(&mut self)
        ensures
            group_at(((group_index(old(self).current_group) + 1) % 6) as int) == Some(final(self).current_group),
            *final(self) == (App {
                current_group: final(self).current_group,
                selected_index: 0,
                ..*old(self)
            }),
    {
        let len = TaskGroup::all().len();
        let idx = (self.current_group.index() + 1) % len;
        if let Some(group) = TaskGroup::from_index(idx) {
            self.switch_group(group);
        }
    }

    /// Shows the previous category in tab order, before the first the last.
    pub fn prev_tab(&mut self)
        ensures
            group_at(((group_index(old(self).current_group) + 5) % 6) as int) == Some(final(self).current_group),
            *final(self) == (App {
                current_group: final(self).current_group,
                selected_index: 0,
                ..*old(self)
            }),
    {
        let len = TaskGroup::all().len();
        let idx = (self.current_group.index() + len - 1) % len;
        if let Some(group) = TaskGroup::from_index(idx) {
            self.switch_group(group);
        }
    }

    /// Starts typing a search, from an empty query.
    pub fn start_search(&mut self)
        ensures
            final(self).search_query@.len() == 0,
            *final(self) == (App {
                input_mode: InputMode::Search,
                search_query: final(self).search_query,
                search_selected_index: 0,
                ..*old(self)
            }),
    {
        self.input_mode = InputMode::Search;
        clear_string(&mut self.search_query);
        self.search_selected_index = 0;
    }

    /// Leaves search or snooze input, clearing both inputs.
    pub fn cancel_input(&mut self)
        ensures
            final(self).search_query@.len() == 0,
            final(self).snooze_input@.len() == 0,
            *final(self) == (App {
                input_mode: InputMode::Normal,
                search_query: final(self).search_query,
                snooze_input: final(self).snooze_input,
                ..*old(self)
            }),
    {
        self.input_mode = InputMode::Normal;
        clear_string(&mut self.search_query);
        clear_string(&mut self.snooze_input);
    }

    /// A typed character: added to the search query in search mode (and
    /// the search selection goes back to the first result), to the snooze
    /// days in snooze mode when it is a digit, else ignored.
    pub fn handle_char(&mut self, c: char)
        ensures
            old(self).input_mode == InputMode::Search ==> final(self).search_query@ == old(self).search_query@.push(c) && final(self).search_selected_index == 0
                && final(self).snooze_input == old(self).snooze_input,
            old(self).input_mode == InputMode::Snooze ==> final(self).snooze_input@ == (if '0' <= c
                && c <= '9' {
                old(self).snooze_input@.push(c)
            } else {
                old(self).snooze_input@
            }) && final(self).search_query == old(self).search_query && final(self).search_selected_index == old(self).search_selected_index,
            (old(self).input_mode == InputMode::Normal || old(self).input_mode == InputMode::Help)
                ==> *final(self) == *old(self),
            *final(self) == (App {
                search_query: final(self).search_query,
                snooze_input: final(self).snooze_input,
                search_selected_index: final(self).search_selected_index,
                ..*old(self)
            }),
    {
        match self.input_mode {
            InputMode::Search => {
                push_char(&mut self.search_query, c);
                self.search_selected_index = 0;
            },
            InputMode::Snooze => {
                if '0' <= c && c <= '9' {
                    push_char(&mut self.snooze_input, c);
                }
            },
            InputMode::Normal | InputMode::Help => {},
        }
    }

    /// Backspace: removes the last character of the search query (and the
    /// search selection goes back to the first result) or of the snooze days.
    pub fn handle_backspace(&mut self)
        ensures
            old(self).input_mode == InputMode::Search ==> final(self).search_query@ == (if old(self).search_query@.len() > 0 {
                old(self).search_query@.drop_last()
            } else {
                old(self).search_query@
            }) && final(self).search_selected_index == 0
                && final(self).snooze_input == old(self).snooze_input,
            old(self).input_mode == InputMode::Snooze ==> final(self).snooze_input@ == (if old(self).snooze_input@.len() > 0 {
                old(self).snooze_input@.drop_last()
            } else {
                old(self).snooze_input@
            }) && final(self).search_query == old(self).search_query
                && final(self).search_selected_index == old(self).search_selected_index,
            (old(self).input_mode == InputMode::Normal || old(self).input_mode == InputMode::Help)
                ==> *final(self) == *old(self),
            *final(self) == (App {
                search_query: final(self).search_query,
                snooze_input: final(self).snooze_input,
                search_selected_index: final(self).search_selected_index,
                ..*old(self)
            }),
    {
        match self.input_mode {
            InputMode::Search => {
                let _ = pop_char(&mut self.search_query);
                self.search_selected_index = 0;
            },
            InputMode::Snooze => {
                let _ = pop_char(&mut self.snooze_input);
            },
            InputMode::Normal | InputMode::Help => {},
        }
    }

    /// Flips the pin of the selected task at time `now`; tells whether
    /// there was one.
    pub fn toggle_pin_at(&mut self, now: i64) -> (r: bool)
        ensures
            pin_toggled(*old(self), now, *final(self), r),
    {
        let sel = self.selected_task_at(now);
        let ghost out = choose|out: Seq<(TaskView, TaskOverlay)>|
            shows(*old(self), now, out) && match sel {
                Some(d) => old(self).selected_index < out.len() && d@ == out[old(self).selected_index as int],
                None => old(self).selected_index >= out.len(),
            };
        match sel {
            Some(t) => {
                self.local_state.toggle_pin(t.task.id.as_str());
                let pinned = self.local_state.is_pinned(t.task.id.as_str());
                self.status_message = Some(
                    if pinned {
                        "Task pinned".to_string()
                    } else {
                        "Task unpinned".to_string()
                    },
                );
                assert(shows(*old(self), now, out));
                true
            },
            None => {
                assert(shows(*old(self), now, out));
                false
            },
        }
    }

    /// Flips the pin of the selected task now; tells whether there was one.
    pub fn toggle_pin(&mut self) -> (r: bool)
        ensures
            exists|now: i64| pin_toggled(*old(self), now, *final(self), r),
    {
        let now = now_millis();
        self.toggle_pin_at(now)
    }

    /// Starts typing the days of a snooze, when a task is selected at time `now`.
    pub fn start_snooze_at(&mut self, now: i64)
        ensures
            snooze_started(*old(self), now, *final(self)),
    {
        let sel = self.selected_task_at(now);
        let ghost out = choose|out: Seq<(TaskView, TaskOverlay)>|
            shows(*old(self), now, out) && match sel {
                Some(d) => old(self).selected_index < out.len() && d@ == out[old(self).selected_index as int],
                None => old(self).selected_index >= out.len(),
            };
        if sel.is_some() {
            self.input_mode = InputMode::Snooze;
            clear_string(&mut self.snooze_input);
            self.status_message = Some("Snooze for how many days? (Enter number)".to_string());
        }
        assert(shows(*old(self), now, out));
    }

    /// Starts typing the days of a snooze, when a task is selected now.
    pub fn start_snooze(&mut self)
        ensures
            exists|now: i64| snooze_started(*old(self), now, *final(self)),
    {
        let now = now_millis();
        self.start_snooze_at(now)
    }

    /// Snoozes the selected task at time `now` for the typed number of
    /// days, then leaves snooze input; tells whether a snooze was set.
    pub fn confirm_snooze_at(&mut self, now: i64) -> (r: bool)
        ensures
            snooze_confirmed(*old(self), now, *final(self), r),
    {
        let mut saved = false;
        match parse_i64(self.snooze_input.as_str()) {
            Some(days) => {
                let sel = self.selected_task_at(now);
                let ghost out = choose|out: Seq<(TaskView, TaskOverlay)>|
                    shows(*old(self), now, out) && match sel {
                        Some(d) => old(self).selected_index < out.len() && d@
                            == out[old(self).selected_index as int],
                        None => old(self).selected_index >= out.len(),
                    };
                match sel {
                    Some(t) => {
                        match snooze_deadline(now, days) {
                            Some(until) => {
                                self.local_state.snooze(t.task.id.as_str(), until);
                                let mut m = "Task snoozed for ".to_string();
                                push_decimal(&mut m, days);
                                append(&mut m, " days");
                                self.status_message = Some(m);
                                saved = true;
                            },
                            None => {
                                self.status_message = Some("Invalid number".to_string());
                            },
                        }
                    },
                    None => {},
                }
                assert(shows(*old(self), now, out));
            },
            None => {
                self.status_message = Some("Invalid number".to_string());
            },
        }
        self.input_mode = InputMode::Normal;
        clear_string(&mut self.snooze_input);
        saved
    }

    /// Snoozes the selected task now for the typed number of days, then
    /// leaves snooze input; tells whether a snooze was set.
    pub fn confirm_snooze(&mut self) -> (r: bool)
        ensures
            exists|now: i64| snooze_confirmed(*old(self), now, *final(self), r),
    {
        let now = now_millis();
        self.confirm_snooze_at(now)
    }

    /// Ends the snooze of the selected task at time `now`; tells whether
    /// there was one.
    pub fn unsnooze_at(&mut self, now: i64) -> (r: bool)
        ensures
            snooze_ended(*old(self), now, *final(self), r),
    {
        let sel = self.selected_task_at(now);
        let ghost out = choose|out: Seq<(TaskView, TaskOverlay)>|
            shows(*old(self), now, out) && match sel {
                Some(d) => old(self).selected_index < out.len() && d@ == out[old(self).selected_index as int],
                None => old(self).selected_index >= out.len(),
            };
        match sel {
            Some(t) => {
                self.local_state.unsnooze(t.task.id.as_str());
                self.status_message = Some("Task unsnoozed".to_string());
                assert(shows(*old(self), now, out));
                true
            },
            None => {
                assert(shows(*old(self), now, out));
                false
            },
        }
    }

    /// Ends the snooze of the selected task now; tells whether there was one.
    pub fn unsnooze(&mut self) -> (r: bool)
        ensures
            exists|now: i64| snooze_ended(*old(self), now, *final(self), r),
    {
        let now = now_millis();
        self.unsnooze_at(now)
    }

    /// Handles a key press: clears the status message, then acts by input
    /// mode. Gives the outside work to do.
    pub fn handle_key(&mut self, key: Key) -> (r: Action)
        ensures
            key_handled(unmarked(*old(self)), key, *final(self), r),
    {
        self.clear_status();
        match self.input_mode {
            InputMode::Normal => self.handle_normal_key(key),
            InputMode::Search => self.handle_search_key(key),
            InputMode::Snooze => self.handle_snooze_key(key),
            InputMode::Help => {
                if key == Key::Esc || key == Key::Char('q') || key == Key::Char('?') {
                    self.show_help = false;
                    self.input_mode = InputMode::Normal;
                }
                Action::Nothing
            },
        }
    }

    fn handle_normal_key(&mut self, key: Key) -> (r: Action)
        requires
            old(self).input_mode == InputMode::Normal,
        ensures
            normal_key(*old(self), key, *final(self), r),
    {
        match key {
            Key::Char('q') => {
                self.should_quit = true;
                Action::Nothing
            },
            Key::Char('j') | Key::Down => {
                match self.focused_pane {
                    FocusedPane::TaskList => {
                        self.select_next();
                        self.reset_preview_scroll();
                    },
                    FocusedPane::Preview => self.scroll_preview_down(),
                }
                Action::Nothing
            },
            Key::Char('k') | Key::Up => {
                match self.focused_pane {
                    FocusedPane::TaskList => {
                        self.select_prev();
                        self.reset_preview_scroll();
                    },
                    FocusedPane::Preview => self.scroll_preview_up(),
                }
                Action::Nothing
            },
            Key::Char(c) if '1' <= c && c <= '6' => {
                let i = (c as u32 - '1' as u32) as usize;
                if let Some(group) = TaskGroup::from_index(i) {
                    self.switch_group(group);
                }
                Action::Nothing
            },
            Key::Tab => {
                self.focus_next_pane();
                Action::Nothing
            },
            Key::BackTab => {
                self.focus_prev_pane();
                Action::Nothing
            },
            Key::Char('l') => {
                self.next_tab();
                Action::Nothing
            },
            Key::Char('h') => {
                self.prev_tab();
                Action::Nothing
            },
            Key::Char('p') => {
                let saved = self.toggle_pin();
                let r = if saved {
                    Action::Save
                } else {
                    Action::Nothing
                };
                assert(saves(r) == saved);
                r
            },
            Key::Char('s') => {
                self.start_snooze();
                Action::Nothing
            },
            Key::Char('S') => {
                let saved = self.unsnooze();
                let r = if saved {
                    Action::Save
                } else {
                    Action::Nothing
                };
                assert(saves(r) == saved);
                r
            },
            Key::Char('o') | Key::Enter | Key::Char('y') => {
                let now = now_millis();
                let sel = self.selected_task_at(now);
                let ghost out = choose|out: Seq<(TaskView, TaskOverlay)>|
                    shows(*self, now, out) && match sel {
                        Some(d) => self.selected_index < out.len() && d@ == out[self.selected_index as int],
                        None => self.selected_index >= out.len(),
                    };
                assert(shows(*self, now, out));
                match sel {
                    Some(t) => {
                        if key == Key::Char('y') {
                            Action::Copy(t.task.name)
                        } else {
                            Action::Open(t.task.url)
                        }
                    },
                    None => Action::Nothing,
                }
            },
            Key::Char('/') => {
                self.start_search();
                Action::Nothing
            },
            Key::Char('r') => Action::Refresh,
            Key::Char('?') => {
                self.show_help = true;
                self.input_mode = InputMode::Help;
                Action::Nothing
            },
            _ => Action::Nothing,
        }
    }

    fn handle_search_key(&mut self, key: Key) -> (r: Action)
        requires
            old(self).input_mode == InputMode::Search,
        ensures
            search_key(*old(self), key, *final(self), r),
    {
        match key {
            Key::Esc => {
                self.cancel_input();
                Action::Nothing
            },
            Key::Enter => {
                let sel = self.selected_search_result();
                let ghost out = choose|out: Seq<(TaskView, TaskOverlay)>|
                    finds(*self, out) && match sel {
                        Some(d) => self.search_selected_index < out.len() && d@
                            == out[self.search_selected_index as int],
                        None => self.search_selected_index >= out.len(),
                    };
                assert(finds(*self, out));
                self.input_mode = InputMode::Normal;
                match sel {
                    Some(t) => Action::Open(t.task.url),
                    None => Action::Nothing,
                }
            },
            Key::Down => {
                self.search_select_next();
                Action::Nothing
            },
            Key::Up => {
                self.search_select_prev();
                Action::Nothing
            },
            Key::Char('j') if self.search_query.as_str().is_empty() => {
                self.search_select_next();
                Action::Nothing
            },
            Key::Char('k') if self.search_query.as_str().is_empty() => {
                self.search_select_prev();
                Action::Nothing
            },
            Key::Backspace => {
                self.handle_backspace();
                Action::Nothing
            },
            Key::Char(c) => {
                self.handle_char(c);
                Action::Nothing
            },
            _ => Action::Nothing,
        }
    }

    fn handle_snooze_key(&mut self, key: Key) -> (r: Action)
        requires
            old(self).input_mode == InputMode::Snooze,
        ensures
            snooze_key(*old(self), key, *final(self), r),
    {
        match key {
            Key::Esc => {
                self.cancel_input();
                Action::Nothing
            },
            Key::Enter => {
                let saved = self.confirm_snooze();
                let r = if saved {
                    Action::Save
                } else {
                    Action::Nothing
                };
                assert(saves(r) == saved);
                r
            },
            Key::Backspace => {
                self.handle_backspace();
                Action::Nothing
            },
            Key::Char(c) => {
                self.handle_char(c);
                Action::Nothing
            },
            _ => Action::Nothing,
        }
    }

    /// Clears the status message.
    pub fn clear_status(&mut self)
        ensures
            *final(self) == (unmarked(*old(self))),
    {
        self.status_message = None;
    }
}

} // verus!
