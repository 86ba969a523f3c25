//! Data models for tasks and local state.

use vstd::prelude::*;
use vstd::hash_map::StringHashMap;
use crate::text::{chars_are, chars_of, lower_of, lowercase};

verus! {

/// `custom_item_id` that marks a task standing for a person or role.
pub const PERSON_ITEM_ID: u32 = 1020;

/// Display category of a task.
#[derive(Debug, Clone, Copy, PartialEq, Eq, Structural, Hash)]
pub enum TaskGroup {
    MyAction,
    Waiting,
    Backlog,
    Done,
    Snoozed,
    /// Long-standing role/person type tasks.
    Person,
}

/// Position of a category in the fixed order of the tabs.
pub open spec fn group_index(g: TaskGroup) -> nat {
    match g {
        TaskGroup::MyAction => 0,
        TaskGroup::Waiting => 1,
        TaskGroup::Backlog => 2,
        TaskGroup::Done => 3,
        TaskGroup::Snoozed => 4,
        TaskGroup::Person => 5,
    }
}

/// The category at a position of the tab order, if there is one.
pub open spec fn group_at(i: int) -> Option<TaskGroup> {
    if i == 0 {
        Some(TaskGroup::MyAction)
    } else if i == 1 {
        Some(TaskGroup::Waiting)
    } else if i == 2 {
        Some(TaskGroup::Backlog)
    } else if i == 3 {
        Some(TaskGroup::Done)
    } else if i == 4 {
        Some(TaskGroup::Snoozed)
    } else if i == 5 {
        Some(TaskGroup::Person)
    } else {
        None
    }
}

/// Tab title of a category.
pub open spec fn group_label(g: TaskGroup) -> Seq<char> {
    match g {
        TaskGroup::MyAction => "My Action"@,
        TaskGroup::Waiting => "Waiting"@,
        TaskGroup::Backlog => "Backlog"@,
        TaskGroup::Done => "Done"@,
        TaskGroup::Snoozed => "Snoozed"@,
        TaskGroup::Person => "Person"@,
    }
}

/// The category of an already lowercased status label; unknown labels are
/// backlog.
pub open spec fn status_group(s: Seq<char>) -> TaskGroup {
    if s == "in progress"@ || s == "to do"@ || s == "to-do"@ || s == "todo"@
        || s == "in review"@ || s == "review"@ || s == "to review"@ {
        TaskGroup::MyAction
    } else if s == "blocked"@ || s == "in testing"@ || s == "testing"@
        || s == "to validate"@ || s == "validation"@ || s == "pending review"@ {
        TaskGroup::Waiting
    } else if s == "done"@ || s == "complete"@ || s == "completed"@ || s == "closed"@
        || s == "released"@ || s == "deployed"@ || s == "shipped"@
        || s == "cancelled"@ || s == "canceled"@ || s == "won't do"@ || s == "wontdo"@
        || s == "for reference"@ {
        TaskGroup::Done
    } else {
        TaskGroup::Backlog
    }
}

/// The category of a status label, compared without regard to case.
pub open spec fn status_category(status: Seq<char>) -> TaskGroup {
    status_group(lower_of(status))
}

/// The category of a status label already in lowercase; unknown labels are
/// backlog.
pub fn group_of_lowercase(s: &str) -> (r: TaskGroup)
    ensures
        r == status_group(s@),
{
    let s = chars_of(s);
    if chars_are(&s, "in progress") || chars_are(&s, "to do") || chars_are(&s, "to-do")
        || chars_are(&s, "todo") || chars_are(&s, "in review") || chars_are(&s, "review")
        || chars_are(&s, "to review") {
        TaskGroup::MyAction
    } else if chars_are(&s, "blocked") || chars_are(&s, "in testing") || chars_are(&s, "testing")
        || chars_are(&s, "to validate") || chars_are(&s, "validation")
        || chars_are(&s, "pending review") {
        TaskGroup::Waiting
    } else if chars_are(&s, "done") || chars_are(&s, "complete") || chars_are(&s, "completed")
        || chars_are(&s, "closed") || chars_are(&s, "released") || chars_are(&s, "deployed")
        || chars_are(&s, "shipped") || chars_are(&s, "cancelled") || chars_are(&s, "canceled")
        || chars_are(&s, "won't do") || chars_are(&s, "wontdo")
        || chars_are(&s, "for reference") {
        TaskGroup::Done
    } else {
        TaskGroup::Backlog
    }
}

/// Maps a status label to its category, without regard to case; unknown
/// labels are backlog.
pub fn status_to_group(status: &str) -> (r: TaskGroup)
    ensures
        r == status_category(status@),
        r != TaskGroup::Snoozed && r != TaskGroup::Person,
{
    let lower = lowercase(status);
    group_of_lowercase(lower.as_str())
}

impl TaskGroup {
    /// All categories, in tab order.
    pub fn all() -> (r: &'static [TaskGroup])
        ensures
            r@.len() == 6,
            forall|i: int| 0 <= i < 6 ==> group_at(i) == Some(#[trigger] r@[i]),
    {
        &[
            TaskGroup::MyAction,
            TaskGroup::Waiting,
            TaskGroup::Backlog,
            TaskGroup::Done,
            TaskGroup::Snoozed,
            TaskGroup::Person,
        ]
    }

    /// Tab title of the category.
    pub fn label(&self) -> (r: &'static str)
        ensures
            r@ == group_label(*self),
    {
        match self {
            TaskGroup::MyAction => "My Action",
            TaskGroup::Waiting => "Waiting",
            TaskGroup::Backlog => "Backlog",
            TaskGroup::Done => "Done",
            TaskGroup::Snoozed => "Snoozed",
            TaskGroup::Person => "Person",
        }
    }

    /// Position of the category in tab order.
    pub fn index(&self) -> (r: usize)
        ensures
            r == group_index(*self),
            group_at(r as int) == Some(*self),
    {
        match self {
            TaskGroup::MyAction => 0,
            TaskGroup::Waiting => 1,
            TaskGroup::Backlog => 2,
            TaskGroup::Done => 3,
            TaskGroup::Snoozed => 4,
            TaskGroup::Person => 5,
        }
    }

    /// The category at a position of tab order; `None` past the last one.
    pub fn from_index(idx: usize) -> (r: Option<TaskGroup>)
        ensures
            r == group_at(idx as int),
            r is None <==> idx >= 6,
            r matches Some(g) ==> group_index(g) == idx,
    {
        match idx {
            0 => Some(TaskGroup::MyAction),
            1 => Some(TaskGroup::Waiting),
            2 => Some(TaskGroup::Backlog),
            3 => Some(TaskGroup::Done),
            4 => Some(TaskGroup::Snoozed),
            5 => Some(TaskGroup::Person),
            _ => None,
        }
    }
}

/// A task of the remote feed.
pub struct Task {
    /// Stable identifier.
    pub id: String,
    /// Title.
    pub name: String,
    /// Free-text status label.
    pub status: String,
    /// Name of the list the task belongs to.
    pub list_name: String,
    /// Due date, in milliseconds since the Unix epoch.
    pub due_date: Option<i64>,
    /// Priority: 1 = urgent, 2 = high, 3 = normal, 4 = low.
    pub priority: Option<u8>,
    /// Address of the task in the browser.
    pub url: String,
    /// Tags, in the order the feed gives them.
    pub tags: Vec<String>,
    /// Description text.
    pub description: Option<String>,
    /// Custom task type; `PERSON_ITEM_ID` marks a person/role task.
    pub custom_item_id: Option<u32>,
    /// Human-facing identifier such as "PROJ-123".
    pub custom_id: Option<String>,
    /// Identifier of the parent task, for a subtask.
    pub parent_id: Option<String>,
    /// Identifiers of the assigned users.
    pub assignee_ids: Vec<u64>,
}

/// A task as plain values.
pub struct TaskView {
    pub id: Seq<char>,
    pub name: Seq<char>,
    pub status: Seq<char>,
    pub list_name: Seq<char>,
    pub due_date: Option<i64>,
    pub priority: Option<u8>,
    pub url: Seq<char>,
    pub tags: Seq<Seq<char>>,
    pub description: Option<Seq<char>>,
    pub custom_item_id: Option<u32>,
    pub custom_id: Option<Seq<char>>,
    pub parent_id: Option<Seq<char>>,
    pub assignee_ids: Seq<u64>,
}

/// The text of an optional string.
pub open spec fn opt_view(o: Option<String>) -> Option<Seq<char>> {
    match o {
        Some(s) => Some(s@),
        None => None,
    }
}

impl View for Task {
    type V = TaskView;

    open spec fn view(&self) -> TaskView {
        TaskView {
            id: self.id@,
            name: self.name@,
            status: self.status@,
            list_name: self.list_name@,
            due_date: self.due_date,
            priority: self.priority,
            url: self.url@,
            tags: self.tags@.map_values(|t: String| t@),
            description: opt_view(self.description),
            custom_item_id: self.custom_item_id,
            custom_id: opt_view(self.custom_id),
            parent_id: opt_view(self.parent_id),
            assignee_ids: self.assignee_ids@,
        }
    }
}

fn clone_strings(v: &Vec<String>) -> (r: Vec<String>)
    ensures
        r@ == v@,
{
    let mut r: Vec<String> = Vec::new();
    for i in 0..v.len()
        invariant
            r@ == v@.take(i as int),
    {
        r.push(v[i].clone());
        assert(r@ =~= v@.take(i + 1));
    }
    assert(v@.take(v.len() as int) =~= v@);
    r
}

fn clone_opt_string(o: &Option<String>) -> (r: Option<String>)
    ensures
        r == *o,
{
    match o {
        Some(s) => Some(s.clone()),
        None => None,
    }
}

impl Clone for Task {
    fn clone(&self) -> (r: Self)
        ensures
            r@ == self@,
    {
        let ids = self.assignee_ids.clone();
        assert(ids@ =~= self.assignee_ids@);
        let tags = clone_strings(&self.tags);
        assert(tags@.map_values(|t: String| t@) =~= self.tags@.map_values(|t: String| t@));
        Task {
            id: self.id.clone(),
            name: self.name.clone(),
            status: self.status.clone(),
            list_name: self.list_name.clone(),
            due_date: self.due_date,
            priority: self.priority,
            url: self.url.clone(),
            tags,
            description: clone_opt_string(&self.description),
            custom_item_id: self.custom_item_id,
            custom_id: clone_opt_string(&self.custom_id),
            parent_id: clone_opt_string(&self.parent_id),
            assignee_ids: ids,
        }
    }
}

/// A task of this type stands for a person or role.
pub open spec fn is_person(t: TaskView) -> bool {
    t.custom_item_id == Some(PERSON_ITEM_ID)
}

/// The task passes the assignment filter: no filter, or the user is assigned.
pub open spec fn passes_user(t: TaskView, user: Option<u64>) -> bool {
    match user {
        Some(u) => t.assignee_ids.contains(u),
        None => true,
    }
}

/// Label of a priority level.
pub open spec fn priority_name(p: Option<u8>) -> Option<Seq<char>> {
    match p {
        Some(1) => Some("Urgent"@),
        Some(2) => Some("High"@),
        Some(3) => Some("Normal"@),
        Some(4) => Some("Low"@),
        _ => None,
    }
}

/// Label of a custom task type.
pub open spec fn kind_name(id: Option<u32>) -> Option<Seq<char>> {
    match id {
        Some(0) => Some("Task"@),
        Some(1004) => Some("Bug"@),
        Some(1005) => Some("Milestone"@),
        Some(1006) => Some("Feature"@),
        Some(1007) => Some("Epic"@),
        Some(1008) => Some("Story"@),
        Some(1009) => Some("Spike"@),
        Some(1020) => Some("Person"@),
        Some(_) => Some("Custom"@),
        None => None,
    }
}

/// The text of an optional static string.
pub open spec fn opt_str_view(o: Option<&'static str>) -> Option<Seq<char>> {
    match o {
        Some(s) => Some(s@),
        None => None,
    }
}

impl Task {
    /// Category of the task by its status alone.
    pub fn group(&self) -> (r: TaskGroup)
        ensures
            r == status_category(self.status@),
    {
        status_to_group(self.status.as_str())
    }

    /// Label of the task's priority, if it has one of the four levels.
    pub fn priority_label(&self) -> (r: Option<&'static str>)
        ensures
            opt_str_view(r) == priority_name(self.priority),
    {
        match self.priority {
            Some(1) => Some("Urgent"),
            Some(2) => Some("High"),
            Some(3) => Some("Normal"),
            Some(4) => Some("Low"),
            _ => None,
        }
    }

    /// Whether the task has a parent.
    pub fn is_subtask(&self) -> (r: bool)
        ensures
            r == (self.parent_id is Some),
    {
        self.parent_id.is_some()
    }

    /// Whether the user is among the task's assignees.
    pub fn is_assigned_to(&self, user_id: u64) -> (r: bool)
        ensures
            r == self.assignee_ids@.contains(user_id),
    {
        let mut i: usize = 0;
        while i < self.assignee_ids.len()
            invariant
                i <= self.assignee_ids.len(),
                forall|k: int| 0 <= k < i ==> self.assignee_ids@[k] != user_id,
            decreases self.assignee_ids.len() - i,
        {
            if self.assignee_ids[i] == user_id {
                assert(self.assignee_ids@[i as int] == user_id);
                return true;
            }
            i = i + 1;
        }
        false
    }

    /// Label of the task's custom type, if it has one.
    pub fn task_type_label(&self) -> (r: Option<&'static str>)
        ensures
            opt_str_view(r) == kind_name(self.custom_item_id),
    {
        match self.custom_item_id {
            Some(0) => Some("Task"),
            Some(1004) => Some("Bug"),
            Some(1005) => Some("Milestone"),
            Some(1006) => Some("Feature"),
            Some(1007) => Some("Epic"),
            Some(1008) => Some("Story"),
            Some(1009) => Some("Spike"),
            Some(1020) => Some("Person"),
            Some(_) => Some("Custom"),
            None => None,
        }
    }
}

/// Local annotations of a task, kept apart from the remote data.
#[derive(Debug, Clone, Copy, PartialEq, Eq, Structural)]
pub struct TaskOverlay {
    /// Whether the task is pinned.
    pub pinned: bool,
    /// End of the snooze, in milliseconds since the Unix epoch.
    pub snoozed_until: Option<i64>,
    /// Custom order within a group; kept, not used by any rule.
    pub sort_order: Option<u32>,
}

/// The overlay of a task that has none stored.
pub open spec fn default_overlay() -> TaskOverlay {
    TaskOverlay { pinned: false, snoozed_until: None, sort_order: None }
}

impl Default for TaskOverlay {
    fn default() -> (r: Self)
        ensures
            r == default_overlay(),
    {
        TaskOverlay { pinned: false, snoozed_until: None, sort_order: None }
    }
}

/// The overlay of a task in a store of overlays: the stored one, or the default.
pub open spec fn overlay_in(m: Map<Seq<char>, TaskOverlay>, id: Seq<char>) -> TaskOverlay {
    if m.contains_key(id) {
        m[id]
    } else {
        default_overlay()
    }
}

/// `ids` lists the keys of `m`, each once.
spec fn ids_list_keys(m: Map<Seq<char>, TaskOverlay>, ids: Seq<String>) -> bool {
    &&& forall|i: int| 0 <= i < ids.len() ==> m.contains_key(#[trigger] ids[i]@)
    &&& forall|k: Seq<char>| #[trigger] m.contains_key(k) ==> exists|i: int|
        0 <= i < ids.len() && ids[i]@ == k
    &&& forall|i: int, j: int| 0 <= i < j < ids.len() ==> ids[i]@ != ids[j]@
}

/// Overlays keyed by task id, with the ids kept in insertion order.
pub struct OverlayStore {
    map: StringHashMap<TaskOverlay>,
    ids: Vec<String>,
}

impl View for OverlayStore {
    type V = Map<Seq<char>, TaskOverlay>;

    closed spec fn view(&self) -> Map<Seq<char>, TaskOverlay> {
        self.map@
    }
}

impl OverlayStore {
    #[verifier::type_invariant]
    closed spec fn keys_listed(&self) -> bool {
        ids_list_keys(self.map@, self.ids@)
    }

    /// An empty store.
    pub fn new() -> (r: Self)
        ensures
            r@ == Map::<Seq<char>, TaskOverlay>::empty(),
    {
        OverlayStore { map: StringHashMap::new(), ids: Vec::new() }
    }

    /// The stored overlay of a task, or the default one.
    pub fn get(&self, task_id: &str) -> (r: TaskOverlay)
        ensures
            r == overlay_in(self@, task_id@),
    {
        match self.map.get(task_id) {
            Some(o) => *o,
            None => TaskOverlay::default(),
        }
    }

    /// Whether an overlay is stored for the task.
    pub fn contains(&self, task_id: &str) -> (r: bool)
        ensures
            r == self@.contains_key(task_id@),
    {
        self.map.contains_key(task_id)
    }

    /// Stores the overlay of a task, replacing any earlier one.
    pub fn set(&mut self, task_id: &str, overlay: TaskOverlay)
        ensures
            final(self)@ == old(self)@.insert(task_id@, overlay),
    {
        let mut taken = OverlayStore::new();
        std::mem::swap(self, &mut taken);
        proof {
            use_type_invariant(&taken);
        }
        let OverlayStore { mut map, mut ids } = taken;
        let ghost old_ids = ids@;
        let ghost old_map = map@;
        if !map.contains_key(task_id) {
            let id = task_id.to_string();
            assert(id@ == task_id@);
            ids.push(id);
        }
        map.insert(task_id.to_string(), overlay);
        proof {
            assert forall|k: Seq<char>| #[trigger] map@.contains_key(k) implies exists|i: int|
                0 <= i < ids@.len() && ids@[i]@ == k by {
                if k == task_id@ {
                    if !old(self)@.contains_key(k) {
                        assert(ids@[ids@.len() - 1]@ == k);
                    }
                } else {
                    assert(old_map.contains_key(k));
                    let i = choose|i: int| 0 <= i < old_ids.len() && old_ids[i]@ == k;
                    assert(ids@[i] == old_ids[i]);
                }
            }
            assert forall|i: int| 0 <= i < ids@.len() implies map@.contains_key(#[trigger] ids@[i]@) by {
                if i < old_ids.len() {
                    assert(ids@[i] == old_ids[i]);
                }
            }
            assert forall|i: int, j: int| 0 <= i < j < ids@.len() implies ids@[i]@ != ids@[j]@ by {
                if j < old_ids.len() {
                    assert(ids@[i] == old_ids[i]);
                    assert(ids@[j] == old_ids[j]);
                } else {
                    assert(ids@[i] == old_ids[i]);
                    assert(old_map.contains_key(old_ids[i]@));
                }
            }
        }
        assert(ids_list_keys(map@, ids@));
        *self = OverlayStore { map, ids };
    }

    /// The stored overlays with their task ids, in the order the ids were
    /// first stored.
    pub fn entries(&self) -> (r: Vec<(String, TaskOverlay)>)
        ensures
            r@.len() == self@.len(),
            forall|i: int| 0 <= i < r@.len() ==> #[trigger] self@.contains_key(r@[i].0@)
                && self@[r@[i].0@] == r@[i].1,
            forall|k: Seq<char>| #[trigger] self@.contains_key(k) ==> exists|i: int|
                0 <= i < r@.len() && r@[i].0@ == k,
    {
        proof {
            use_type_invariant(self);
        }
        let mut r: Vec<(String, TaskOverlay)> = Vec::new();
        for i in 0..self.ids.len()
            invariant
                r@.len() == i,
                forall|j: int| 0 <= j < i ==> (#[trigger] r@[j]).0@ == self.ids@[j]@
                    && self.map@[self.ids@[j]@] == r@[j].1,
                ids_list_keys(self.map@, self.ids@),
        {
            let o = self.get(self.ids[i].as_str());
            assert(self.map@.contains_key(self.ids@[i as int]@));
            r.push((self.ids[i].clone(), o));
            assert(r@[i as int].0@ == self.ids@[i as int]@);
        }
        proof {
            assert forall|k: Seq<char>| #[trigger] self@.contains_key(k) implies exists|i: int|
                0 <= i < r@.len() && r@[i].0@ == k by {
                let i = choose|i: int| 0 <= i < self.ids@.len() && self.ids@[i]@ == k;
                assert(r@[i].0@ == self.ids@[i]@);
            }
            assert(self.ids@.map_values(|s: String| s@).to_set() =~= self.map@.dom()) by {
                assert forall|k: Seq<char>| self.map@.dom().contains(k) implies
                    self.ids@.map_values(|s: String| s@).to_set().contains(k) by {
                    let i = choose|i: int| 0 <= i < self.ids@.len() && self.ids@[i]@ == k;
                    assert(self.ids@.map_values(|s: String| s@)[i] == k);
                }
            }
            assert(self.ids@.map_values(|s: String| s@).no_duplicates());
            self.ids@.map_values(|s: String| s@).unique_seq_to_set();
        }
        r
    }
}

/// Overlays of all tasks and the time of the last refresh: what is kept on
/// this machine between sessions.
pub struct LocalState {
    /// Overlays keyed by task id.
    pub overlays: OverlayStore,
    /// Time of the last refresh, in milliseconds since the Unix epoch.
    pub last_refresh: Option<i64>,
}

impl Default for LocalState {
    fn default() -> (r: Self)
        ensures
            r.overlays@ == Map::<Seq<char>, TaskOverlay>::empty(),
            r.last_refresh is None,
    {
        LocalState { overlays: OverlayStore::new(), last_refresh: None }
    }
}

impl LocalState {
    /// The overlay of a task, or the default one.
    pub fn get_overlay(&self, task_id: &str) -> (r: TaskOverlay)
        ensures
            r == overlay_in(self.overlays@, task_id@),
    {
        self.overlays.get(task_id)
    }

    /// Flips the pin of a task.
    pub fn toggle_pin(&mut self, task_id: &str)
        ensures
            final(self).overlays@ == old(self).overlays@.insert(
                task_id@,
                TaskOverlay {
                    pinned: !overlay_in(old(self).overlays@, task_id@).pinned,
                    ..overlay_in(old(self).overlays@, task_id@)
                },
            ),
            final(self).last_refresh == old(self).last_refresh,
    {
        let mut o = self.overlays.get(task_id);
        o.pinned = !o.pinned;
        self.overlays.set(task_id, o);
    }

    /// Snoozes a task until the given time (milliseconds since the Unix epoch).
    pub fn snooze(&mut self, task_id: &str, until: i64)
        ensures
            final(self).overlays@ == old(self).overlays@.insert(
                task_id@,
                TaskOverlay { snoozed_until: Some(until), ..overlay_in(old(self).overlays@, task_id@) },
            ),
            final(self).last_refresh == old(self).last_refresh,
    {
        let mut o = self.overlays.get(task_id);
        o.snoozed_until = Some(until);
        self.overlays.set(task_id, o);
    }

    /// Ends the snooze of a task; a task with no stored overlay is left alone.
    pub fn unsnooze(&mut self, task_id: &str)
        ensures
            old(self).overlays@.contains_key(task_id@) ==> final(self).overlays@
                == old(self).overlays@.insert(
                task_id@,
                TaskOverlay { snoozed_until: None, ..old(self).overlays@[task_id@] },
            ),
            !old(self).overlays@.contains_key(task_id@) ==> final(self).overlays@
                == old(self).overlays@,
            final(self).last_refresh == old(self).last_refresh,
    {
        if self.overlays.contains(task_id) {
            let mut o = self.overlays.get(task_id);
            o.snoozed_until = None;
            self.overlays.set(task_id, o);
        }
    }

    /// Whether the task is pinned.
    pub fn is_pinned(&self, task_id: &str) -> (r: bool)
        ensures
            r == overlay_in(self.overlays@, task_id@).pinned,
    {
        self.overlays.get(task_id).pinned
    }
}

/// Relies on chrono's `Utc::now`, read as milliseconds since the Unix epoch
/// by `DateTime::timestamp_millis`. Nothing is known of the value.
#[verifier::external_body]
pub(crate) fn now_millis() -> (r: i64) {
    chrono::Utc::now().timestamp_millis()
}

/// The snooze of the overlay is still running at `now`.
pub open spec fn snoozed_at(o: TaskOverlay, now: i64) -> bool {
    match o.snoozed_until {
        Some(u) => u > now,
        None => false,
    }
}

/// The category of a task with its overlay at time `now`: person tasks
/// always, then a running snooze, then the status.
pub open spec fn category(t: TaskView, o: TaskOverlay, now: i64) -> TaskGroup {
    if is_person(t) {
        TaskGroup::Person
    } else if snoozed_at(o, now) {
        TaskGroup::Snoozed
    } else {
        status_category(t.status)
    }
}

/// A task paired with its overlay, for display.
pub struct DisplayTask {
    pub task: Task,
    pub overlay: TaskOverlay,
}

impl View for DisplayTask {
    type V = (TaskView, TaskOverlay);

    open spec fn view(&self) -> (TaskView, TaskOverlay) {
        (self.task@, self.overlay)
    }
}

impl Clone for DisplayTask {
    fn clone(&self) -> (r: Self)
        ensures
            r@ == self@,
    {
        DisplayTask { task: self.task.clone(), overlay: self.overlay }
    }
}

impl DisplayTask {
    /// Pairs a task with its overlay.
    pub fn new(task: Task, overlay: TaskOverlay) -> (r: Self)
        ensures
            r.task == task,
            r.overlay == overlay,
    {
        DisplayTask { task, overlay }
    }

    /// The category of a task with its overlay at time `now` (milliseconds
    /// since the Unix epoch): person tasks always, then a running snooze,
    /// then the status.
    pub(crate) fn effective_group_of(task: &Task, overlay: &TaskOverlay, now: i64) -> (r: TaskGroup)
        ensures
            r == category(task@, *overlay, now),
    {
        if task.custom_item_id == Some(PERSON_ITEM_ID) {
            return TaskGroup::Person;
        }
        let snoozed = match overlay.snoozed_until {
            Some(u) => u > now,
            None => false,
        };
        if snoozed {
            TaskGroup::Snoozed
        } else {
            task.group()
        }
    }

    /// The effective category at the given time (milliseconds since the Unix
    /// epoch): person tasks always, then a running snooze, then the status.
    pub fn effective_group_at(&self, now: i64) -> (r: TaskGroup)
        ensures
            r == category(self.task@, self.overlay, now),
            is_person(self.task@) ==> r == TaskGroup::Person,
    {
        Self::effective_group_of(&self.task, &self.overlay, now)
    }

    /// The effective category now.
    pub fn effective_group(&self) -> (r: TaskGroup)
        ensures
            is_person(self.task@) ==> r == TaskGroup::Person,
            !is_person(self.task@) ==> r == TaskGroup::Snoozed || r == status_category(
                self.task.status@,
            ),
            !is_person(self.task@) && self.overlay.snoozed_until is None ==> r == status_category(
                self.task.status@,
            ),
    {
        let now = now_millis();
        self.effective_group_at(now)
    }
}

} // verus!
