use clickup_tui::models::{
    group_of_lowercase, status_to_group, DisplayTask, LocalState, Task, TaskGroup, TaskOverlay, PERSON_ITEM_ID,
};

fn task(id: &str, status: &str) -> Task {
    Task {
        id: id.to_string(),
        name: format!("Task {}", id),
        status: status.to_string(),
        list_name: "List".to_string(),
        due_date: None,
        priority: None,
        url: format!("https://example.com/{}", id),
        tags: vec![],
        description: None,
        custom_item_id: None,
        custom_id: None,
        parent_id: None,
        assignee_ids: vec![],
    }
}

#[test]
fn groups_in_tab_order() {
    let all = TaskGroup::all();
    assert_eq!(all.len(), 6);
    for (i, g) in all.iter().enumerate() {
        assert_eq!(g.index(), i);
        assert_eq!(TaskGroup::from_index(i), Some(*g));
    }
    assert_eq!(TaskGroup::from_index(6), None);
    assert_eq!(TaskGroup::MyAction.label(), "My Action");
    assert_eq!(TaskGroup::Person.label(), "Person");
}

#[test]
fn status_labels_map_to_groups() {
    assert_eq!(status_to_group("in progress"), TaskGroup::MyAction);
    assert_eq!(status_to_group("to-do"), TaskGroup::MyAction);
    assert_eq!(status_to_group("to review"), TaskGroup::MyAction);
    assert_eq!(status_to_group("blocked"), TaskGroup::Waiting);
    assert_eq!(status_to_group("pending review"), TaskGroup::Waiting);
    assert_eq!(status_to_group("open"), TaskGroup::Backlog);
    assert_eq!(status_to_group("won't do"), TaskGroup::Done);
    assert_eq!(status_to_group("for reference"), TaskGroup::Done);
    assert_eq!(status_to_group("something else"), TaskGroup::Backlog);
    assert_eq!(status_to_group(""), TaskGroup::Backlog);
}

#[test]
fn status_labels_ignore_case() {
    assert_eq!(status_to_group("IN PROGRESS"), TaskGroup::MyAction);
    assert_eq!(status_to_group("Done"), TaskGroup::Done);
    assert_eq!(status_to_group("Blocked"), TaskGroup::Waiting);
}

#[test]
fn task_labels() {
    let mut t = task("a", "open");
    assert_eq!(t.priority_label(), None);
    t.priority = Some(1);
    assert_eq!(t.priority_label(), Some("Urgent"));
    t.priority = Some(4);
    assert_eq!(t.priority_label(), Some("Low"));
    t.priority = Some(5);
    assert_eq!(t.priority_label(), None);
    assert_eq!(t.task_type_label(), None);
    t.custom_item_id = Some(1004);
    assert_eq!(t.task_type_label(), Some("Bug"));
    t.custom_item_id = Some(PERSON_ITEM_ID);
    assert_eq!(t.task_type_label(), Some("Person"));
    t.custom_item_id = Some(77);
    assert_eq!(t.task_type_label(), Some("Custom"));
    assert_eq!(t.group(), TaskGroup::Backlog);
}

#[test]
fn subtask_and_assignment() {
    let mut t = task("a", "open");
    assert!(!t.is_subtask());
    t.parent_id = Some("p".to_string());
    assert!(t.is_subtask());
    t.assignee_ids = vec![3, 9];
    assert!(t.is_assigned_to(9));
    assert!(!t.is_assigned_to(4));
}

#[test]
fn overlays_toggle_snooze_unsnooze() {
    let mut s = LocalState::default();
    assert!(!s.is_pinned("a"));
    assert_eq!(s.get_overlay("a"), TaskOverlay::default());
    s.toggle_pin("a");
    assert!(s.is_pinned("a"));
    s.snooze("a", 500);
    assert_eq!(s.get_overlay("a").snoozed_until, Some(500));
    assert!(s.get_overlay("a").pinned);
    s.unsnooze("a");
    assert_eq!(s.get_overlay("a").snoozed_until, None);
    s.unsnooze("b");
    assert!(!s.overlays.contains("b"));
    s.toggle_pin("a");
    assert!(!s.is_pinned("a"));
    let entries = s.overlays.entries();
    assert_eq!(entries.len(), 1);
    assert_eq!(entries[0].0, "a");
}

#[test]
fn effective_group_follows_snooze() {
    let t = task("a", "done");
    let mut o = TaskOverlay::default();
    o.snoozed_until = Some(1_000);
    let d = DisplayTask::new(t, o);
    assert_eq!(d.effective_group_at(999), TaskGroup::Snoozed);
    assert_eq!(d.effective_group_at(1_000), TaskGroup::Done);
    // A snooze that ended long ago no longer applies now.
    assert_eq!(d.effective_group(), TaskGroup::Done);
    let mut far = d.clone();
    far.overlay.snoozed_until = Some(i64::MAX);
    assert_eq!(far.effective_group(), TaskGroup::Snoozed);
}

#[test]
fn person_task_effective_group_is_person() {
    let mut t = task("p", "done");
    t.custom_item_id = Some(PERSON_ITEM_ID);
    let mut o = TaskOverlay::default();
    o.snoozed_until = Some(i64::MAX);
    let d = DisplayTask::new(t, o);
    assert_eq!(d.effective_group_at(0), TaskGroup::Person);
    assert_eq!(d.effective_group(), TaskGroup::Person);
}

#[test]
fn lowercase_labels_map_to_groups() {
    assert_eq!(group_of_lowercase("in progress"), TaskGroup::MyAction);
    assert_eq!(group_of_lowercase("validation"), TaskGroup::Waiting);
    assert_eq!(group_of_lowercase("wontdo"), TaskGroup::Done);
    assert_eq!(group_of_lowercase("new"), TaskGroup::Backlog);
    // Already lowercase is assumed: other case is an unknown label.
    assert_eq!(group_of_lowercase("Done"), TaskGroup::Backlog);
}
