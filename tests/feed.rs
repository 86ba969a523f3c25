use clickup_tui::feed::{list_depths, missing_parent_ids, status_tone, tone_of_lowercase, StatusTone};
use clickup_tui::models::{DisplayTask, Task, TaskOverlay};

fn task(id: &str, parent: Option<&str>) -> Task {
    Task {
        id: id.to_string(),
        name: id.to_string(),
        status: "open".to_string(),
        list_name: "List".to_string(),
        due_date: None,
        priority: None,
        url: String::new(),
        tags: vec![],
        description: None,
        custom_item_id: None,
        custom_id: None,
        parent_id: parent.map(|p| p.to_string()),
        assignee_ids: vec![],
    }
}

#[test]
fn missing_parents_once_each_in_first_mention_order() {
    let tasks = vec![
        task("a", Some("x")),
        task("b", Some("a")),
        task("c", Some("y")),
        task("d", Some("x")),
        task("e", None),
    ];
    assert_eq!(missing_parent_ids(&tasks), vec!["x".to_string(), "y".to_string()]);
    assert!(missing_parent_ids(&vec![]).is_empty());
}

#[test]
fn depths_count_visible_ancestors() {
    let list: Vec<DisplayTask> = vec![
        task("r", None),
        task("c", Some("r")),
        task("g", Some("c")),
        task("o", Some("gone")),
    ]
    .into_iter()
    .map(|t| DisplayTask::new(t, TaskOverlay::default()))
    .collect();
    assert_eq!(list_depths(&list), vec![0, 1, 2, 0]);
}

#[test]
fn depths_stop_on_a_cycle() {
    let list: Vec<DisplayTask> = vec![task("a", Some("b")), task("b", Some("a"))]
        .into_iter()
        .map(|t| DisplayTask::new(t, TaskOverlay::default()))
        .collect();
    assert_eq!(list_depths(&list), vec![1, 1]);
}

#[test]
fn status_tones() {
    assert_eq!(status_tone("In Review"), StatusTone::InProgress);
    assert_eq!(status_tone("TODO"), StatusTone::Todo);
    assert_eq!(status_tone("blocked"), StatusTone::Blocked);
    assert_eq!(status_tone("validation"), StatusTone::Validate);
    assert_eq!(status_tone("Released"), StatusTone::Done);
    assert_eq!(status_tone("canceled"), StatusTone::Cancelled);
    assert_eq!(status_tone("closed"), StatusTone::Plain);
}

#[test]
fn lowercase_tones() {
    assert_eq!(tone_of_lowercase("testing"), StatusTone::Testing);
    assert_eq!(tone_of_lowercase("backlog"), StatusTone::Backlog);
    assert_eq!(tone_of_lowercase("Backlog"), StatusTone::Plain);
}
