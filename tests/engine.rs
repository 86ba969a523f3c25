use clickup_tui::models::{DisplayTask, OverlayStore, Task, TaskGroup, TaskOverlay, PERSON_ITEM_ID};
use clickup_tui::order::sort_hierarchy;
use clickup_tui::search::{fuzzy_score, fuzzy_score_lowered, search, search_lowered};
use clickup_tui::workset::{build_set, classify, counts};

fn task(id: &str, status: &str, parent: Option<&str>, assignees: Vec<u64>) -> Task {
    Task {
        id: id.to_string(),
        name: format!("Task {}", id),
        status: status.to_string(),
        list_name: "List".to_string(),
        due_date: None,
        priority: None,
        url: format!("https://example.com/{}", id),
        tags: vec![],
        description: None,
        custom_item_id: None,
        custom_id: None,
        parent_id: parent.map(|p| p.to_string()),
        assignee_ids: assignees,
    }
}

fn named(id: &str, name: &str) -> Task {
    let mut t = task(id, "open", None, vec![]);
    t.name = name.to_string();
    t
}

fn ids(v: &[DisplayTask]) -> Vec<String> {
    v.iter().map(|d| d.task.id.clone()).collect()
}

fn chars(s: &str) -> Vec<char> {
    s.chars().collect()
}

#[test]
fn person_task_is_always_person() {
    let mut t = task("p", "done", None, vec![]);
    t.custom_item_id = Some(PERSON_ITEM_ID);
    let mut o = TaskOverlay::default();
    o.snoozed_until = Some(10_000);
    assert_eq!(classify(&t, &o, 0), TaskGroup::Person);
    assert_eq!(classify(&t, &TaskOverlay::default(), 0), TaskGroup::Person);
}

#[test]
fn classification_by_status() {
    let o = TaskOverlay::default();
    assert_eq!(classify(&task("a", "In Progress", None, vec![]), &o, 0), TaskGroup::MyAction);
    assert_eq!(classify(&task("a", "testing", None, vec![]), &o, 0), TaskGroup::Waiting);
    assert_eq!(classify(&task("a", "mystery", None, vec![]), &o, 0), TaskGroup::Backlog);
    assert_eq!(classify(&task("a", "shipped", None, vec![]), &o, 0), TaskGroup::Done);
}

#[test]
fn snooze_overrides_done_until_it_ends() {
    let t = task("a", "done", None, vec![]);
    let mut o = TaskOverlay::default();
    o.snoozed_until = Some(5_000);
    assert_eq!(classify(&t, &o, 4_999), TaskGroup::Snoozed);
    assert_eq!(classify(&t, &o, 5_000), TaskGroup::Done);
    assert_eq!(classify(&t, &o, 6_000), TaskGroup::Done);
}

#[test]
fn ancestor_walk_stops_above_unassigned_parent() {
    // A -> B -> C, C is the root; B is not assigned to user 1.
    let tasks = vec![
        task("C", "backlog", None, vec![1]),
        task("B", "backlog", Some("C"), vec![2]),
        task("A", "in progress", Some("B"), vec![1]),
    ];
    let r = build_set(&tasks, &OverlayStore::new(), 0, TaskGroup::MyAction, Some(1), "");
    assert_eq!(ids(&r), vec!["B".to_string(), "A".to_string()]);
}

#[test]
fn ancestors_without_user_filter_reach_root() {
    let tasks = vec![
        task("C", "backlog", None, vec![1]),
        task("B", "backlog", Some("C"), vec![2]),
        task("A", "in progress", Some("B"), vec![1]),
    ];
    let r = build_set(&tasks, &OverlayStore::new(), 0, TaskGroup::MyAction, None, "");
    assert_eq!(ids(&r), vec!["C".to_string(), "B".to_string(), "A".to_string()]);
}

#[test]
fn parent_cycle_terminates_with_each_task_once() {
    let tasks = vec![
        task("A", "in progress", Some("B"), vec![]),
        task("B", "in progress", Some("A"), vec![]),
    ];
    let r = build_set(&tasks, &OverlayStore::new(), 0, TaskGroup::MyAction, None, "");
    let mut got = ids(&r);
    got.sort();
    assert_eq!(got, vec!["A".to_string(), "B".to_string()]);
}

#[test]
fn text_filter_matches_fields_without_case() {
    let mut a = task("a", "to do", None, vec![]);
    a.name = "Write Report".to_string();
    let mut b = task("b", "to do", None, vec![]);
    b.description = Some("needs a REPORT too".to_string());
    let c = task("c", "to do", None, vec![]);
    let tasks = vec![a, b, c];
    let r = build_set(&tasks, &OverlayStore::new(), 0, TaskGroup::MyAction, None, "report");
    assert_eq!(ids(&r), vec!["a".to_string(), "b".to_string()]);
}

#[test]
fn person_category_takes_person_tasks_only() {
    let mut p = task("p", "done", None, vec![]);
    p.custom_item_id = Some(PERSON_ITEM_ID);
    let d = task("d", "done", None, vec![]);
    let tasks = vec![p, d];
    let persons = build_set(&tasks, &OverlayStore::new(), 0, TaskGroup::Person, None, "");
    assert_eq!(ids(&persons), vec!["p".to_string()]);
    let done = build_set(&tasks, &OverlayStore::new(), 0, TaskGroup::Done, None, "");
    assert_eq!(ids(&done), vec!["d".to_string()]);
}

#[test]
fn snoozed_task_shows_under_snoozed() {
    let tasks = vec![task("a", "to do", None, vec![])];
    let mut store = OverlayStore::new();
    let mut o = TaskOverlay::default();
    o.snoozed_until = Some(100);
    store.set("a", o);
    let r = build_set(&tasks, &store, 50, TaskGroup::Snoozed, None, "");
    assert_eq!(ids(&r), vec!["a".to_string()]);
    assert_eq!(r[0].overlay.snoozed_until, Some(100));
    let r = build_set(&tasks, &store, 50, TaskGroup::MyAction, None, "");
    assert!(r.is_empty());
}

fn entry(id: &str, parent: Option<&str>, priority: Option<u8>) -> DisplayTask {
    let mut t = task(id, "open", parent, vec![]);
    t.priority = priority;
    DisplayTask::new(t, TaskOverlay::default())
}

#[test]
fn families_by_root_priority_then_root_then_depth_then_id() {
    let set = vec![
        entry("z1", Some("z"), Some(4)),
        entry("m", None, None),
        entry("z", None, Some(1)),
        entry("b", None, Some(2)),
        entry("a", None, Some(2)),
        entry("z0", Some("z"), None),
        entry("z00", Some("z0"), Some(1)),
    ];
    let r = sort_hierarchy(set);
    assert_eq!(
        ids(&r),
        vec!["z", "z0", "z1", "z00", "a", "b", "m"].into_iter().map(String::from).collect::<Vec<_>>()
    );
}

#[test]
fn sorting_a_shuffled_set_gives_the_same_order() {
    let make = |order: &[usize]| -> Vec<DisplayTask> {
        let all = vec![
            entry("r", None, Some(3)),
            entry("c2", Some("r"), None),
            entry("c1", Some("r"), Some(1)),
            entry("q", None, Some(3)),
            entry("x", None, None),
        ];
        order.iter().map(|&i| all[i].clone()).collect()
    };
    let first = ids(&sort_hierarchy(make(&[0, 1, 2, 3, 4])));
    let second = ids(&sort_hierarchy(make(&[4, 2, 3, 0, 1])));
    assert_eq!(first, second);
    assert_eq!(
        first,
        vec!["q", "r", "c1", "c2", "x"].into_iter().map(String::from).collect::<Vec<_>>()
    );
}

#[test]
fn fuzzy_subsequence_matches() {
    let q = chars("tc");
    assert!(fuzzy_score("Task Create", &q).is_some());
    assert!(fuzzy_score("Card", &q).is_none());
    assert_eq!(fuzzy_score("anything", &chars("")), Some(0));
}

#[test]
fn fuzzy_scores_exact_values() {
    // t at 0: 1 + 10; c at 5 after a space: 1 + 10.
    assert_eq!(fuzzy_score("Task Create", &chars("tc")), Some(22));
    // t at 1, c at 4: 1 + 1, no word starts, not consecutive.
    assert_eq!(fuzzy_score("xtycx", &chars("tc")), Some(2));
    // t at 0 (11), a right after it (1 + 5).
    assert_eq!(fuzzy_score_lowered(&chars("task"), &chars("ta")), Some(17));
}

#[test]
fn word_starts_score_higher() {
    let q = chars("tc");
    let words = fuzzy_score("Task Create", &q).unwrap();
    let inner = fuzzy_score("xtycx", &q).unwrap();
    assert!(words > inner);
}

#[test]
fn word_start_needs_a_non_alphanumeric_before() {
    // 'c' after '-' starts a word; after 'x' it does not.
    assert_eq!(fuzzy_score_lowered(&chars("a-c"), &chars("c")), Some(11));
    assert_eq!(fuzzy_score_lowered(&chars("axc"), &chars("c")), Some(1));
}

#[test]
fn fuzzy_field_is_lowercased() {
    assert_eq!(fuzzy_score("TC", &chars("tc")), Some(17));
    assert_eq!(fuzzy_score_lowered(&chars("TC"), &chars("tc")), None);
}

#[test]
fn empty_query_finds_nothing() {
    let tasks = vec![named("a", "alpha"), named("b", "beta")];
    assert!(search(&tasks, &OverlayStore::new(), "").is_empty());
}

#[test]
fn search_ranks_by_score_then_input_order() {
    let tasks = vec![
        named("1", "xtycx"),
        named("2", "Task Create"),
        named("3", "nothing here"),
        named("4", "ytxcz"),
        named("5", "tc"),
    ];
    let r = search(&tasks, &OverlayStore::new(), "TC");
    // "tc": 11 + 6 = 17; "Task Create": 22; "xtycx" and "ytxcz": 2 each.
    assert_eq!(ids(&r), vec!["2", "5", "1", "4"].into_iter().map(String::from).collect::<Vec<_>>());
}

#[test]
fn search_uses_first_matching_field() {
    let mut a = named("a", "zzz");
    a.tags = vec!["other".to_string(), "team-core".to_string()];
    let mut b = named("b", "zzz");
    b.list_name = "Core work".to_string();
    let tasks = vec![a, b];
    let r = search_lowered(&tasks, &OverlayStore::new(), &chars("core"));
    // b matches in its list name from a word start (11 + 6 + 6 + 6 = 29);
    // a in its second tag, after '-' (29 too): input order decides.
    assert_eq!(ids(&r), vec!["a".to_string(), "b".to_string()]);
}

#[test]
fn counts_add_up_to_all_tasks() {
    let mut p = task("p", "open", None, vec![]);
    p.custom_item_id = Some(PERSON_ITEM_ID);
    let tasks = vec![
        task("a", "to do", None, vec![]),
        task("b", "blocked", None, vec![]),
        task("c", "backlog", None, vec![]),
        task("d", "done", None, vec![]),
        task("e", "done", None, vec![]),
        p,
    ];
    let mut store = OverlayStore::new();
    let mut o = TaskOverlay::default();
    o.snoozed_until = Some(100);
    store.set("e", o);
    let c = counts(&tasks, &store, 0);
    let got: Vec<usize> = c.iter().map(|x| x.1).collect();
    assert_eq!(got, vec![1, 1, 1, 1, 1, 1]);
    assert_eq!(c[4].0, TaskGroup::Snoozed);
    assert_eq!(got.iter().sum::<usize>(), tasks.len());
}

#[test]
fn working_set_ignores_input_order() {
    let make = |order: &[usize]| -> Vec<Task> {
        let mut all = vec![
            task("r", "backlog", None, vec![]),
            task("c1", "to do", Some("r"), vec![]),
            task("c2", "in progress", Some("r"), vec![]),
            task("q", "to do", None, vec![]),
            task("g", "review", Some("c1"), vec![]),
        ];
        all[3].priority = Some(2);
        order.iter().map(|&i| all[i].clone()).collect()
    };
    let store = OverlayStore::new();
    let first = build_set(&make(&[0, 1, 2, 3, 4]), &store, 0, TaskGroup::MyAction, None, "");
    let second = build_set(&make(&[4, 3, 2, 1, 0]), &store, 0, TaskGroup::MyAction, None, "");
    assert_eq!(ids(&first), ids(&second));
    assert_eq!(
        ids(&first),
        vec!["q", "r", "c1", "c2", "g"].into_iter().map(String::from).collect::<Vec<_>>()
    );
}

#[test]
fn long_cycle_and_missing_parents_stay_within_input() {
    let tasks = vec![
        task("a", "to do", Some("b"), vec![]),
        task("b", "to do", Some("c"), vec![]),
        task("c", "to do", Some("a"), vec![]),
        task("d", "to do", Some("nowhere"), vec![]),
    ];
    let r = build_set(&tasks, &OverlayStore::new(), 0, TaskGroup::MyAction, None, "");
    let mut got = ids(&r);
    got.sort();
    assert_eq!(got, vec!["a", "b", "c", "d"].into_iter().map(String::from).collect::<Vec<_>>());
}
