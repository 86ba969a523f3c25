//! Rules over the task feed that the display needs beyond the working set:
//! parents to fetch, indentation depth of listed rows, and status tones.

use vstd::prelude::*;
use vstd::hash_map::StringHashMap;
use crate::models::{DisplayTask, Task, TaskView};
use crate::order::{climb_positions, depth_of, index_positions, task_index, tasks_of};
use crate::text::{chars_are, chars_of, lower_of, lowercase};
use crate::workset::{has_id, task_seq};

verus! {

broadcast use vstd::hash_map::group_hash_map_axioms;

/// `p` is the parent of some task and the id of none.
pub open spec fn missing_parent(ts: Seq<TaskView>, p: Seq<char>) -> bool {
    &&& exists|i: int| 0 <= i < ts.len() && ts[i].parent_id == Some(p)
    &&& !has_id(ts, p)
}

/// The parent ids that no task of the feed has, each once.
pub fn missing_parent_ids(tasks: &Vec<Task>) -> (r: Vec<String>)
    ensures
        forall|k: int| 0 <= k < r@.len() ==> missing_parent(task_seq(tasks@), #[trigger] r@[k]@),
        forall|p: Seq<char>| #[trigger] missing_parent(task_seq(tasks@), p) ==> exists|k: int|
            0 <= k < r@.len() && r@[k]@ == p,
        forall|a: int, b: int| 0 <= a < b < r@.len() ==> r@[a]@ != r@[b]@,
{
    let ghost ts = task_seq(tasks@);
    let mut ids: StringHashMap<bool> = StringHashMap::new();
    for i in 0..tasks.len()
        invariant
            ts == task_seq(tasks@),
            forall|id: Seq<char>| #[trigger] ids@.contains_key(id) <==> has_id(ts.take(i as int), id),
    {
        assert(ts[i as int] == tasks@[i as int]@);
        proof {
            let pre1 = ts.take(i + 1);
            let pre0 = ts.take(i as int);
            assert forall|id: Seq<char>| has_id(pre1, id) <==> (has_id(pre0, id) || id
                == ts[i as int].id) by {
                if has_id(pre1, id) {
                    let k = choose|k: int| 0 <= k < pre1.len() && pre1[k].id == id;
                    if k < i {
                        assert(pre0[k] == ts[k]);
                    }
                }
                if has_id(pre0, id) {
                    let k = choose|k: int| 0 <= k < pre0.len() && pre0[k].id == id;
                    assert(pre1[k] == ts[k]);
                }
                if id == ts[i as int].id {
                    assert(pre1[i as int] == ts[i as int]);
                }
            }
        }
        ids.insert(tasks[i].id.clone(), true);
    }
    assert(ts.take(tasks.len() as int) =~= ts);
    let mut r: Vec<String> = Vec::new();
    let mut seen: StringHashMap<bool> = StringHashMap::new();
    for i in 0..tasks.len()
        invariant
            ts == task_seq(tasks@),
            forall|id: Seq<char>| #[trigger] ids@.contains_key(id) <==> has_id(ts, id),
            forall|id: Seq<char>| #[trigger] seen@.contains_key(id) <==> exists|k: int|
                0 <= k < r@.len() && r@[k]@ == id,
            forall|k: int| 0 <= k < r@.len() ==> missing_parent(ts, #[trigger] r@[k]@),
            forall|j: int|
                0 <= j < i && (#[trigger] ts[j]).parent_id is Some && !has_id(ts, ts[j].parent_id->0)
                    ==> seen@.contains_key(ts[j].parent_id->0),
            forall|a: int, b: int| 0 <= a < b < r@.len() ==> r@[a]@ != r@[b]@,
    {
        assert(ts[i as int] == tasks@[i as int]@);
        match &tasks[i].parent_id {
            Some(p) => {
                if !ids.contains_key(p.as_str()) && !seen.contains_key(p.as_str()) {
                    let ghost old_r = r@;
                    r.push(p.clone());
                    seen.insert(p.clone(), true);
                    proof {
                        assert(missing_parent(ts, p@)) by {
                            assert(ts[i as int].parent_id == Some(p@));
                        }
                        assert forall|id: Seq<char>| #[trigger] seen@.contains_key(id) <==> exists|k: int|
                            0 <= k < r@.len() && r@[k]@ == id by {
                            if id == p@ {
                                assert(r@[old_r.len() as int]@ == id);
                            } else if seen@.contains_key(id) {
                                let k = choose|k: int| 0 <= k < old_r.len() && old_r[k]@ == id;
                                assert(r@[k] == old_r[k]);
                            } else if exists|k: int| 0 <= k < r@.len() && r@[k]@ == id {
                                let k = choose|k: int| 0 <= k < r@.len() && r@[k]@ == id;
                                assert(r@[k] == old_r[k]);
                            }
                        }
                        assert forall|k: int| 0 <= k < r@.len() implies missing_parent(ts, #[trigger] r@[k]@) by {
                            if k < old_r.len() {
                                assert(r@[k] == old_r[k]);
                            }
                        }
                        assert forall|a: int, b: int| 0 <= a < b < r@.len() implies r@[a]@ != r@[b]@ by {
                            assert(r@[a] == old_r[a]);
                            if b < old_r.len() {
                                assert(r@[b] == old_r[b]);
                            } else {
                                assert(!(exists|k: int| 0 <= k < old_r.len() && old_r[k]@ == p@));
                            }
                        }
                    }
                }
            },
            None => {},
        }
    }
    proof {
        assert forall|p: Seq<char>| #[trigger] missing_parent(ts, p) implies exists|k: int|
            0 <= k < r@.len() && r@[k]@ == p by {
            let j = choose|j: int| 0 <= j < ts.len() && ts[j].parent_id == Some(p);
            assert(seen@.contains_key(ts[j].parent_id->0));
        }
    }
    r
}

/// The depth of each row of a list below its topmost ancestor in the list.
pub fn list_depths(list: &Vec<DisplayTask>) -> (r: Vec<usize>)
    ensures
        r@.len() == list@.len(),
        forall|i: int| 0 <= i < r@.len() ==> #[trigger] r@[i] == depth_of(
            task_index(tasks_of(list@)),
            list@[i].task@,
        ),
{
    let pos = index_positions(list);
    let mut r: Vec<usize> = Vec::new();
    for i in 0..list.len()
        invariant
            positions_of_list(pos@, list@),
            r@.len() == i,
            forall|k: int| 0 <= k < i ==> #[trigger] r@[k] == depth_of(
                task_index(tasks_of(list@)),
                list@[k].task@,
            ),
    {
        let (_, depth) = climb_positions(list, &pos, i);
        r.push(depth);
    }
    r
}

/// `pos` indexes the positions of the rows of `list`.
pub open spec fn positions_of_list(pos: Map<Seq<char>, usize>, list: Seq<DisplayTask>) -> bool {
    crate::order::positions_of(pos, tasks_of(list), list.len() as int)
}

/// How a status label is shown.
#[derive(Debug, Clone, Copy, PartialEq, Eq, Structural)]
pub enum StatusTone {
    InProgress,
    Todo,
    Blocked,
    Testing,
    Validate,
    Backlog,
    Done,
    Cancelled,
    Plain,
}

/// The tone of an already lowercased status label.
pub open spec fn tone_of(s: Seq<char>) -> StatusTone {
    if s == "in progress"@ || s == "to review"@ || s == "in review"@ || s == "review"@ {
        StatusTone::InProgress
    } else if s == "to do"@ || s == "todo"@ || s == "to-do"@ {
        StatusTone::Todo
    } else if s == "blocked"@ {
        StatusTone::Blocked
    } else if s == "in testing"@ || s == "testing"@ {
        StatusTone::Testing
    } else if s == "to validate"@ || s == "validation"@ {
        StatusTone::Validate
    } else if s == "backlog"@ {
        StatusTone::Backlog
    } else if s == "done"@ || s == "completed"@ || s == "released"@ {
        StatusTone::Done
    } else if s == "cancelled"@ || s == "canceled"@ {
        StatusTone::Cancelled
    } else {
        StatusTone::Plain
    }
}

/// The tone of a status label already in lowercase.
pub fn tone_of_lowercase(s: &str) -> (r: StatusTone)
    ensures
        r == tone_of(s@),
{
    let s = chars_of(s);
    if chars_are(&s, "in progress") || chars_are(&s, "to review") || chars_are(&s, "in review")
        || chars_are(&s, "review") {
        StatusTone::InProgress
    } else if chars_are(&s, "to do") || chars_are(&s, "todo") || chars_are(&s, "to-do") {
        StatusTone::Todo
    } else if chars_are(&s, "blocked") {
        StatusTone::Blocked
    } else if chars_are(&s, "in testing") || chars_are(&s, "testing") {
        StatusTone::Testing
    } else if chars_are(&s, "to validate") || chars_are(&s, "validation") {
        StatusTone::Validate
    } else if chars_are(&s, "backlog") {
        StatusTone::Backlog
    } else if chars_are(&s, "done") || chars_are(&s, "completed") || chars_are(&s, "released") {
        StatusTone::Done
    } else if chars_are(&s, "cancelled") || chars_are(&s, "canceled") {
        StatusTone::Cancelled
    } else {
        StatusTone::Plain
    }
}

/// The tone of a status label, without regard to case.
pub fn status_tone(status: &str) -> (r: StatusTone)
    ensures
        r == tone_of(lower_of(status@)),
{
    let lower = lowercase(status);
    tone_of_lowercase(lower.as_str())
}

} // verus!
