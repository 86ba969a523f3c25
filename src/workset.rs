//! Classification of tasks into categories, per-category counts, and the
//! ancestor-inclusive working set of a category.

use vstd::prelude::*;
use vstd::hash_map::StringHashMap;
use crate::models::{
    DisplayTask, OverlayStore, Task, TaskGroup, TaskOverlay, TaskView, category, group_at, is_person,
    overlay_in, passes_user, status_category,
};
use crate::order::{
    arranged, distinct_ids, entry_views, in_family_order, index_positions, positions_of, sort_hierarchy,
    task_index, tasks_of,
};
use crate::text::{chars_of, contains_chars, has_infix, lower_of, lowercase};

verus! {

broadcast use vstd::hash_map::group_hash_map_axioms;

/// Classifies a task with its overlay at time `now` (milliseconds since the
/// Unix epoch) into exactly one category.
pub fn classify(task: &Task, overlay: &TaskOverlay, now: i64) -> (r: TaskGroup)
    ensures
        r == category(task@, *overlay, now),
        is_person(task@) ==> r == TaskGroup::Person,
{
    DisplayTask::effective_group_of(task, overlay, now)
}

/// A snooze that has not ended puts a task that is not a person task among
/// the snoozed, whatever its status; once it has ended, the status decides
/// again.
pub proof fn lemma_snooze_overrides(t: TaskView, o: TaskOverlay, until: i64, now: i64)
    requires
        !is_person(t),
        o.snoozed_until == Some(until),
    ensures
        until > now ==> category(t, o, now) == TaskGroup::Snoozed,
        until <= now ==> category(t, o, now) == status_category(t.status),
{
}

/// Number of tasks among `ts` whose category at `now` is `g`.
pub open spec fn count_in(
    ts: Seq<TaskView>,
    overlays: Map<Seq<char>, TaskOverlay>,
    now: i64,
    g: TaskGroup,
) -> nat
    decreases ts.len(),
{
    if ts.len() == 0 {
        0
    } else {
        count_in(ts.drop_last(), overlays, now, g) + if category(
            ts.last(),
            overlay_in(overlays, ts.last().id),
            now,
        ) == g {
            1nat
        } else {
            0nat
        }
    }
}

/// The counts of the six categories add up to the number of tasks: every
/// task is in exactly one category.
pub proof fn lemma_counts_sum(ts: Seq<TaskView>, overlays: Map<Seq<char>, TaskOverlay>, now: i64)
    ensures
        count_in(ts, overlays, now, TaskGroup::MyAction) + count_in(ts, overlays, now, TaskGroup::Waiting)
            + count_in(ts, overlays, now, TaskGroup::Backlog) + count_in(ts, overlays, now, TaskGroup::Done)
            + count_in(ts, overlays, now, TaskGroup::Snoozed) + count_in(ts, overlays, now, TaskGroup::Person)
            == ts.len(),
    decreases ts.len(),
{
    if ts.len() > 0 {
        lemma_counts_sum(ts.drop_last(), overlays, now);
    }
}

/// The tasks of a vector, as plain values.
pub open spec fn task_seq(v: Seq<Task>) -> Seq<TaskView> {
    v.map_values(|t: Task| t@)
}

/// Counts the tasks of each category at time `now`, in tab order; the
/// assignment and text filters play no part.
pub fn counts(all_tasks: &Vec<Task>, overlays: &OverlayStore, now: i64) -> (r: Vec<(TaskGroup, usize)>)
    ensures
        r@.len() == 6,
        forall|i: int| 0 <= i < 6 ==> group_at(i) == Some(#[trigger] r@[i].0),
        forall|i: int| 0 <= i < 6 ==> #[trigger] r@[i].1 == count_in(task_seq(all_tasks@), overlays@, now, r@[i].0),
{
    let ghost ts = task_seq(all_tasks@);
    let groups = TaskGroup::all();
    let mut r: Vec<(TaskGroup, usize)> = Vec::new();
    for g in 0..6usize
        invariant
            ts == task_seq(all_tasks@),
            groups@.len() == 6,
            forall|i: int| 0 <= i < 6 ==> group_at(i) == Some(#[trigger] groups@[i]),
            r@.len() == g,
            forall|i: int| 0 <= i < g ==> (#[trigger] r@[i]).0 == groups@[i],
            forall|i: int| 0 <= i < g ==> #[trigger] r@[i].1 == count_in(ts, overlays@, now, r@[i].0),
    {
        let group = groups[g];
        let mut n: usize = 0;
        for i in 0..all_tasks.len()
            invariant
                ts == task_seq(all_tasks@),
                n == count_in(ts.take(i as int), overlays@, now, group),
                n <= i,
        {
            let o = overlays.get(all_tasks[i].id.as_str());
            assert(ts.take(i + 1).drop_last() =~= ts.take(i as int));
            assert(ts[i as int] == all_tasks@[i as int]@);
            if classify(&all_tasks[i], &o, now) == group {
                n = n + 1;
            }
        }
        assert(ts.take(all_tasks.len() as int) =~= ts);
        r.push((group, n));
    }
    r
}

/// The text filter passes: it is empty, or its lowercase form occurs in the
/// lowercase name, list name, status or description.
pub open spec fn matches_text(t: TaskView, filter: Seq<char>) -> bool {
    filter.len() == 0 || {
        let q = lower_of(filter);
        has_infix(lower_of(t.name), q) || has_infix(lower_of(t.list_name), q) || has_infix(
            lower_of(t.status),
            q,
        ) || match t.description {
            Some(d) => has_infix(lower_of(d), q),
            None => false,
        }
    }
}

/// Whether the lowercase form of `s` contains `q`.
fn lower_contains(s: &str, q: &Vec<char>) -> (r: bool)
    ensures
        r == has_infix(lower_of(s@), q@),
{
    let l = lowercase(s);
    let c = chars_of(l.as_str());
    contains_chars(&c, q)
}

/// Whether the task passes the text filter, given the filter and its
/// lowercase characters.
fn text_matches(task: &Task, filter: &str, q: &Vec<char>) -> (r: bool)
    requires
        q@ == lower_of(filter@),
    ensures
        r == matches_text(task@, filter@),
{
    if filter.is_empty() {
        return true;
    }
    if lower_contains(task.name.as_str(), q) || lower_contains(task.list_name.as_str(), q)
        || lower_contains(task.status.as_str(), q) {
        return true;
    }
    match &task.description {
        Some(d) => lower_contains(d.as_str(), q),
        None => false,
    }
}

/// The ancestors of `t` that the working set takes in, nearest first: each
/// parent found among the tasks is taken; the walk goes on above it only
/// while that parent passes the assignment filter, and stops at a parent
/// that is not among the tasks or was already visited.
pub open spec fn ancestors(
    m: Map<Seq<char>, TaskView>,
    user: Option<u64>,
    t: TaskView,
    visited: Set<Seq<char>>,
) -> Seq<TaskView>
    decreases m.dom().difference(visited).len(),
{
    match t.parent_id {
        Some(p) => {
            if m.dom().finite() && m.contains_key(p) && !visited.contains(p) {
                proof {
                    m.dom().lemma_set_insert_diff_decreases(visited, p);
                }
                seq![m[p]] + if passes_user(m[p], user) {
                    ancestors(m, user, m[p], visited.insert(p))
                } else {
                    Seq::<TaskView>::empty()
                }
            } else {
                Seq::<TaskView>::empty()
            }
        },
        None => Seq::<TaskView>::empty(),
    }
}

/// The ancestor chain of `t` among the tasks indexed by `m`, nearest first.
pub open spec fn chain_of(m: Map<Seq<char>, TaskView>, user: Option<u64>, t: TaskView) -> Seq<
    TaskView,
> {
    ancestors(m, user, t, set![t.id])
}

/// A parent that fails the assignment filter is the last ancestor taken in:
/// the walk includes it and goes no higher.
pub proof fn lemma_chain_stops_at_unassigned_parent(
    ts: Seq<TaskView>,
    user: Option<u64>,
    t: TaskView,
    p: Seq<char>,
)
    requires
        t.parent_id == Some(p),
        p != t.id,
        task_index(ts).contains_key(p),
        !passes_user(task_index(ts)[p], user),
    ensures
        chain_of(task_index(ts), user, t) == seq![task_index(ts)[p]],
{
    crate::order::lemma_task_index_finite(ts);
    assert(seq![task_index(ts)[p]] + Seq::<TaskView>::empty() =~= seq![task_index(ts)[p]]);
}

/// Some task of `acc` has the id.
pub open spec fn has_id(acc: Seq<TaskView>, id: Seq<char>) -> bool {
    exists|k: int| 0 <= k < acc.len() && acc[k].id == id
}

/// Appends `x` unless a task with its id is already there.
pub open spec fn add_one(acc: Seq<TaskView>, x: TaskView) -> Seq<TaskView> {
    if has_id(acc, x.id) {
        acc
    } else {
        acc.push(x)
    }
}

/// Appends the tasks of `xs` in order, each unless its id is already there.
pub open spec fn add_all(acc: Seq<TaskView>, xs: Seq<TaskView>) -> Seq<TaskView>
    decreases xs.len(),
{
    if xs.len() == 0 {
        acc
    } else {
        add_one(add_all(acc, xs.drop_last()), xs.last())
    }
}

/// A task is primary for the view: its category is the active one, and it
/// passes the assignment and text filters.
pub open spec fn is_primary(
    t: TaskView,
    overlays: Map<Seq<char>, TaskOverlay>,
    now: i64,
    active: TaskGroup,
    user: Option<u64>,
    filter: Seq<char>,
) -> bool {
    &&& category(t, overlay_in(overlays, t.id), now) == active
    &&& passes_user(t, user)
    &&& matches_text(t, filter)
}

/// The tasks of the working set in order of first addition: for each
/// primary task in input order, its ancestors from the top down, then the
/// task itself, each id once.
pub open spec fn gathered(
    m: Map<Seq<char>, TaskView>,
    overlays: Map<Seq<char>, TaskOverlay>,
    now: i64,
    active: TaskGroup,
    user: Option<u64>,
    filter: Seq<char>,
    ts: Seq<TaskView>,
) -> Seq<TaskView>
    decreases ts.len(),
{
    if ts.len() == 0 {
        Seq::<TaskView>::empty()
    } else {
        let acc = gathered(m, overlays, now, active, user, filter, ts.drop_last());
        let t = ts.last();
        if is_primary(t, overlays, now, active, user, filter) {
            add_all(acc, chain_of(m, user, t).reverse().push(t))
        } else {
            acc
        }
    }
}

/// The working set of a category, before ordering: the gathered tasks, each
/// with its overlay.
pub open spec fn working_set(
    tasks: Seq<TaskView>,
    overlays: Map<Seq<char>, TaskOverlay>,
    now: i64,
    active: TaskGroup,
    user: Option<u64>,
    filter: Seq<char>,
) -> Seq<(TaskView, TaskOverlay)> {
    gathered(task_index(tasks), overlays, now, active, user, filter, tasks).map_values(
        |t: TaskView| (t, overlay_in(overlays, t.id)),
    )
}

/// No two tasks share an id.
pub open spec fn unique_ids(s: Seq<TaskView>) -> bool {
    forall|i: int, j: int| 0 <= i < j < s.len() ==> s[i].id != s[j].id
}

/// Positions of the ancestor chain of entry `i`, nearest first.
fn ancestor_chain(
    all: &Vec<DisplayTask>,
    pos: &StringHashMap<usize>,
    i: usize,
    user: Option<u64>,
) -> (chain: Vec<usize>)
    requires
        i < all.len(),
        positions_of(pos@, tasks_of(all@), all.len() as int),
    ensures
        forall|x: int| 0 <= x < chain.len() ==> #[trigger] chain@[x] < all.len(),
        chain@.map_values(|p: usize| tasks_of(all@)[p as int]) == chain_of(
            task_index(tasks_of(all@)),
            user,
            tasks_of(all@)[i as int],
        ),
{
    let ghost ts = tasks_of(all@);
    let ghost m = task_index(ts);
    let ghost t0 = ts[i as int];
    proof {
        assert(ts.take(all.len() as int) =~= ts);
        crate::order::lemma_task_index_finite(ts);
    }
    let mut chain: Vec<usize> = Vec::new();
    let mut visited: StringHashMap<bool> = StringHashMap::new();
    visited.insert(all[i].task.id.clone(), true);
    assert(visited@.dom() =~= set![t0.id]);
    assert(chain@.map_values(|p: usize| ts[p as int]) =~= Seq::<TaskView>::empty());
    let mut cur: usize = i;
    loop
        invariant_except_break
            chain_of(m, user, t0) == chain@.map_values(|p: usize| ts[p as int]) + ancestors(
                m,
                user,
                ts[cur as int],
                visited@.dom(),
            ),
        invariant
            ts == tasks_of(all@),
            m == task_index(ts),
            ts.len() == all.len(),
            ts.take(all.len() as int) == ts,
            positions_of(pos@, ts, all.len() as int),
            m.dom().finite(),
            i < all.len(),
            t0 == ts[i as int],
            cur < all.len(),
            forall|x: int| 0 <= x < chain.len() ==> #[trigger] chain@[x] < all.len(),
        ensures
            forall|x: int| 0 <= x < chain.len() ==> #[trigger] chain@[x] < all.len(),
            chain_of(m, user, t0) == chain@.map_values(|p: usize| ts[p as int]),
        decreases m.dom().difference(visited@.dom()).len(),
    {
        let ghost before = chain@.map_values(|p: usize| ts[p as int]);
        assert(ts[cur as int] == all@[cur as int].task@);
        match &all[cur].task.parent_id {
            Some(p) => {
                assert(ts[cur as int].parent_id == Some(p@));
                match pos.get(p.as_str()) {
                    Some(q) => {
                        if visited.contains_key(p.as_str()) {
                            assert(before + Seq::<TaskView>::empty() =~= before);
                            break ;
                        }
                        proof {
                            m.dom().lemma_set_insert_diff_decreases(visited@.dom(), p@);
                        }
                        let ghost old_vis = visited@.dom();
                        assert(m[p@] == ts[*q as int]);
                        let q = *q;
                        chain.push(q);
                        assert(chain@.map_values(|p: usize| ts[p as int]) =~= before.push(ts[q as int]));
                        assert(ts[q as int] == all@[q as int].task@);
                        let passes = match user {
                            Some(u) => all[q].task.is_assigned_to(u),
                            None => true,
                        };
                        if !passes {
                            assert(before.push(ts[q as int]) + Seq::<TaskView>::empty() =~= before.push(ts[q as int]));
                            break ;
                        }
                        visited.insert(p.clone(), true);
                        assert(visited@.dom() =~= old_vis.insert(p@));
                        assert(before + (seq![ts[q as int]] + ancestors(m, user, ts[q as int], old_vis.insert(p@)))
                            =~= before.push(ts[q as int]) + ancestors(m, user, ts[q as int], old_vis.insert(p@)));
                        cur = q;
                    },
                    None => {
                        assert(before + Seq::<TaskView>::empty() =~= before);
                        break ;
                    },
                }
            },
            None => {
                assert(before + Seq::<TaskView>::empty() =~= before);
                break ;
            },
        }
    }
    chain
}

/// What the builder keeps while gathering: the entries so far, each with
/// the overlay of its id, their ids distinct, and the set of those ids.
pub open spec fn gathering(
    included: Seq<DisplayTask>,
    added: Map<Seq<char>, bool>,
    overlays: Map<Seq<char>, TaskOverlay>,
) -> bool {
    &&& forall|k: int| 0 <= k < included.len() ==> (#[trigger] included[k]).overlay == overlay_in(
        overlays,
        included[k].task@.id,
    )
    &&& unique_ids(tasks_of(included))
    &&& forall|id: Seq<char>| #[trigger] added.contains_key(id) <==> has_id(tasks_of(included), id)
}

/// Appends an entry unless one with its id is already there.
fn add_entry(
    included: &mut Vec<DisplayTask>,
    added: &mut StringHashMap<bool>,
    e: &DisplayTask,
    overlays: &OverlayStore,
)
    requires
        gathering(old(included)@, old(added)@, overlays@),
        e.overlay == overlay_in(overlays@, e.task@.id),
    ensures
        gathering(final(included)@, final(added)@, overlays@),
        tasks_of(final(included)@) == add_one(tasks_of(old(included)@), e.task@),
{
    let ghost g = tasks_of(included@);
    if !added.contains_key(e.task.id.as_str()) {
        included.push(e.clone());
        added.insert(e.task.id.clone(), true);
        assert(tasks_of(included@) =~= g.push(e.task@));
        assert forall|id: Seq<char>| #[trigger] added@.contains_key(id) <==> has_id(tasks_of(included@), id) by {
            if has_id(tasks_of(included@), id) && id != e.task@.id {
                let k = choose|k: int| 0 <= k < tasks_of(included@).len() && tasks_of(included@)[k].id == id;
                assert(g[k] == tasks_of(included@)[k]);
            }
            if has_id(g, id) {
                let k = choose|k: int| 0 <= k < g.len() && g[k].id == id;
                assert(g[k] == tasks_of(included@)[k]);
            }
            if id == e.task@.id {
                assert(tasks_of(included@)[g.len() as int].id == id);
            }
        }
        assert forall|k: int| 0 <= k < included@.len() implies (#[trigger] included@[k]).overlay == overlay_in(
            overlays@,
            included@[k].task@.id,
        ) by {
            if k < g.len() {
                assert(included@[k] == old(included)@[k]);
            }
        }
        assert forall|i: int, j: int| 0 <= i < j < tasks_of(included@).len() implies tasks_of(included@)[i].id
            != tasks_of(included@)[j].id by {
            if j == g.len() {
                assert(tasks_of(included@)[i] == g[i]);
            }
        }
    }
}

/// The working set of a category at time `now` (milliseconds since the Unix
/// epoch), in family order.
///
/// A task is primary when its category is `active` (person tasks only in
/// the person category), it passes the assignment filter (`user_filter`
/// absent, or the user among its assignees) and the text filter (empty, or
/// found without regard to case in its name, list name, status or
/// description). Each primary task brings its ancestors among `all_tasks`:
/// the walk up the parents stops above the first parent that fails the
/// assignment filter, at a parent that is not among the tasks, and at a
/// parent already visited, so a parent cycle ends. Ancestors pass no other
/// filter. Each id appears once.
pub fn build_set(
    all_tasks: &Vec<Task>,
    overlays: &OverlayStore,
    now: i64,
    active: TaskGroup,
    user_filter: Option<u64>,
    text_filter: &str,
) -> (r: Vec<DisplayTask>)
    ensures
        in_family_order(
            working_set(task_seq(all_tasks@), overlays@, now, active, user_filter, text_filter@),
            entry_views(r@),
        ),
        distinct_ids(entry_views(r@)),
{
    let ghost ts = task_seq(all_tasks@);
    let ghost m = task_index(ts);
    let ghost ov = overlays@;
    let n = all_tasks.len();
    let mut all: Vec<DisplayTask> = Vec::new();
    for i in 0..n
        invariant
            n == all_tasks.len(),
            ts == task_seq(all_tasks@),
            ov == overlays@,
            all@.len() == i,
            forall|j: int| 0 <= j < i ==> (#[trigger] all@[j]).task@ == ts[j] && all@[j].overlay
                == overlay_in(ov, ts[j].id),
    {
        let o = overlays.get(all_tasks[i].id.as_str());
        let t = all_tasks[i].clone();
        all.push(DisplayTask::new(t, o));
    }
    assert(tasks_of(all@) =~= ts);
    let pos = index_positions(&all);
    let lower = lowercase(text_filter);
    let q = chars_of(lower.as_str());
    let mut included: Vec<DisplayTask> = Vec::new();
    let mut added: StringHashMap<bool> = StringHashMap::new();
    assert(tasks_of(included@) =~= Seq::<TaskView>::empty());
    assert(ts.take(0) =~= Seq::<TaskView>::empty());
    for i in 0..n
        invariant
            n == all_tasks.len(),
            n == all.len(),
            ts == task_seq(all_tasks@),
            ts == tasks_of(all@),
            m == task_index(ts),
            ov == overlays@,
            q@ == lower_of(text_filter@),
            positions_of(pos@, tasks_of(all@), n as int),
            forall|j: int| 0 <= j < n ==> (#[trigger] all@[j]).task@ == ts[j] && all@[j].overlay
                == overlay_in(ov, ts[j].id),
            gathering(included@, added@, ov),
            tasks_of(included@) == gathered(m, ov, now, active, user_filter, text_filter@, ts.take(i as int)),
    {
        proof {
            assert(ts.take(i + 1).drop_last() =~= ts.take(i as int));
            assert(ts.take(i + 1).last() == ts[i as int]);
        }
        let dt = &all[i];
        let cat = classify(&dt.task, &dt.overlay, now);
        let assigned = match user_filter {
            Some(u) => dt.task.is_assigned_to(u),
            None => true,
        };
        if cat == active && assigned && text_matches(&dt.task, text_filter, &q) {
            let chain = ancestor_chain(&all, &pos, i, user_filter);
            let ghost cv = chain@.map_values(|p: usize| ts[p as int]);
            let ghost xs = cv.reverse();
            let ghost acc0 = tasks_of(included@);
            let mut k: usize = chain.len();
            assert(xs.take(0) =~= Seq::<TaskView>::empty());
            while k > 0
                invariant
                    k <= chain.len(),
                    n == all.len(),
                    ts == tasks_of(all@),
                    ov == overlays@,
                    forall|x: int| 0 <= x < chain.len() ==> #[trigger] chain@[x] < all.len(),
                    forall|j: int| 0 <= j < n ==> (#[trigger] all@[j]).task@ == ts[j] && all@[j].overlay
                        == overlay_in(ov, ts[j].id),
                    cv == chain@.map_values(|p: usize| ts[p as int]),
                    xs == cv.reverse(),
                    gathering(included@, added@, ov),
                    tasks_of(included@) == add_all(acc0, xs.take(chain.len() - k)),
                decreases k,
            {
                k = k - 1;
                let ghost j = chain.len() - k - 1;
                assert(xs.take(j + 1).drop_last() =~= xs.take(j));
                assert(xs[j] == cv[k as int]);
                assert(all@[chain@[k as int] as int].task@ == ts[chain@[k as int] as int]);
                add_entry(&mut included, &mut added, &all[chain[k]], overlays);
            }
            assert(xs.take(xs.len() as int) =~= xs);
            assert(xs.push(ts[i as int]).drop_last() =~= xs);
            add_entry(&mut included, &mut added, dt, overlays);
        }
    }
    assert(ts.take(n as int) =~= ts);
    let ghost g = tasks_of(included@);
    assert(entry_views(included@) =~= working_set(ts, ov, now, active, user_filter, text_filter@));
    let r = sort_hierarchy(included);
    proof {
        let input = entry_views(included@);
        let out = entry_views(r@);
        let ord = choose|o: Seq<int>|
            arranged(input, o, out) && forall|i: int, j: int|
                0 <= i < j < o.len() ==> crate::order::before_at(
                    crate::order::family_keys(input),
                    #[trigger] o[i],
                    #[trigger] o[j],
                );
        assert forall|i: int, j: int| 0 <= i < j < out.len() implies out[i].0.id != out[j].0.id by {
            assert(out[i] == input[ord[i]] && out[j] == input[ord[j]]);
            assert(input[ord[i]].0 == g[ord[i]] && input[ord[j]].0 == g[ord[j]]);
            if ord[i] < ord[j] {
            } else {
            }
        }
    }
    r
}

/// `x` is one of the tasks of `ts`.
pub open spec fn among(x: TaskView, ts: Seq<TaskView>) -> bool {
    exists|i: int| 0 <= i < ts.len() && ts[i] == x
}

/// The ids of a sequence of tasks.
pub open spec fn ids_of(ts: Seq<TaskView>) -> Seq<Seq<char>> {
    ts.map_values(|t: TaskView| t.id)
}

proof fn lemma_index_values_among(ts: Seq<TaskView>, k: Seq<char>)
    requires
        task_index(ts).contains_key(k),
    ensures
        among(task_index(ts)[k], ts),
    decreases ts.len(),
{
    let init = ts.drop_last();
    if k != ts.last().id {
        lemma_index_values_among(init, k);
        let i = choose|i: int| 0 <= i < init.len() && init[i] == task_index(init)[k];
        assert(ts[i] == init[i]);
    } else {
        assert(ts[ts.len() - 1] == ts.last());
    }
}

proof fn lemma_ancestors_among(
    ts: Seq<TaskView>,
    user: Option<u64>,
    t: TaskView,
    visited: Set<Seq<char>>,
)
    ensures
        forall|k: int|
            0 <= k < ancestors(task_index(ts), user, t, visited).len() ==> among(
                #[trigger] ancestors(task_index(ts), user, t, visited)[k],
                ts,
            ),
    decreases task_index(ts).dom().difference(visited).len(),
{
    let m = task_index(ts);
    let a = ancestors(m, user, t, visited);
    if let Some(p) = t.parent_id {
        if m.dom().finite() && m.contains_key(p) && !visited.contains(p) {
            m.dom().lemma_set_insert_diff_decreases(visited, p);
            lemma_index_values_among(ts, p);
            if passes_user(m[p], user) {
                lemma_ancestors_among(ts, user, m[p], visited.insert(p));
                let rest = ancestors(m, user, m[p], visited.insert(p));
                assert forall|k: int| 0 <= k < a.len() implies among(#[trigger] a[k], ts) by {
                    if k > 0 {
                        assert(a[k] == rest[k - 1]);
                    }
                }
            }
        }
    }
}

proof fn lemma_add_all_among(acc: Seq<TaskView>, xs: Seq<TaskView>, ts: Seq<TaskView>)
    requires
        forall|k: int| 0 <= k < acc.len() ==> among(#[trigger] acc[k], ts),
        forall|k: int| 0 <= k < xs.len() ==> among(#[trigger] xs[k], ts),
    ensures
        forall|k: int| 0 <= k < add_all(acc, xs).len() ==> among(#[trigger] add_all(acc, xs)[k], ts),
    decreases xs.len(),
{
    if xs.len() > 0 {
        let init = xs.drop_last();
        assert forall|k: int| 0 <= k < init.len() implies among(#[trigger] init[k], ts) by {
            assert(init[k] == xs[k]);
        }
        lemma_add_all_among(acc, init, ts);
        let b = add_all(acc, init);
        assert(among(xs[xs.len() - 1], ts));
        assert forall|k: int| 0 <= k < add_all(acc, xs).len() implies among(
            #[trigger] add_all(acc, xs)[k],
            ts,
        ) by {
            if k < b.len() {
                assert(add_all(acc, xs)[k] == b[k]);
            }
        }
    }
}

proof fn lemma_gathered_among(
    all: Seq<TaskView>,
    overlays: Map<Seq<char>, TaskOverlay>,
    now: i64,
    active: TaskGroup,
    user: Option<u64>,
    filter: Seq<char>,
    ts: Seq<TaskView>,
)
    requires
        forall|k: int| 0 <= k < ts.len() ==> among(#[trigger] ts[k], all),
    ensures
        forall|k: int|
            0 <= k < gathered(task_index(all), overlays, now, active, user, filter, ts).len()
                ==> among(
                #[trigger] gathered(task_index(all), overlays, now, active, user, filter, ts)[k],
                all,
            ),
    decreases ts.len(),
{
    if ts.len() > 0 {
        let init = ts.drop_last();
        assert forall|k: int| 0 <= k < init.len() implies among(#[trigger] init[k], all) by {
            assert(init[k] == ts[k]);
        }
        lemma_gathered_among(all, overlays, now, active, user, filter, init);
        let t = ts.last();
        let m = task_index(all);
        let g0 = gathered(m, overlays, now, active, user, filter, init);
        assert(among(ts[ts.len() - 1], all));
        assert(gathered(m, overlays, now, active, user, filter, ts) == if is_primary(
            t,
            overlays,
            now,
            active,
            user,
            filter,
        ) {
            add_all(g0, chain_of(m, user, t).reverse().push(t))
        } else {
            g0
        });
        if is_primary(t, overlays, now, active, user, filter) {
            let c = chain_of(m, user, t);
            lemma_ancestors_among(all, user, t, set![t.id]);
            let xs = c.reverse().push(t);
            assert forall|k: int| 0 <= k < xs.len() implies among(#[trigger] xs[k], all) by {
                if k < c.len() {
                    assert(xs[k] == c[c.len() - 1 - k]);
                }
            }
            lemma_add_all_among(gathered(m, overlays, now, active, user, filter, init), xs, all);
        }
    }
}

/// The working set holds input tasks only, each once by id, so it is no
/// longer than the number of distinct input ids, whatever parent links the
/// tasks carry (cycles and ids absent from the input included).
pub proof fn lemma_working_set_from_input(
    tasks: Seq<TaskView>,
    overlays: Map<Seq<char>, TaskOverlay>,
    now: i64,
    active: TaskGroup,
    user: Option<u64>,
    filter: Seq<char>,
    out: Seq<(TaskView, TaskOverlay)>,
)
    requires
        in_family_order(working_set(tasks, overlays, now, active, user, filter), out),
        distinct_ids(out),
    ensures
        forall|k: int| 0 <= k < out.len() ==> among(#[trigger] out[k].0, tasks),
        out.len() <= ids_of(tasks).to_set().len(),
{
    let ws = working_set(tasks, overlays, now, active, user, filter);
    let g = gathered(task_index(tasks), overlays, now, active, user, filter, tasks);
    assert forall|k: int| 0 <= k < tasks.len() implies among(#[trigger] tasks[k], tasks) by {
    }
    lemma_gathered_among(tasks, overlays, now, active, user, filter, tasks);
    let ord = choose|o: Seq<int>|
        arranged(ws, o, out) && forall|i: int, j: int|
            0 <= i < j < o.len() ==> crate::order::before_at(
                crate::order::family_keys(ws),
                #[trigger] o[i],
                #[trigger] o[j],
            );
    assert forall|k: int| 0 <= k < out.len() implies among(#[trigger] out[k].0, tasks) by {
        assert(out[k] == ws[ord[k]]);
        assert(ws[ord[k]].0 == g[ord[k]]);
    }
    let oi = out.map_values(|e: (TaskView, TaskOverlay)| e.0.id);
    assert(oi.no_duplicates()) by {
        assert forall|i: int, j: int| 0 <= i < oi.len() && 0 <= j < oi.len() && i != j implies oi[i]
            != oi[j] by {
            if i < j {
            } else {
            }
        }
    }
    oi.unique_seq_to_set();
    let ti = ids_of(tasks);
    assert(oi.to_set().subset_of(ti.to_set())) by {
        assert forall|x: Seq<char>| oi.to_set().contains(x) implies ti.to_set().contains(x) by {
            let k = choose|k: int| 0 <= k < oi.len() && oi[k] == x;
            assert(among(out[k].0, tasks));
            let i = choose|i: int| 0 <= i < tasks.len() && tasks[i] == out[k].0;
            assert(ti[i] == x);
        }
    }
    vstd::seq_lib::seq_to_set_is_finite(ti);
    vstd::set_lib::lemma_len_subset(oi.to_set(), ti.to_set());
}

/// Tasks of `all` with one id are one task.
proof fn lemma_among_same_id(all: Seq<TaskView>, x: TaskView, y: TaskView)
    requires
        unique_ids(all),
        among(x, all),
        among(y, all),
        x.id == y.id,
    ensures
        x == y,
{
    let i = choose|i: int| 0 <= i < all.len() && all[i] == x;
    let j = choose|j: int| 0 <= j < all.len() && all[j] == y;
    if i < j {
    } else if j < i {
    }
}

proof fn lemma_add_all_members(all: Seq<TaskView>, acc: Seq<TaskView>, xs: Seq<TaskView>, x: TaskView)
    requires
        unique_ids(all),
        forall|k: int| 0 <= k < acc.len() ==> among(#[trigger] acc[k], all),
        forall|k: int| 0 <= k < xs.len() ==> among(#[trigger] xs[k], all),
    ensures
        among(x, add_all(acc, xs)) <==> among(x, acc) || among(x, xs),
    decreases xs.len(),
{
    if xs.len() > 0 {
        let init = xs.drop_last();
        let y = xs.last();
        assert forall|k: int| 0 <= k < init.len() implies among(#[trigger] init[k], all) by {
            assert(init[k] == xs[k]);
        }
        lemma_add_all_members(all, acc, init, x);
        lemma_add_all_members(all, acc, init, y);
        lemma_add_all_among(acc, init, all);
        let b = add_all(acc, init);
        assert(among(xs[xs.len() - 1], all));
        if has_id(b, y.id) {
            let k = choose|k: int| 0 <= k < b.len() && b[k].id == y.id;
            lemma_among_same_id(all, b[k], y);
        } else {
            if among(x, b.push(y)) && x != y {
                let k = choose|k: int| 0 <= k < b.push(y).len() && b.push(y)[k] == x;
                assert(b[k] == x);
            }
            if among(x, b) {
                let k = choose|k: int| 0 <= k < b.len() && b[k] == x;
                assert(b.push(y)[k] == x);
            }
            assert(b.push(y)[b.len() as int] == y);
        }
        if among(x, init) {
            let k = choose|k: int| 0 <= k < init.len() && init[k] == x;
            assert(xs[k] == x);
        }
        if among(x, xs) && x != y {
            let k = choose|k: int| 0 <= k < xs.len() && xs[k] == x;
            assert(init[k] == x);
        }
        assert(xs[xs.len() - 1] == y);
    }
}

/// `x` is a primary task of `ts` or in the ancestor chain of one.
pub open spec fn reached(
    m: Map<Seq<char>, TaskView>,
    overlays: Map<Seq<char>, TaskOverlay>,
    now: i64,
    active: TaskGroup,
    user: Option<u64>,
    filter: Seq<char>,
    ts: Seq<TaskView>,
    x: TaskView,
) -> bool {
    exists|i: int|
        0 <= i < ts.len() && #[trigger] is_primary(ts[i], overlays, now, active, user, filter) && (
        ts[i] == x || among(x, chain_of(m, user, ts[i])))
}

proof fn lemma_gathered_members(
    all: Seq<TaskView>,
    overlays: Map<Seq<char>, TaskOverlay>,
    now: i64,
    active: TaskGroup,
    user: Option<u64>,
    filter: Seq<char>,
    ts: Seq<TaskView>,
    x: TaskView,
)
    requires
        unique_ids(all),
        forall|k: int| 0 <= k < ts.len() ==> among(#[trigger] ts[k], all),
    ensures
        among(x, gathered(task_index(all), overlays, now, active, user, filter, ts)) <==> reached(
            task_index(all),
            overlays,
            now,
            active,
            user,
            filter,
            ts,
            x,
        ),
    decreases ts.len(),
{
    let m = task_index(all);
    if ts.len() > 0 {
        let init = ts.drop_last();
        let t = ts.last();
        assert forall|k: int| 0 <= k < init.len() implies among(#[trigger] init[k], all) by {
            assert(init[k] == ts[k]);
        }
        lemma_gathered_members(all, overlays, now, active, user, filter, init, x);
        let g0 = gathered(m, overlays, now, active, user, filter, init);
        if reached(m, overlays, now, active, user, filter, init, x) {
            let i = choose|i: int|
                0 <= i < init.len() && #[trigger] is_primary(init[i], overlays, now, active, user, filter)
                    && (init[i] == x || among(x, chain_of(m, user, init[i])));
            assert(ts[i] == init[i]);
        }
        if reached(m, overlays, now, active, user, filter, ts, x) {
            let i = choose|i: int|
                0 <= i < ts.len() && #[trigger] is_primary(ts[i], overlays, now, active, user, filter)
                    && (ts[i] == x || among(x, chain_of(m, user, ts[i])));
            if i < init.len() {
                assert(init[i] == ts[i]);
            }
        }
        assert(ts[ts.len() - 1] == t);
        if is_primary(t, overlays, now, active, user, filter) {
            let c = chain_of(m, user, t);
            lemma_ancestors_among(all, user, t, set![t.id]);
            lemma_gathered_among(all, overlays, now, active, user, filter, init);
            let xs = c.reverse().push(t);
            assert forall|k: int| 0 <= k < xs.len() implies among(#[trigger] xs[k], all) by {
                if k < c.len() {
                    assert(xs[k] == c[c.len() - 1 - k]);
                }
            }
            lemma_add_all_members(all, g0, xs, x);
            if among(x, xs) && x != t {
                let k = choose|k: int| 0 <= k < xs.len() && xs[k] == x;
                assert(c[c.len() - 1 - k] == x);
            }
            if among(x, c) {
                let k = choose|k: int| 0 <= k < c.len() && c[k] == x;
                assert(xs[c.len() - 1 - k] == x);
            }
            assert(xs[c.len() as int] == t);
        }
    }
}

/// Two sequences with distinct ids and the same tasks index them alike.
proof fn lemma_same_members_same_index(ga: Seq<TaskView>, gb: Seq<TaskView>)
    requires
        unique_ids(ga),
        unique_ids(gb),
        forall|x: TaskView| among(x, ga) <==> among(x, gb),
    ensures
        task_index(ga) == task_index(gb),
{
    let ma = task_index(ga);
    let mb = task_index(gb);
    assert forall|k: Seq<char>| ma.contains_key(k) <==> mb.contains_key(k) by {
        crate::order::lemma_task_index_keys(ga, k);
        crate::order::lemma_task_index_keys(gb, k);
        if ma.contains_key(k) {
            let i = choose|i: int| 0 <= i < ga.len() && ga[i].id == k;
            assert(among(ga[i], ga));
            let j = choose|j: int| 0 <= j < gb.len() && gb[j] == ga[i];
        }
        if mb.contains_key(k) {
            let j = choose|j: int| 0 <= j < gb.len() && gb[j].id == k;
            assert(among(gb[j], gb));
            let i = choose|i: int| 0 <= i < ga.len() && ga[i] == gb[j];
        }
    }
    assert forall|k: Seq<char>| ma.contains_key(k) implies ma[k] == mb[k] by {
        crate::order::lemma_task_index_keys(ga, k);
        let i = choose|i: int| 0 <= i < ga.len() && ga[i].id == k;
        assert(among(ga[i], ga));
        let j = choose|j: int| 0 <= j < gb.len() && gb[j] == ga[i];
        assert forall|x: int| 0 <= x < ga.len() && x != i implies ga[x].id != ga[i].id by {
            if x < i {
            } else {
            }
        }
        assert forall|x: int| 0 <= x < gb.len() && x != j implies gb[x].id != gb[j].id by {
            if x < j {
            } else {
            }
        }
        crate::order::lemma_task_index_unique(ga, i);
        crate::order::lemma_task_index_unique(gb, j);
    }
    assert(ma =~= mb);
}

/// The working set of a category does not depend on the order of the input
/// tasks: with distinct ids, a shuffled task list gives the same list, entry
/// for entry.
pub proof fn lemma_working_set_order_independent(
    a: Seq<TaskView>,
    shuffle: Seq<int>,
    b: Seq<TaskView>,
    overlays: Map<Seq<char>, TaskOverlay>,
    now: i64,
    active: TaskGroup,
    user: Option<u64>,
    filter: Seq<char>,
    ra: Seq<(TaskView, TaskOverlay)>,
    rb: Seq<(TaskView, TaskOverlay)>,
)
    requires
        unique_ids(a),
        arranged(a, shuffle, b),
        in_family_order(working_set(a, overlays, now, active, user, filter), ra),
        distinct_ids(ra),
        in_family_order(working_set(b, overlays, now, active, user, filter), rb),
        distinct_ids(rb),
    ensures
        ra == rb,
{
    // The shuffled tasks index alike and have distinct ids.
    let ea = a.map_values(|t: TaskView| (t, crate::models::default_overlay()));
    let eb = b.map_values(|t: TaskView| (t, crate::models::default_overlay()));
    assert(crate::order::task_views(ea) =~= a);
    assert(crate::order::task_views(eb) =~= b);
    assert(distinct_ids(ea));
    assert forall|i: int| 0 <= i < shuffle.len() implies #[trigger] eb[i] == ea[shuffle[i]] by {
    }
    assert(arranged(ea, shuffle, eb));
    crate::order::lemma_shuffle_same_index(ea, shuffle, eb);
    crate::order::lemma_arranged_onto(a, shuffle, b);
    assert(unique_ids(b)) by {
        assert forall|i: int, j: int| 0 <= i < j < b.len() implies b[i].id != b[j].id by {
            assert(eb[i].0 == b[i] && eb[j].0 == b[j]);
        }
    }
    let m = task_index(a);
    assert(task_index(b) == m);
    assert forall|k: int| 0 <= k < a.len() implies among(#[trigger] a[k], a) by {
    }
    assert forall|k: int| 0 <= k < b.len() implies among(#[trigger] b[k], a) by {
        assert(b[k] == a[shuffle[k]]);
    }
    // Both gather the same tasks.
    let ga = gathered(m, overlays, now, active, user, filter, a);
    let gb = gathered(m, overlays, now, active, user, filter, b);
    assert forall|x: TaskView| among(x, ga) <==> among(x, gb) by {
        lemma_gathered_members(a, overlays, now, active, user, filter, a, x);
        lemma_gathered_members(a, overlays, now, active, user, filter, b, x);
        if reached(m, overlays, now, active, user, filter, a, x) {
            let i = choose|i: int|
                0 <= i < a.len() && #[trigger] is_primary(a[i], overlays, now, active, user, filter)
                    && (a[i] == x || among(x, chain_of(m, user, a[i])));
            assert(crate::order::hits(shuffle, i));
            let j = choose|j: int| 0 <= j < shuffle.len() && shuffle[j] == i;
            assert(b[j] == a[i]);
        }
        if reached(m, overlays, now, active, user, filter, b, x) {
            let j = choose|j: int|
                0 <= j < b.len() && #[trigger] is_primary(b[j], overlays, now, active, user, filter)
                    && (b[j] == x || among(x, chain_of(m, user, b[j])));
            assert(b[j] == a[shuffle[j]]);
        }
    }
    let wa = working_set(a, overlays, now, active, user, filter);
    let wb = working_set(b, overlays, now, active, user, filter);
    let oa = choose|o: Seq<int>|
        arranged(wa, o, ra) && forall|i: int, j: int|
            0 <= i < j < o.len() ==> crate::order::before_at(
                crate::order::family_keys(wa),
                #[trigger] o[i],
                #[trigger] o[j],
            );
    let ob = choose|o: Seq<int>|
        arranged(wb, o, rb) && forall|i: int, j: int|
            0 <= i < j < o.len() ==> crate::order::before_at(
                crate::order::family_keys(wb),
                #[trigger] o[i],
                #[trigger] o[j],
            );
    crate::order::lemma_input_distinct(wa, oa, ra);
    crate::order::lemma_input_distinct(wb, ob, rb);
    crate::order::lemma_arranged_onto(wa, oa, ra);
    crate::order::lemma_arranged_onto(wb, ob, rb);
    assert(crate::order::task_views(wa) =~= ga);
    assert(crate::order::task_views(wb) =~= gb);
    assert(unique_ids(ga)) by {
        assert forall|i: int, j: int| 0 <= i < j < ga.len() implies ga[i].id != ga[j].id by {
            assert(wa[i].0 == ga[i] && wa[j].0 == ga[j]);
        }
    }
    assert(unique_ids(gb)) by {
        assert forall|i: int, j: int| 0 <= i < j < gb.len() implies gb[i].id != gb[j].id by {
            assert(wb[i].0 == gb[i] && wb[j].0 == gb[j]);
        }
    }
    lemma_same_members_same_index(ga, gb);
    let km = task_index(ga);
    crate::order::lemma_output_increasing(wa, oa, ra);
    crate::order::lemma_output_increasing(wb, ob, rb);
    let key = |e: (TaskView, TaskOverlay)| crate::order::family_key(km, e.0);
    assert(crate::order::increasing(ra, key));
    assert(crate::order::increasing(rb, key));
    // Each entry of one output is an entry of the other.
    assert forall|i: int| 0 <= i < ra.len() implies #[trigger] crate::order::member(ra[i], rb) by {
        let x = ga[oa[i]];
        assert(ra[i] == wa[oa[i]]);
        assert(among(x, ga));
        let l = choose|l: int| 0 <= l < gb.len() && gb[l] == x;
        assert(wb[l] == wa[oa[i]]);
        assert(crate::order::hits(ob, l));
        let k = choose|k: int| 0 <= k < ob.len() && ob[k] == l;
        assert(rb[k] == wb[l]);
    }
    assert forall|j: int| 0 <= j < rb.len() implies #[trigger] crate::order::member(rb[j], ra) by {
        let x = gb[ob[j]];
        assert(rb[j] == wb[ob[j]]);
        assert(among(x, gb));
        let l = choose|l: int| 0 <= l < ga.len() && ga[l] == x;
        assert(wa[l] == wb[ob[j]]);
        assert(crate::order::hits(oa, l));
        let k = choose|k: int| 0 <= k < oa.len() && oa[k] == l;
        assert(ra[k] == wa[l]);
    }
    // Same entries, each once: same length.
    assert(ra.no_duplicates()) by {
        assert forall|i: int, j: int| 0 <= i < ra.len() && 0 <= j < ra.len() && i != j implies ra[i]
            != ra[j] by {
            if i < j {
            } else {
            }
        }
    }
    assert(rb.no_duplicates()) by {
        assert forall|i: int, j: int| 0 <= i < rb.len() && 0 <= j < rb.len() && i != j implies rb[i]
            != rb[j] by {
            if i < j {
            } else {
            }
        }
    }
    assert(ra.to_set() =~= rb.to_set()) by {
        assert forall|x: (TaskView, TaskOverlay)| ra.to_set().contains(x) implies rb.to_set().contains(x) by {
            let i = choose|i: int| 0 <= i < ra.len() && ra[i] == x;
            assert(crate::order::member(ra[i], rb));
        }
        assert forall|x: (TaskView, TaskOverlay)| rb.to_set().contains(x) implies ra.to_set().contains(x) by {
            let j = choose|j: int| 0 <= j < rb.len() && rb[j] == x;
            assert(crate::order::member(rb[j], ra));
        }
    }
    ra.unique_seq_to_set();
    rb.unique_seq_to_set();
    assert(crate::order::covered_by(ra, rb));
    assert(crate::order::covered_by(rb, ra));
    if ra.len() > 0 {
        crate::order::lemma_increasing_unique(key, ra, rb, ra.len() - 1);
    }
    assert(ra =~= rb);
}

} // verus!
