//! Hierarchical order of a working set: families by their root's priority,
//! then by root id, then by depth below the root, then by task id.

use vstd::prelude::*;
use vstd::hash_map::StringHashMap;
use crate::models::{DisplayTask, TaskOverlay, TaskView};
use crate::text::{
    chars_before, chars_of, less_chars, lemma_chars_before_asymmetric,
    lemma_chars_before_total, lemma_chars_before_transitive,
};

verus! {

broadcast use vstd::hash_map::group_hash_map_axioms;

/// Tasks by id; of two tasks with one id, the later one is kept.
pub open spec fn task_index(ts: Seq<TaskView>) -> Map<Seq<char>, TaskView>
    decreases ts.len(),
{
    if ts.len() == 0 {
        Map::empty()
    } else {
        task_index(ts.drop_last()).insert(ts.last().id, ts.last())
    }
}

/// The tasks of a sequence of display entries.
pub open spec fn task_views(s: Seq<(TaskView, TaskOverlay)>) -> Seq<TaskView> {
    s.map_values(|e: (TaskView, TaskOverlay)| e.0)
}

/// Walks from `t` up its parents while the parent is in `m` and not yet in
/// `visited`; gives the last task reached and the number of steps taken.
pub open spec fn climb(m: Map<Seq<char>, TaskView>, t: TaskView, visited: Set<Seq<char>>) -> (
    TaskView,
    nat,
)
    decreases m.dom().difference(visited).len(),
{
    match t.parent_id {
        Some(p) => {
            if m.dom().finite() && m.contains_key(p) && !visited.contains(p) {
                proof {
                    m.dom().lemma_set_insert_diff_decreases(visited, p);
                }
                let up = climb(m, m[p], visited.insert(p));
                (up.0, up.1 + 1)
            } else {
                (t, 0)
            }
        },
        None => (t, 0),
    }
}

/// Root of `t` within the set indexed by `m`: its topmost visible ancestor,
/// or itself. A parent cycle ends the walk where it would revisit a task.
pub open spec fn root_of(m: Map<Seq<char>, TaskView>, t: TaskView) -> TaskView {
    climb(m, t, set![t.id]).0
}

/// Number of visible ancestors of `t` up to and including its root.
pub open spec fn depth_of(m: Map<Seq<char>, TaskView>, t: TaskView) -> nat {
    climb(m, t, set![t.id]).1
}

/// Rank of a priority: levels by number, no priority after all of them.
pub open spec fn priority_rank(p: Option<u8>) -> int {
    match p {
        Some(v) => v as int,
        None => 256,
    }
}

/// What the order compares, most significant first.
pub struct FamilyKey {
    pub rank: int,
    pub root: Seq<char>,
    pub depth: int,
    pub id: Seq<char>,
}

/// The key of task `t` within the set indexed by `m`.
pub open spec fn family_key(m: Map<Seq<char>, TaskView>, t: TaskView) -> FamilyKey {
    FamilyKey {
        rank: priority_rank(root_of(m, t).priority),
        root: root_of(m, t).id,
        depth: depth_of(m, t) as int,
        id: t.id,
    }
}

/// Strict lexicographic order on keys.
#[verifier::opaque]
pub open spec fn key_before(a: FamilyKey, b: FamilyKey) -> bool {
    if a.rank != b.rank {
        a.rank < b.rank
    } else if a.root != b.root {
        chars_before(a.root, b.root)
    } else if a.depth != b.depth {
        a.depth < b.depth
    } else {
        chars_before(a.id, b.id)
    }
}

pub proof fn lemma_key_before_irreflexive(a: FamilyKey)
    ensures
        !key_before(a, a),
{
    reveal(key_before);
    lemma_chars_before_asymmetric(a.id, a.id);
}

pub proof fn lemma_key_before_transitive(a: FamilyKey, b: FamilyKey, c: FamilyKey)
    requires
        key_before(a, b),
        key_before(b, c),
    ensures
        key_before(a, c),
{
    reveal(key_before);
    if a.rank == b.rank && b.rank == c.rank {
        if a.root != b.root && b.root != c.root {
            lemma_chars_before_transitive(a.root, b.root, c.root);
            if a.root == c.root {
                lemma_chars_before_asymmetric(a.root, b.root);
            }
        } else if a.root == b.root && b.root == c.root {
            if a.depth == b.depth && b.depth == c.depth {
                lemma_chars_before_transitive(a.id, b.id, c.id);
            }
        }
    }
}

/// Of two different keys, one comes first.
pub proof fn lemma_key_before_total(a: FamilyKey, b: FamilyKey)
    requires
        a != b,
    ensures
        key_before(a, b) || key_before(b, a),
{
    reveal(key_before);
    if a.rank == b.rank {
        if a.root != b.root {
            lemma_chars_before_total(a.root, b.root);
        } else if a.depth == b.depth {
            lemma_chars_before_total(a.id, b.id);
        }
    }
}

/// The exec form of a family key.
pub struct SortKey {
    pub rank: u16,
    pub root: Vec<char>,
    pub depth: usize,
    pub id: Vec<char>,
}

impl View for SortKey {
    type V = FamilyKey;

    open spec fn view(&self) -> FamilyKey {
        FamilyKey {
            rank: self.rank as int,
            root: self.root@,
            depth: self.depth as int,
            id: self.id@,
        }
    }
}

/// Whether key `a` comes before key `b`.
pub fn key_less(a: &SortKey, b: &SortKey) -> (r: bool)
    ensures
        r == key_before(a@, b@),
{
    reveal(key_before);
    proof {
        lemma_chars_before_asymmetric(a.root@, a.root@);
        lemma_chars_before_asymmetric(b.root@, b.root@);
    }
    if a.rank != b.rank {
        a.rank < b.rank
    } else if less_chars(&a.root, &b.root) {
        true
    } else if less_chars(&b.root, &a.root) {
        false
    } else {
        proof {
            if a.root@ != b.root@ {
                lemma_chars_before_total(a.root@, b.root@);
            }
        }
        if a.depth != b.depth {
            a.depth < b.depth
        } else {
            proof {
                if a.root@ != b.root@ {
                    lemma_chars_before_asymmetric(a.root@, b.root@);
                }
            }
            less_chars(&a.id, &b.id)
        }
    }
}

/// The display entries of a vector, as plain values.
pub open spec fn entry_views(v: Seq<DisplayTask>) -> Seq<(TaskView, TaskOverlay)> {
    v.map_values(|d: DisplayTask| d@)
}

/// The tasks of a vector of display entries.
pub open spec fn tasks_of(v: Seq<DisplayTask>) -> Seq<TaskView> {
    v.map_values(|d: DisplayTask| d.task@)
}

/// The index holds finitely many ids, no more than there are tasks.
pub proof fn lemma_task_index_finite(ts: Seq<TaskView>)
    ensures
        task_index(ts).dom().finite(),
        task_index(ts).dom().len() <= ts.len(),
    decreases ts.len(),
{
    if ts.len() > 0 {
        lemma_task_index_finite(ts.drop_last());
    }
}

/// One more task in the prefix adds it to the index.
pub proof fn lemma_task_index_step(ts: Seq<TaskView>, i: int)
    requires
        0 <= i < ts.len(),
    ensures
        task_index(ts.take(i + 1)) == task_index(ts.take(i)).insert(ts[i].id, ts[i]),
{
    assert(ts.take(i + 1).drop_last() =~= ts.take(i));
}

/// `pos` gives, for each id of the first `n` tasks, the position of the task
/// that `task_index` keeps.
pub open spec fn positions_of(pos: Map<Seq<char>, usize>, ts: Seq<TaskView>, n: int) -> bool {
    &&& pos.dom() == task_index(ts.take(n)).dom()
    &&& forall|k: Seq<char>| #[trigger] pos.contains_key(k) ==> pos[k] < n
        && ts[pos[k] as int] == task_index(ts.take(n))[k]
}

/// Positions of the entries by id; a later entry replaces an earlier one.
pub(crate) fn index_positions(set: &Vec<DisplayTask>) -> (pos: StringHashMap<usize>)
    ensures
        positions_of(pos@, tasks_of(set@), set.len() as int),
{
    let ghost ts = tasks_of(set@);
    let mut pos: StringHashMap<usize> = StringHashMap::new();
    assert(ts.take(0) =~= Seq::<TaskView>::empty());
    for i in 0..set.len()
        invariant
            ts == tasks_of(set@),
            ts.len() == set.len(),
            positions_of(pos@, ts, i as int),
    {
        proof {
            lemma_task_index_step(ts, i as int);
        }
        pos.insert(set[i].task.id.clone(), i);
    }
    assert(ts.take(set.len() as int) =~= ts);
    pos
}

/// Position of the root of entry `i` and its depth, within the set.
pub(crate) fn climb_positions(set: &Vec<DisplayTask>, pos: &StringHashMap<usize>, i: usize) -> (r: (
    usize,
    usize,
))
    requires
        i < set.len(),
        positions_of(pos@, tasks_of(set@), set.len() as int),
    ensures
        r.0 < set.len(),
        set@[r.0 as int].task@ == root_of(task_index(tasks_of(set@)), set@[i as int].task@),
        r.1 == depth_of(task_index(tasks_of(set@)), set@[i as int].task@),
{
    let ghost ts = tasks_of(set@);
    let ghost m = task_index(ts);
    let ghost t0 = ts[i as int];
    proof {
        assert(ts.take(set.len() as int) =~= ts);
        lemma_task_index_finite(ts);
        vstd::set_lib::lemma_len_difference(m.dom(), set![t0.id]);
    }
    let mut visited: StringHashMap<bool> = StringHashMap::new();
    visited.insert(set[i].task.id.clone(), true);
    assert(visited@.dom() =~= set![t0.id]);
    let mut cur: usize = i;
    let mut depth: usize = 0;
    loop
        invariant
            ts == tasks_of(set@),
            m == task_index(ts),
            ts.len() == set.len(),
            positions_of(pos@, ts, set.len() as int),
            m.dom().finite(),
            m.dom().len() <= set.len(),
            m.dom().difference(set![t0.id]).len() <= m.dom().len(),
            ts.take(set.len() as int) == ts,
            i < set.len(),
            t0 == ts[i as int],
            cur < set.len(),
            climb(m, t0, set![t0.id]).0 == climb(m, ts[cur as int], visited@.dom()).0,
            climb(m, t0, set![t0.id]).1 == climb(m, ts[cur as int], visited@.dom()).1 + depth,
            depth + m.dom().difference(visited@.dom()).len() <= m.dom().difference(
                set![t0.id],
            ).len(),
        ensures
            climb(m, ts[cur as int], visited@.dom()) == (ts[cur as int], 0nat),
        decreases m.dom().difference(visited@.dom()).len(),
    {
        assert(ts[cur as int] == set@[cur as int].task@);
        match &set[cur].task.parent_id {
            Some(p) => {
                assert(ts[cur as int].parent_id == Some(p@));
                match pos.get(p.as_str()) {
                    Some(q) => {
                        if visited.contains_key(p.as_str()) {
                            assert(climb(m, ts[cur as int], visited@.dom()) == (ts[cur as int], 0nat));
                            break ;
                        }
                        proof {
                            m.dom().lemma_set_insert_diff_decreases(visited@.dom(), p@);
                        }
                        let ghost old_vis = visited@.dom();
                        assert(m[p@] == ts[*q as int]);
                        assert(climb(m, ts[cur as int], old_vis) == (
                            climb(m, m[p@], old_vis.insert(p@)).0,
                            climb(m, m[p@], old_vis.insert(p@)).1 + 1,
                        ));
                        visited.insert(p.clone(), true);
                        assert(visited@.dom() =~= old_vis.insert(p@));
                        cur = *q;
                        depth = depth + 1;
                    },
                    None => {
                        assert(climb(m, ts[cur as int], visited@.dom()) == (ts[cur as int], 0nat));
                        break ;
                    },
                }
            },
            None => {
                assert(climb(m, ts[cur as int], visited@.dom()) == (ts[cur as int], 0nat));
                break ;
            },
        }
    }
    assert(t0 == set@[i as int].task@);
    assert(ts[cur as int] == set@[cur as int].task@);
    (cur, depth)
}

/// Position `a` comes before position `b` by their keys; equal keys keep
/// the order of the positions.
pub open spec fn before_at(keys: Seq<FamilyKey>, a: int, b: int) -> bool {
    key_before(keys[a], keys[b]) || (keys[a] == keys[b] && a < b)
}

proof fn lemma_before_at_transitive(keys: Seq<FamilyKey>, a: int, b: int, c: int)
    requires
        before_at(keys, a, b),
        before_at(keys, b, c),
    ensures
        before_at(keys, a, c),
{
    if key_before(keys[a], keys[b]) && key_before(keys[b], keys[c]) {
        lemma_key_before_transitive(keys[a], keys[b], keys[c]);
    }
}

/// The family keys of the entries of a set, in input order.
pub open spec fn family_keys(s: Seq<(TaskView, TaskOverlay)>) -> Seq<FamilyKey> {
    let m = task_index(task_views(s));
    task_views(s).map_values(|t: TaskView| family_key(m, t))
}

/// `out` is `input` rearranged: `out[i]` is `input[ord[i]]`, each position once.
pub open spec fn arranged<T>(input: Seq<T>, ord: Seq<int>, out: Seq<T>) -> bool {
    &&& ord.len() == input.len()
    &&& out.len() == input.len()
    &&& forall|i: int| 0 <= i < ord.len() ==> 0 <= #[trigger] ord[i] < input.len()
    &&& forall|i: int| 0 <= i < ord.len() ==> #[trigger] out[i] == input[ord[i]]
    &&& forall|i: int, j: int| 0 <= i < j < ord.len() ==> ord[i] != ord[j]
}

/// `out` holds the entries of `input` in family order: by root priority,
/// root id, depth below the root and id; entries with equal keys keep their
/// input order.
pub open spec fn in_family_order(
    input: Seq<(TaskView, TaskOverlay)>,
    out: Seq<(TaskView, TaskOverlay)>,
) -> bool {
    exists|ord: Seq<int>|
        arranged(input, ord, out) && forall|i: int, j: int|
            0 <= i < j < ord.len() ==> before_at(family_keys(input), #[trigger] ord[i], #[trigger] ord[j])
}

/// Orders a working set: families by their root's priority (none last),
/// then by root id; within a family by depth below the root; then by id.
/// Root and depth are taken within the set alone.
pub fn sort_hierarchy(set: Vec<DisplayTask>) -> (r: Vec<DisplayTask>)
    ensures
        in_family_order(entry_views(set@), entry_views(r@)),
{
    let ghost ts = tasks_of(set@);
    let ghost m = task_index(ts);
    let ghost fk = family_keys(entry_views(set@));
    assert(task_views(entry_views(set@)) =~= ts);
    let n = set.len();
    let pos = index_positions(&set);
    let mut keys: Vec<SortKey> = Vec::new();
    for i in 0..n
        invariant
            n == set.len(),
            ts == tasks_of(set@),
            m == task_index(ts),
            fk == family_keys(entry_views(set@)),
            task_views(entry_views(set@)) == ts,
            fk.len() == n,
            positions_of(pos@, ts, n as int),
            keys.len() == i,
            forall|j: int| 0 <= j < i ==> (#[trigger] keys@[j])@ == fk[j],
    {
        let (root, depth) = climb_positions(&set, &pos, i);
        let rank: u16 = match set[root].task.priority {
            Some(p) => p as u16,
            None => 256,
        };
        let key = SortKey {
            rank,
            root: chars_of(set[root].task.id.as_str()),
            depth,
            id: chars_of(set[i].task.id.as_str()),
        };
        assert(ts[i as int] == set@[i as int].task@);
        assert(key@ == fk[i as int]);
        keys.push(key);
    }
    let ghost kv = keys@.map_values(|k: SortKey| k@);
    assert(kv =~= fk);
    let mut ord: Vec<usize> = Vec::new();
    for i in 0..n
        invariant
            n == set.len(),
            keys.len() == n,
            kv == keys@.map_values(|k: SortKey| k@),
            kv.len() == n,
            ord.len() == i,
            forall|x: int| 0 <= x < i ==> #[trigger] ord@[x] < i,
            forall|x: int, y: int| 0 <= x < y < i ==> ord@[x] != ord@[y],
            forall|x: int, y: int|
                0 <= x < y < i ==> before_at(kv, #[trigger] ord@[x] as int, #[trigger] ord@[y] as int),
    {
        let mut j: usize = ord.len();
        while j > 0 && key_less(&keys[i], &keys[ord[j - 1]])
            invariant
                n == set.len(),
                keys.len() == n,
                kv == keys@.map_values(|k: SortKey| k@),
                i < n,
                ord.len() == i,
                j <= ord.len(),
                forall|x: int| 0 <= x < i ==> #[trigger] ord@[x] < i,
                forall|y: int| j <= y < i ==> key_before(kv[i as int], kv[#[trigger] ord@[y] as int]),
            decreases j,
        {
            j = j - 1;
        }
        proof {
            if j > 0 {
                let x = ord@[j - 1] as int;
                assert(!key_before(kv[i as int], kv[x]));
                if kv[i as int] != kv[x] {
                    lemma_key_before_total(kv[i as int], kv[x]);
                }
                assert(before_at(kv, x, i as int));
            }
        }
        let ghost old_ord = ord@;
        ord.insert(j, i);
        proof {
            assert forall|x: int, y: int| 0 <= x < y < i + 1 implies before_at(
                kv,
                #[trigger] ord@[x] as int,
                #[trigger] ord@[y] as int,
            ) by {
                if y < j {
                    assert(ord@[x] == old_ord[x] && ord@[y] == old_ord[y]);
                } else if y == j {
                    assert(ord@[x] == old_ord[x]);
                    if x < j - 1 {
                        lemma_before_at_transitive(kv, old_ord[x] as int, old_ord[j - 1] as int, i as int);
                    }
                } else if x == j {
                    assert(ord@[y] == old_ord[y - 1]);
                } else if x < j {
                    assert(ord@[x] == old_ord[x] && ord@[y] == old_ord[y - 1]);
                } else {
                    assert(ord@[x] == old_ord[x - 1] && ord@[y] == old_ord[y - 1]);
                }
            }
            assert forall|x: int, y: int| 0 <= x < y < i + 1 implies ord@[x] != ord@[y] by {
                if x < j && y < j {
                    assert(ord@[x] == old_ord[x] && ord@[y] == old_ord[y]);
                } else if x < j && y > j {
                    assert(ord@[x] == old_ord[x] && ord@[y] == old_ord[y - 1]);
                } else if x > j {
                    assert(ord@[x] == old_ord[x - 1] && ord@[y] == old_ord[y - 1]);
                } else if x < j {
                    assert(ord@[x] == old_ord[x]);
                } else {
                    assert(ord@[y] == old_ord[y - 1]);
                }
            }
            assert forall|x: int| 0 <= x < i + 1 implies #[trigger] ord@[x] < i + 1 by {
                if x < j {
                    assert(ord@[x] == old_ord[x]);
                } else if x > j {
                    assert(ord@[x] == old_ord[x - 1]);
                }
            }
        }
    }
    let mut r: Vec<DisplayTask> = Vec::new();
    for k in 0..n
        invariant
            n == set.len(),
            ord.len() == n,
            forall|x: int| 0 <= x < n ==> #[trigger] ord@[x] < n,
            r.len() == k,
            forall|x: int| 0 <= x < k ==> (#[trigger] r@[x])@ == set@[ord@[x] as int]@,
    {
        let e = set[ord[k]].clone();
        r.push(e);
    }
    proof {
        let iv = entry_views(set@);
        let ov = entry_views(r@);
        let o = ord@.map_values(|x: usize| x as int);
        assert(arranged(iv, o, ov));
        assert forall|i: int, j: int| 0 <= i < j < o.len() implies before_at(fk, #[trigger] o[i], #[trigger] o[j]) by {
            assert(o[i] == ord@[i] as int && o[j] == ord@[j] as int);
        }
    }
    r
}

/// No two entries share an id.
pub open spec fn distinct_ids(s: Seq<(TaskView, TaskOverlay)>) -> bool {
    forall|i: int, j: int| 0 <= i < j < s.len() ==> s[i].0.id != s[j].0.id
}

/// An id is in the index exactly when some task has it.
pub proof fn lemma_task_index_keys(ts: Seq<TaskView>, k: Seq<char>)
    ensures
        task_index(ts).contains_key(k) <==> exists|i: int| 0 <= i < ts.len() && ts[i].id == k,
    decreases ts.len(),
{
    if ts.len() > 0 {
        let init = ts.drop_last();
        lemma_task_index_keys(init, k);
        if task_index(ts).contains_key(k) {
            if k == ts.last().id {
                assert(ts[ts.len() - 1].id == k);
            } else {
                assert(task_index(init).contains_key(k));
                let i = choose|i: int| 0 <= i < init.len() && init[i].id == k;
                assert(ts[i] == init[i]);
            }
        }
        if exists|i: int| 0 <= i < ts.len() && ts[i].id == k {
            let i = choose|i: int| 0 <= i < ts.len() && ts[i].id == k;
            if i < init.len() {
                assert(init[i] == ts[i]);
            }
        }
    }
}

/// With its id held by no other task, a task is what the index gives for it.
pub proof fn lemma_task_index_unique(ts: Seq<TaskView>, i: int)
    requires
        0 <= i < ts.len(),
        forall|j: int| 0 <= j < ts.len() && j != i ==> ts[j].id != ts[i].id,
    ensures
        task_index(ts).contains_key(ts[i].id),
        task_index(ts)[ts[i].id] == ts[i],
    decreases ts.len(),
{
    let init = ts.drop_last();
    if i < init.len() {
        assert(init[i] == ts[i]);
        assert(ts[ts.len() - 1].id != ts[i].id);
        assert forall|j: int| 0 <= j < init.len() && j != i implies init[j].id != init[i].id by {
            assert(init[j] == ts[j]);
        }
        lemma_task_index_unique(init, i);
    }
}

/// Some entry of `ord` is `k`.
pub open spec fn hits(ord: Seq<int>, k: int) -> bool {
    exists|i: int| 0 <= i < ord.len() && ord[i] == k
}

/// A rearrangement reaches every position of its input.
pub proof fn lemma_arranged_onto<T>(input: Seq<T>, ord: Seq<int>, out: Seq<T>)
    requires
        arranged(input, ord, out),
    ensures
        forall|k: int| 0 <= k < input.len() ==> #[trigger] hits(ord, k),
{
    let n = input.len() as int;
    assert forall|k: int| 0 <= k < n implies #[trigger] hits(ord, k) by {
        if !hits(ord, k) {
            let range = vstd::set_lib::set_int_range(0, n);
            vstd::set_lib::lemma_int_range(0, n);
            assert(ord.no_duplicates());
            ord.unique_seq_to_set();
            assert(ord.to_set().subset_of(range.remove(k)));
            vstd::set_lib::lemma_len_subset(ord.to_set(), range.remove(k));
        }
    }
}

/// Entries of different ids have different keys, so their order is strict.
proof fn lemma_before_strict(s: Seq<(TaskView, TaskOverlay)>, x: int, y: int)
    requires
        distinct_ids(s),
        0 <= x < s.len(),
        0 <= y < s.len(),
        x != y,
    ensures
        before_at(family_keys(s), x, y) <==> key_before(family_keys(s)[x], family_keys(s)[y]),
        before_at(family_keys(s), x, y) || before_at(family_keys(s), y, x),
        !(before_at(family_keys(s), x, y) && before_at(family_keys(s), y, x)),
{
    let fk = family_keys(s);
    assert(fk[x].id == s[x].0.id);
    assert(fk[y].id == s[y].0.id);
    assert(fk[x] != fk[y]);
    lemma_key_before_total(fk[x], fk[y]);
    if key_before(fk[x], fk[y]) && key_before(fk[y], fk[x]) {
        lemma_key_before_transitive(fk[x], fk[y], fk[x]);
        lemma_key_before_irreflexive(fk[x]);
    }
}

/// Within one family level (same root priority, root and depth), the key
/// order is the order of the ids.
pub proof fn lemma_same_level_by_id(a: FamilyKey, b: FamilyKey)
    requires
        a.rank == b.rank,
        a.root == b.root,
        a.depth == b.depth,
    ensures
        key_before(a, b) == chars_before(a.id, b.id),
{
    reveal(key_before);
}

/// A shuffled copy of a set with distinct ids has distinct ids and the same
/// index.
pub(crate) proof fn lemma_shuffle_same_index(
    a: Seq<(TaskView, TaskOverlay)>,
    shuffle: Seq<int>,
    b: Seq<(TaskView, TaskOverlay)>,
)
    requires
        distinct_ids(a),
        arranged(a, shuffle, b),
    ensures
        distinct_ids(b),
        task_index(task_views(a)) == task_index(task_views(b)),
{
    lemma_arranged_onto(a, shuffle, b);
    assert forall|i: int, j: int| 0 <= i < j < b.len() implies b[i].0.id != b[j].0.id by {
        assert(b[i] == a[shuffle[i]] && b[j] == a[shuffle[j]]);
        if shuffle[i] < shuffle[j] {
        } else {
        }
    }
    let ta = task_views(a);
    let tb = task_views(b);
    let ma = task_index(ta);
    let mb = task_index(tb);
    assert forall|k: Seq<char>| ma.contains_key(k) <==> mb.contains_key(k) by {
        lemma_task_index_keys(ta, k);
        lemma_task_index_keys(tb, k);
        if ma.contains_key(k) {
            let i = choose|i: int| 0 <= i < ta.len() && ta[i].id == k;
            assert(hits(shuffle, i));
            let j = choose|j: int| 0 <= j < shuffle.len() && shuffle[j] == i;
            assert(tb[j] == b[j].0);
        }
        if mb.contains_key(k) {
            let j = choose|j: int| 0 <= j < tb.len() && tb[j].id == k;
            assert(ta[shuffle[j]] == a[shuffle[j]].0);
        }
    }
    assert forall|k: Seq<char>| ma.contains_key(k) implies ma[k] == mb[k] by {
        lemma_task_index_keys(ta, k);
        let i = choose|i: int| 0 <= i < ta.len() && ta[i].id == k;
        assert(hits(shuffle, i));
        let j = choose|j: int| 0 <= j < shuffle.len() && shuffle[j] == i;
        assert(ta[i] == a[i].0);
        assert(tb[j] == b[j].0);
        assert forall|x: int| 0 <= x < ta.len() && x != i implies ta[x].id != ta[i].id by {
            assert(ta[x] == a[x].0);
            if x < i {
            } else {
            }
        }
        assert forall|x: int| 0 <= x < tb.len() && x != j implies tb[x].id != tb[j].id by {
            assert(tb[x] == b[x].0);
            if x < j {
            } else {
            }
        }
        lemma_task_index_unique(ta, i);
        lemma_task_index_unique(tb, j);
    }
    assert(ma =~= mb);
}

/// The output of family order on a set with distinct ids is strictly
/// increasing in key.
pub(crate) proof fn lemma_output_increasing(
    s: Seq<(TaskView, TaskOverlay)>,
    o: Seq<int>,
    r: Seq<(TaskView, TaskOverlay)>,
)
    requires
        distinct_ids(s),
        arranged(s, o, r),
        forall|i: int, j: int|
            0 <= i < j < o.len() ==> before_at(family_keys(s), #[trigger] o[i], #[trigger] o[j]),
    ensures
        forall|i: int, j: int| 0 <= i < j < r.len() ==> key_before(
            family_key(task_index(task_views(s)), #[trigger] r[i].0),
            family_key(task_index(task_views(s)), #[trigger] r[j].0),
        ),
{
    assert forall|i: int, j: int| 0 <= i < j < r.len() implies key_before(
        family_key(task_index(task_views(s)), #[trigger] r[i].0),
        family_key(task_index(task_views(s)), #[trigger] r[j].0),
    ) by {
        assert(before_at(family_keys(s), o[i], o[j]));
        lemma_before_strict(s, o[i], o[j]);
        assert(task_views(s)[o[i]] == s[o[i]].0);
        assert(task_views(s)[o[j]] == s[o[j]].0);
    }
}

/// `x` is an entry of `ys`.
pub open spec fn member<T>(x: T, ys: Seq<T>) -> bool {
    exists|j: int| 0 <= j < ys.len() && ys[j] == x
}

/// Every entry of `xs` is an entry of `ys`.
pub open spec fn covered_by<T>(xs: Seq<T>, ys: Seq<T>) -> bool {
    forall|i: int| 0 <= i < xs.len() ==> #[trigger] member(xs[i], ys)
}

/// The keys of `xs` strictly increase.
pub open spec fn increasing<T>(xs: Seq<T>, key: spec_fn(T) -> FamilyKey) -> bool {
    forall|i: int, j: int| 0 <= i < j < xs.len() ==> key_before(key(#[trigger] xs[i]), key(#[trigger] xs[j]))
}

/// Two sequences that hold the same entries, each strictly increasing in
/// key, agree up to position `i`.
pub(crate) proof fn lemma_increasing_unique<T>(key: spec_fn(T) -> FamilyKey, ra: Seq<T>, rb: Seq<T>, i: int)
    requires
        ra.len() == rb.len(),
        0 <= i < ra.len(),
        increasing(ra, key),
        increasing(rb, key),
        covered_by(ra, rb),
        covered_by(rb, ra),
    ensures
        forall|t: int| 0 <= t <= i ==> ra[t] == rb[t],
    decreases i,
{
    if i > 0 {
        lemma_increasing_unique(key, ra, rb, i - 1);
    }
    if ra[i] != rb[i] {
        assert(member(ra[i], rb));
        assert(member(rb[i], ra));
        let j = choose|j: int| 0 <= j < rb.len() && rb[j] == ra[i];
        let k = choose|k: int| 0 <= k < ra.len() && ra[k] == rb[i];
        let x = key(ra[i]);
        let y = key(rb[i]);
        if j < i {
            assert(ra[j] == rb[j]);
            assert(key_before(key(ra[j]), x));
            lemma_key_before_irreflexive(x);
        } else if k < i {
            assert(ra[k] == rb[k]);
            assert(key_before(key(rb[k]), y));
            lemma_key_before_irreflexive(y);
        } else {
            assert(key_before(x, key(ra[k])));
            assert(key_before(y, key(rb[j])));
            lemma_key_before_transitive(x, y, x);
            lemma_key_before_irreflexive(x);
        }
    }
}

/// The family order of a set with distinct ids does not depend on the order
/// of the input: a shuffled copy of the input sorts to the same sequence.
pub proof fn lemma_family_order_deterministic(
    a: Seq<(TaskView, TaskOverlay)>,
    shuffle: Seq<int>,
    b: Seq<(TaskView, TaskOverlay)>,
    ra: Seq<(TaskView, TaskOverlay)>,
    rb: Seq<(TaskView, TaskOverlay)>,
)
    requires
        distinct_ids(a),
        arranged(a, shuffle, b),
        in_family_order(a, ra),
        in_family_order(b, rb),
    ensures
        ra == rb,
{
    let n = a.len();
    let oa = choose|o: Seq<int>|
        arranged(a, o, ra) && forall|i: int, j: int|
            0 <= i < j < o.len() ==> before_at(family_keys(a), #[trigger] o[i], #[trigger] o[j]);
    let ob = choose|o: Seq<int>|
        arranged(b, o, rb) && forall|i: int, j: int|
            0 <= i < j < o.len() ==> before_at(family_keys(b), #[trigger] o[i], #[trigger] o[j]);
    lemma_arranged_onto(a, shuffle, b);
    lemma_arranged_onto(a, oa, ra);
    lemma_arranged_onto(b, ob, rb);
    lemma_shuffle_same_index(a, shuffle, b);
    lemma_output_increasing(a, oa, ra);
    lemma_output_increasing(b, ob, rb);
    assert forall|i: int| 0 <= i < ra.len() implies #[trigger] member(ra[i], rb) by {
        let k = oa[i];
        assert(hits(shuffle, k));
        let x = choose|x: int| 0 <= x < n && shuffle[x] == k;
        assert(hits(ob, x));
        let j = choose|j: int| 0 <= j < n && ob[j] == x;
        assert(rb[j] == b[x]);
    }
    assert forall|j: int| 0 <= j < rb.len() implies #[trigger] member(rb[j], ra) by {
        let k = shuffle[ob[j]];
        assert(hits(oa, k));
        let i = choose|i: int| 0 <= i < n && oa[i] == k;
        assert(ra[i] == a[k]);
    }
    let key = |e: (TaskView, TaskOverlay)| family_key(task_index(task_views(a)), e.0);
    assert(increasing(ra, key));
    assert(increasing(rb, key));
    assert(covered_by(ra, rb));
    assert(covered_by(rb, ra));
    if n > 0 {
        lemma_increasing_unique(key, ra, rb, n - 1);
    }
    assert(ra =~= rb);
}

/// In family order with distinct ids, two entries of one family level, by
/// root priority, root and depth taken within the output itself, come in
/// id order.
pub proof fn lemma_family_level_by_id(
    input: Seq<(TaskView, TaskOverlay)>,
    out: Seq<(TaskView, TaskOverlay)>,
    i: int,
    j: int,
)
    requires
        in_family_order(input, out),
        distinct_ids(out),
        0 <= i < j < out.len(),
        family_key(task_index(task_views(out)), out[i].0).rank == family_key(
            task_index(task_views(out)),
            out[j].0,
        ).rank,
        family_key(task_index(task_views(out)), out[i].0).root == family_key(
            task_index(task_views(out)),
            out[j].0,
        ).root,
        family_key(task_index(task_views(out)), out[i].0).depth == family_key(
            task_index(task_views(out)),
            out[j].0,
        ).depth,
    ensures
        chars_before(out[i].0.id, out[j].0.id),
{
    let ord = choose|o: Seq<int>|
        arranged(input, o, out) && forall|a: int, b: int|
            0 <= a < b < o.len() ==> before_at(family_keys(input), #[trigger] o[a], #[trigger] o[b]);
    lemma_arranged_onto(input, ord, out);
    // The input has distinct ids too.
    assert forall|a: int, b: int| 0 <= a < b < input.len() implies input[a].0.id != input[b].0.id by {
        assert(hits(ord, a));
        assert(hits(ord, b));
        let x = choose|x: int| 0 <= x < ord.len() && ord[x] == a;
        let y = choose|y: int| 0 <= y < ord.len() && ord[y] == b;
        assert(out[x] == input[a] && out[y] == input[b]);
        if x < y {
        } else {
        }
    }
    // The output is a rearrangement of the input: same index.
    let inv = Seq::new(input.len(), |a: int| choose|x: int| 0 <= x < ord.len() && ord[x] == a);
    assert forall|a: int| 0 <= a < input.len() implies 0 <= #[trigger] inv[a] < out.len()
        && input[a] == out[inv[a]] by {
        assert(hits(ord, a));
    }
    assert forall|a: int, b: int| 0 <= a < b < inv.len() implies inv[a] != inv[b] by {
        assert(hits(ord, a));
        assert(hits(ord, b));
    }
    assert(arranged(out, inv, input));
    lemma_shuffle_same_index(out, inv, input);
    lemma_output_increasing(input, ord, out);
    lemma_same_level_by_id(
        family_key(task_index(task_views(out)), out[i].0),
        family_key(task_index(task_views(out)), out[j].0),
    );
}

/// The input of a rearrangement with distinct ids has distinct ids.
pub proof fn lemma_input_distinct(
    input: Seq<(TaskView, TaskOverlay)>,
    ord: Seq<int>,
    out: Seq<(TaskView, TaskOverlay)>,
)
    requires
        arranged(input, ord, out),
        distinct_ids(out),
    ensures
        distinct_ids(input),
{
    lemma_arranged_onto(input, ord, out);
    assert forall|a: int, b: int| 0 <= a < b < input.len() implies input[a].0.id != input[b].0.id by {
        assert(hits(ord, a));
        assert(hits(ord, b));
        let x = choose|x: int| 0 <= x < ord.len() && ord[x] == a;
        let y = choose|y: int| 0 <= y < ord.len() && ord[y] == b;
        assert(out[x] == input[a] && out[y] == input[b]);
        if x < y {
        } else {
        }
    }
}

} // verus!
