//! Free-text fuzzy search over all tasks.

use vstd::prelude::*;
use crate::models::{DisplayTask, OverlayStore, Task, TaskOverlay, TaskView, overlay_in};
use crate::order::{arranged, entry_views};
use crate::text::{alphanumeric, chars_of, is_alnum, lower_of, lowercase};
use crate::workset::task_seq;

verus! {

/// Longest query, in characters, whose score is sure to fit in a `u64`.
pub const MAX_QUERY_CHARS: u64 = 0x0fff_ffff_ffff_ffff;

/// Scans the first `n` characters of `t` for the characters of `q` in
/// order. Gives how many of `q` were matched, the score so far, and the
/// position of the last match. A match scores 1, 10 more at the start of a
/// word (first position, or after a character that is not alphanumeric), 5
/// more right after the previous match.
pub open spec fn scan(t: Seq<char>, q: Seq<char>, n: int) -> (int, int, Option<int>)
    decreases n,
{
    if n <= 0 {
        (0, 0, None)
    } else {
        let prev = scan(t, q, n - 1);
        let i = n - 1;
        if prev.0 < q.len() && t[i] == q[prev.0] {
            let word = if i == 0 || !is_alnum(t[i - 1]) {
                10int
            } else {
                0int
            };
            let run = if prev.2 == Some(i - 1) {
                5int
            } else {
                0int
            };
            (prev.0 + 1, prev.1 + 1 + word + run, Some(i))
        } else {
            prev
        }
    }
}

/// The score of query `q` against the lowercase field `t`: `None` unless
/// all of `q` is found in order; an empty query scores 0.
pub open spec fn fuzzy_match(t: Seq<char>, q: Seq<char>) -> Option<int> {
    if q.len() == 0 {
        Some(0)
    } else if scan(t, q, t.len() as int).0 == q.len() {
        Some(scan(t, q, t.len() as int).1)
    } else {
        None
    }
}

/// The same score, as a machine integer.
pub open spec fn score_view(r: Option<u64>) -> Option<int> {
    match r {
        Some(v) => Some(v as int),
        None => None,
    }
}

proof fn lemma_scan_bounds(t: Seq<char>, q: Seq<char>, n: int)
    requires
        0 <= n <= t.len(),
    ensures
        0 <= scan(t, q, n).0 <= q.len(),
        0 <= scan(t, q, n).1 <= 16 * scan(t, q, n).0,
        scan(t, q, n).2 matches Some(l) ==> l == n - 1 || l < n - 1,
    decreases n,
{
    if n > 0 {
        lemma_scan_bounds(t, q, n - 1);
    }
}

/// `idx` places the characters of `q` in `t`, before position `n`, in
/// increasing order.
pub open spec fn embeds(q: Seq<char>, t: Seq<char>, n: int, idx: Seq<int>) -> bool {
    &&& n <= t.len()
    &&& idx.len() == q.len()
    &&& forall|k: int| 0 <= k < idx.len() ==> 0 <= #[trigger] idx[k] < n && t[idx[k]] == q[k]
    &&& forall|k: int, l: int| 0 <= k < l < idx.len() ==> idx[k] < idx[l]
}

/// The characters of `q` occur in `t` in order, not necessarily adjacent.
pub open spec fn is_subsequence(q: Seq<char>, t: Seq<char>) -> bool {
    exists|idx: Seq<int>| embeds(q, t, t.len() as int, idx)
}

/// The scan places the characters it matched.
proof fn lemma_scan_witness(t: Seq<char>, q: Seq<char>, n: int) -> (idx: Seq<int>)
    requires
        0 <= n <= t.len(),
    ensures
        embeds(q.take(scan(t, q, n).0), t, n, idx),
    decreases n,
{
    lemma_scan_bounds(t, q, n);
    if n == 0 {
        assert(q.take(0) =~= Seq::<char>::empty());
        Seq::<int>::empty()
    } else {
        let prev = lemma_scan_witness(t, q, n - 1);
        let p = scan(t, q, n - 1);
        lemma_scan_bounds(t, q, n - 1);
        if p.0 < q.len() && t[n - 1] == q[p.0] {
            let r = prev.push(n - 1);
            assert forall|k: int| 0 <= k < r.len() implies 0 <= #[trigger] r[k] < n && t[r[k]]
                == q.take(p.0 + 1)[k] by {
                if k < prev.len() {
                    assert(r[k] == prev[k]);
                    assert(q.take(p.0 + 1)[k] == q.take(p.0)[k]);
                }
            }
            assert forall|k: int, l: int| 0 <= k < l < r.len() implies r[k] < r[l] by {
                assert(r[k] == prev[k]);
                if l < prev.len() {
                    assert(r[l] == prev[l]);
                }
            }
            r
        } else {
            prev
        }
    }
}

/// No longer prefix of `q` than the scan matched fits before position `n`.
proof fn lemma_scan_maximal(t: Seq<char>, q: Seq<char>, n: int, j: int, idx: Seq<int>)
    requires
        0 <= n <= t.len(),
        0 <= j <= q.len(),
        embeds(q.take(j), t, n, idx),
    ensures
        j <= scan(t, q, n).0,
    decreases n,
{
    lemma_scan_bounds(t, q, n);
    if j > 0 {
        if n == 0 {
            assert(idx[0] < 0);
        } else {
            let last = idx[j - 1];
            let p = scan(t, q, n - 1);
            if last < n - 1 {
                assert(embeds(q.take(j), t, n - 1, idx)) by {
                    assert forall|k: int| 0 <= k < idx.len() implies 0 <= #[trigger] idx[k] < n - 1 by {
                        if k < j - 1 {
                            assert(idx[k] < idx[j - 1]);
                        }
                    }
                }
                lemma_scan_maximal(t, q, n - 1, j, idx);
                assert(p.0 <= scan(t, q, n).0);
            } else {
                let pre = idx.take(j - 1);
                assert(embeds(q.take(j - 1), t, n - 1, pre)) by {
                    assert forall|k: int| 0 <= k < pre.len() implies 0 <= #[trigger] pre[k] < n - 1
                        && t[pre[k]] == q.take(j - 1)[k] by {
                        assert(pre[k] == idx[k]);
                        assert(idx[k] < idx[j - 1]);
                        assert(q.take(j - 1)[k] == q.take(j)[k]);
                    }
                    assert forall|k: int, l: int| 0 <= k < l < pre.len() implies pre[k] < pre[l] by {
                        assert(pre[k] == idx[k] && pre[l] == idx[l]);
                    }
                }
                lemma_scan_maximal(t, q, n - 1, j - 1, pre);
                assert(t[n - 1] == q.take(j)[j - 1]);
                assert(q.take(j)[j - 1] == q[j - 1]);
                assert(p.0 <= scan(t, q, n).0);
                if j - 1 == p.0 {
                    assert(scan(t, q, n).0 == p.0 + 1);
                }
            }
        }
    }
}

/// A query matches a field exactly when its characters occur in the field
/// in order.
pub proof fn lemma_match_iff_subsequence(t: Seq<char>, q: Seq<char>)
    ensures
        fuzzy_match(t, q) is Some <==> is_subsequence(q, t),
{
    let n = t.len() as int;
    lemma_scan_bounds(t, q, n);
    if q.len() == 0 {
        assert(embeds(q, t, n, Seq::<int>::empty()));
    } else {
        if scan(t, q, n).0 == q.len() {
            let idx = lemma_scan_witness(t, q, n);
            assert(q.take(q.len() as int) =~= q);
            assert(embeds(q, t, n, idx));
        }
        if is_subsequence(q, t) {
            let idx = choose|idx: Seq<int>| embeds(q, t, n, idx);
            assert(q.take(q.len() as int) =~= q);
            lemma_scan_maximal(t, q, n, q.len() as int, idx);
        }
    }
}

/// Scores a query against a field already in lowercase.
pub fn fuzzy_score_lowered(text: &Vec<char>, query: &Vec<char>) -> (r: Option<u64>)
    requires
        query@.len() <= MAX_QUERY_CHARS,
    ensures
        score_view(r) == fuzzy_match(text@, query@),
{
    if query.len() == 0 {
        return Some(0);
    }
    let mut matched: usize = 0;
    let mut score: u64 = 0;
    let mut last: Option<usize> = None;
    let mut i: usize = 0;
    while i < text.len()
        invariant
            i <= text.len(),
            query@.len() <= MAX_QUERY_CHARS,
            scan(text@, query@, i as int) == (matched as int, score as int, match last {
                Some(l) => Some(l as int),
                None => None::<int>,
            }),
            0 <= matched <= query.len(),
            score <= 16 * matched,
        decreases text.len() - i,
    {
        proof {
            lemma_scan_bounds(text@, query@, i as int);
        }
        if matched < query.len() && text[i] == query[matched] {
            let word = if i == 0 {
                true
            } else {
                !alphanumeric(text[i - 1])
            };
            let mut add: u64 = 1;
            if word {
                add = add + 10;
            }
            match last {
                Some(l) => {
                    if i > 0 && l == i - 1 {
                        add = add + 5;
                    }
                },
                None => {},
            }
            score = score + add;
            matched = matched + 1;
            last = Some(i);
        }
        i = i + 1;
    }
    if matched == query.len() {
        Some(score)
    } else {
        None
    }
}

/// Scores a query, already in lowercase, against a field, compared in
/// lowercase.
pub fn fuzzy_score(text: &str, query: &Vec<char>) -> (r: Option<u64>)
    requires
        query@.len() <= MAX_QUERY_CHARS,
    ensures
        score_view(r) == fuzzy_match(lower_of(text@), query@),
{
    let lower = lowercase(text);
    let chars = chars_of(lower.as_str());
    fuzzy_score_lowered(&chars, query)
}

/// The fields a task is searched in, in order: name, list name, status,
/// description (if any), then each tag.
pub open spec fn search_fields(t: TaskView) -> Seq<Seq<char>> {
    seq![t.name, t.list_name, t.status] + match t.description {
        Some(d) => seq![d],
        None => Seq::<Seq<char>>::empty(),
    } + t.tags
}

/// The score of the first field that the query matches, if any.
pub open spec fn first_score(fields: Seq<Seq<char>>, q: Seq<char>) -> Option<int>
    decreases fields.len(),
{
    if fields.len() == 0 {
        None
    } else {
        match fuzzy_match(lower_of(fields[0]), q) {
            Some(v) => Some(v),
            None => first_score(fields.drop_first(), q),
        }
    }
}

/// The search score of a task: that of its first matching field.
pub open spec fn task_score(t: TaskView, q: Seq<char>) -> Option<int> {
    first_score(search_fields(t), q)
}

proof fn lemma_first_score_append(xs: Seq<Seq<char>>, ys: Seq<Seq<char>>, q: Seq<char>)
    ensures
        first_score(xs + ys, q) == match first_score(xs, q) {
            Some(v) => Some(v),
            None => first_score(ys, q),
        },
    decreases xs.len(),
{
    if xs.len() > 0 {
        assert((xs + ys).drop_first() =~= xs.drop_first() + ys);
        lemma_first_score_append(xs.drop_first(), ys, q);
    } else {
        assert(xs + ys =~= ys);
    }
}

/// Scores a task against a lowercase query.
fn score_task(task: &Task, query: &Vec<char>) -> (r: Option<u64>)
    requires
        query@.len() <= MAX_QUERY_CHARS,
    ensures
        score_view(r) == task_score(task@, query@),
{
    let ghost t = task@;
    let ghost q = query@;
    let ghost head = seq![t.name, t.list_name, t.status];
    let ghost desc = match t.description {
        Some(d) => seq![d],
        None => Seq::<Seq<char>>::empty(),
    };
    proof {
        lemma_first_score_append(head + desc, t.tags, q);
        lemma_first_score_append(head, desc, q);
        assert(head.drop_first() =~= seq![t.list_name, t.status]);
        assert(head.drop_first().drop_first() =~= seq![t.status]);
        assert(head.drop_first().drop_first().drop_first() =~= Seq::<Seq<char>>::empty());
        if desc.len() == 1 {
            assert(desc.drop_first() =~= Seq::<Seq<char>>::empty());
        }
        assert(search_fields(t) == head + desc + t.tags);
        assert(head[0] == t.name);
        assert(head.drop_first()[0] == t.list_name);
        assert(head.drop_first().drop_first()[0] == t.status);
        let h2 = head.drop_first();
        let h3 = h2.drop_first();
        assert(first_score(h3, q) == match fuzzy_match(lower_of(t.status), q) {
            Some(v) => Some(v),
            None => first_score(h3.drop_first(), q),
        });
        assert(first_score(h2, q) == match fuzzy_match(lower_of(t.list_name), q) {
            Some(v) => Some(v),
            None => first_score(h3, q),
        });
        assert(first_score(head, q) == match fuzzy_match(lower_of(t.name), q) {
            Some(v) => Some(v),
            None => first_score(h2, q),
        });
    }
    let s = fuzzy_score(task.name.as_str(), query);
    if s.is_some() {
        return s;
    }
    let s = fuzzy_score(task.list_name.as_str(), query);
    if s.is_some() {
        return s;
    }
    let s = fuzzy_score(task.status.as_str(), query);
    if s.is_some() {
        return s;
    }
    match &task.description {
        Some(d) => {
            let s = fuzzy_score(d.as_str(), query);
            if s.is_some() {
                return s;
            }
        },
        None => {},
    }
    assert(task_score(t, q) == first_score(t.tags, q));
    let mut k: usize = 0;
    assert(t.tags.skip(0) =~= t.tags);
    while k < task.tags.len()
        invariant
            t == task@,
            q == query@,
            query@.len() <= MAX_QUERY_CHARS,
            k <= task.tags.len(),
            task_score(t, q) == first_score(t.tags.skip(k as int), q),
        decreases task.tags.len() - k,
    {
        assert(t.tags.skip(k as int)[0] == task.tags@[k as int]@);
        assert(t.tags.skip(k as int).drop_first() =~= t.tags.skip(k + 1));
        let s = fuzzy_score(task.tags[k].as_str(), query);
        if s.is_some() {
            return s;
        }
        k = k + 1;
    }
    assert(t.tags.skip(k as int) =~= Seq::<Seq<char>>::empty());
    None
}

/// The tasks that the query matches, in input order, each with its overlay
/// and its score.
pub open spec fn search_hits(
    ts: Seq<TaskView>,
    overlays: Map<Seq<char>, TaskOverlay>,
    q: Seq<char>,
) -> Seq<((TaskView, TaskOverlay), int)>
    decreases ts.len(),
{
    if ts.len() == 0 {
        Seq::empty()
    } else {
        let h = search_hits(ts.drop_last(), overlays, q);
        match task_score(ts.last(), q) {
            Some(v) => h.push(((ts.last(), overlay_in(overlays, ts.last().id)), v)),
            None => h,
        }
    }
}

/// Hit `a` ranks before hit `b`: a higher score, or an equal score and an
/// earlier place in the input.
pub open spec fn rank_before(hits: Seq<((TaskView, TaskOverlay), int)>, a: int, b: int) -> bool {
    hits[a].1 > hits[b].1 || (hits[a].1 == hits[b].1 && a < b)
}

/// The entries of the hits, without their scores.
pub open spec fn hit_entries(hits: Seq<((TaskView, TaskOverlay), int)>) -> Seq<(TaskView, TaskOverlay)> {
    hits.map_values(|h: ((TaskView, TaskOverlay), int)| h.0)
}

/// `out` holds the hits by descending score, ties in input order.
pub open spec fn in_rank_order(
    hits: Seq<((TaskView, TaskOverlay), int)>,
    out: Seq<(TaskView, TaskOverlay)>,
) -> bool {
    exists|ord: Seq<int>|
        #[trigger] arranged(hit_entries(hits), ord, out) && forall|
            i: int,
            j: int,
        | 0 <= i < j < ord.len() ==> rank_before(hits, #[trigger] ord[i], #[trigger] ord[j])
}

/// Ranks all tasks against a query already in lowercase: the tasks that
/// match, by descending score, ties in input order.
pub fn search_lowered(all_tasks: &Vec<Task>, overlays: &OverlayStore, query: &Vec<char>) -> (r: Vec<
    DisplayTask,
>)
    requires
        query@.len() <= MAX_QUERY_CHARS,
    ensures
        in_rank_order(search_hits(task_seq(all_tasks@), overlays@, query@), entry_views(r@)),
{
    let ghost ts = task_seq(all_tasks@);
    let ghost q = query@;
    let mut found: Vec<DisplayTask> = Vec::new();
    let mut scores: Vec<u64> = Vec::new();
    assert(ts.take(0) =~= Seq::<TaskView>::empty());
    for i in 0..all_tasks.len()
        invariant
            ts == task_seq(all_tasks@),
            q == query@,
            query@.len() <= MAX_QUERY_CHARS,
            found.len() == scores.len(),
            found.len() == search_hits(ts.take(i as int), overlays@, q).len(),
            forall|k: int| 0 <= k < found.len() ==> (#[trigger] found@[k])@ == search_hits(
                ts.take(i as int),
                overlays@,
                q,
            )[k].0 && scores@[k] as int == search_hits(ts.take(i as int), overlays@, q)[k].1,
    {
        assert(ts.take(i + 1).drop_last() =~= ts.take(i as int));
        assert(ts[i as int] == all_tasks@[i as int]@);
        match score_task(&all_tasks[i], query) {
            Some(v) => {
                let o = overlays.get(all_tasks[i].id.as_str());
                found.push(DisplayTask::new(all_tasks[i].clone(), o));
                scores.push(v);
            },
            None => {},
        }
    }
    assert(ts.take(all_tasks.len() as int) =~= ts);
    let ghost hs = search_hits(ts, overlays@, q);
    let n = found.len();
    assert forall|k: int| 0 <= k < n implies scores@[k] as int == #[trigger] hs[k].1 by {
        assert(found@[k]@ == hs[k].0);
    }
    let mut ord: Vec<usize> = Vec::new();
    for i in 0..n
        invariant
            n == found.len(),
            n == scores.len(),
            hs.len() == n,
            forall|k: int| 0 <= k < n ==> scores@[k] as int == #[trigger] hs[k].1,
            ord.len() == i,
            forall|x: int| 0 <= x < i ==> #[trigger] ord@[x] < i,
            forall|x: int, y: int| 0 <= x < y < i ==> ord@[x] != ord@[y],
            forall|x: int, y: int|
                0 <= x < y < i ==> rank_before(hs, #[trigger] ord@[x] as int, #[trigger] ord@[y] as int),
    {
        let mut j: usize = ord.len();
        while j > 0 && scores[ord[j - 1]] < scores[i]
            invariant
                n == scores.len(),
                i < n,
                ord.len() == i,
                j <= ord.len(),
                forall|x: int| 0 <= x < i ==> #[trigger] ord@[x] < i,
                forall|y: int| j <= y < i ==> scores@[#[trigger] ord@[y] as int] < scores@[i as int],
            decreases j,
        {
            j = j - 1;
        }
        let ghost old_ord = ord@;
        assert(hs[i as int].1 == scores@[i as int] as int);
        ord.insert(j, i);
        proof {
            assert forall|x: int, y: int| 0 <= x < y < i + 1 implies rank_before(
                hs,
                #[trigger] ord@[x] as int,
                #[trigger] ord@[y] as int,
            ) by {
                if y < j {
                    assert(ord@[x] == old_ord[x] && ord@[y] == old_ord[y]);
                } else if y == j {
                    assert(ord@[x] == old_ord[x]);
                    assert(scores@[old_ord[j - 1] as int] >= scores@[i as int]);
                    assert(hs[old_ord[j - 1] as int].1 == scores@[old_ord[j - 1] as int] as int);
                    if x < j - 1 {
                        assert(rank_before(hs, old_ord[x] as int, old_ord[j - 1] as int));
                    }
                } else if x == j {
                    assert(ord@[y] == old_ord[y - 1]);
                    assert(hs[old_ord[y - 1] as int].1 == scores@[old_ord[y - 1] as int] as int);
                } else if x < j {
                    assert(ord@[x] == old_ord[x] && ord@[y] == old_ord[y - 1]);
                } else {
                    assert(ord@[x] == old_ord[x - 1] && ord@[y] == old_ord[y - 1]);
                }
            }
            assert forall|x: int, y: int| 0 <= x < y < i + 1 implies ord@[x] != ord@[y] by {
                if x < j && y < j {
                    assert(ord@[x] == old_ord[x] && ord@[y] == old_ord[y]);
                } else if x < j && y > j {
                    assert(ord@[x] == old_ord[x] && ord@[y] == old_ord[y - 1]);
                } else if x > j {
                    assert(ord@[x] == old_ord[x - 1] && ord@[y] == old_ord[y - 1]);
                } else if x < j {
                    assert(ord@[x] == old_ord[x]);
                } else {
                    assert(ord@[y] == old_ord[y - 1]);
                }
            }
            assert forall|x: int| 0 <= x < i + 1 implies #[trigger] ord@[x] < i + 1 by {
                if x < j {
                    assert(ord@[x] == old_ord[x]);
                } else if x > j {
                    assert(ord@[x] == old_ord[x - 1]);
                }
            }
        }
    }
    let mut r: Vec<DisplayTask> = Vec::new();
    for k in 0..n
        invariant
            n == found.len(),
            ord.len() == n,
            forall|x: int| 0 <= x < n ==> #[trigger] ord@[x] < n,
            r.len() == k,
            forall|x: int| 0 <= x < k ==> (#[trigger] r@[x])@ == found@[ord@[x] as int]@,
    {
        let e = found[ord[k]].clone();
        r.push(e);
    }
    proof {
        let iv = hit_entries(hs);
        let ov = entry_views(r@);
        let o = ord@.map_values(|x: usize| x as int);
        assert forall|x: int| 0 <= x < n implies #[trigger] ov[x] == iv[o[x]] by {
            assert(found@[ord@[x] as int]@ == hs[ord@[x] as int].0);
        }
        assert(arranged(iv, o, ov));
        assert forall|i: int, j: int| 0 <= i < j < o.len() implies rank_before(hs, #[trigger] o[i], #[trigger] o[j]) by {
            assert(o[i] == ord@[i] as int && o[j] == ord@[j] as int);
        }
    }
    r
}

/// Ranks all tasks against a free-text query, compared in lowercase: the
/// tasks that match, by descending score, ties in input order. An empty
/// query gives no result, as does one too long to score.
pub fn search(all_tasks: &Vec<Task>, overlays: &OverlayStore, query: &str) -> (r: Vec<DisplayTask>)
    ensures
        query@.len() == 0 ==> r@.len() == 0,
        query@.len() > 0 && lower_of(query@).len() <= MAX_QUERY_CHARS ==> in_rank_order(
            search_hits(task_seq(all_tasks@), overlays@, lower_of(query@)),
            entry_views(r@),
        ),
        lower_of(query@).len() > MAX_QUERY_CHARS ==> r@.len() == 0,
{
    if query.is_empty() {
        return Vec::new();
    }
    let lower = lowercase(query);
    let q = chars_of(lower.as_str());
    if q.len() as u64 > MAX_QUERY_CHARS {
        return Vec::new();
    }
    search_lowered(all_tasks, overlays, &q)
}

} // verus!
