//! Viewport line range, region merge, layout cache, and render scheduler.
//!
//! The whole document is laid out in one go when the cache misses; the
//! scheduler only tracks which visual-line ranges are still to be painted.

use std::collections::VecDeque;
use std::ops::Range;

use vstd::layout::size_of;
use vstd::prelude::*;

use crate::document::Document;
use crate::layout::{
    cells_before, laid_fits, layout_document, layout_fits, layout_shapes, layout_view,
    lines_of_shapes, LaidCell, LaidOutDocument, LaidOutLine, LayoutConfig, LineShape, LineView,
};
use crate::search::{first_index, lemma_first_index_extends, lemma_first_index_props};

verus! {

/// Visible slice in visual-line index space (`LaidOutLine.row` is dense `0..lines.len()`).
#[derive(Clone, Debug, PartialEq, Eq)]
pub struct Viewport {
    pub top_index: usize,
    pub bottom_exclusive: usize,
    pub width: u16,
}

/// Start and end of a range.
pub open spec fn range_pair(r: Range<usize>) -> (usize, usize) {
    (r.start, r.end)
}

/// Start and end of each range.
pub open spec fn ranges_view(s: Seq<Range<usize>>) -> Seq<(usize, usize)> {
    Seq::new(s.len(), |i: int| range_pair(s[i]))
}

impl Viewport {
    pub fn line_range(&self) -> (r: Range<usize>)
        ensures
            r.start == self.top_index,
            r.end == self.bottom_exclusive,
    {
        Range { start: self.top_index, end: self.bottom_exclusive }
    }
}

/// Index predicate: range `i` of `t` starts after `start`.
pub open spec fn starts_after(t: Seq<(usize, usize)>, start: usize) -> spec_fn(int) -> bool {
    |i: int| t[i].0 > start
}

/// `t` with `x` inserted after every range that does not start after it.
pub open spec fn insert_by_start(t: Seq<(usize, usize)>, x: (usize, usize)) -> Seq<(usize, usize)> {
    match first_index(t.len() as int, starts_after(t, x.0)) {
        Some(k) => t.insert(k, x),
        None => t.push(x),
    }
}

/// `s` sorted by start, ranges with equal starts kept in their order.
pub open spec fn sort_by_start(s: Seq<(usize, usize)>) -> Seq<(usize, usize)>
    decreases s.len(),
{
    if s.len() == 0 {
        s
    } else {
        insert_by_start(sort_by_start(s.drop_last()), s.last())
    }
}

/// Walks `s` in order and joins each range into the previous output range
/// when it starts at or before that range's end.
pub open spec fn coalesce(s: Seq<(usize, usize)>) -> Seq<(usize, usize)>
    decreases s.len(),
{
    if s.len() == 0 {
        s
    } else {
        let out = coalesce(s.drop_last());
        let r = s.last();
        if out.len() > 0 && r.0 <= out.last().1 {
            out.drop_last().push(
                (out.last().0, if r.1 > out.last().1 { r.1 } else { out.last().1 }),
            )
        } else {
            out.push(r)
        }
    }
}

/// The union of `visible` and `dirty`, sorted by start and coalesced.
pub open spec fn merged_regions(visible: Seq<(usize, usize)>, dirty: Seq<(usize, usize)>) -> Seq<
    (usize, usize),
> {
    coalesce(sort_by_start(visible + dirty))
}

/// Point `p` lies in range `r`.
pub open spec fn in_range(r: (usize, usize), p: int) -> bool {
    r.0 <= p < r.1
}

/// Point `p` lies in one of the ranges of `s`.
pub open spec fn covers(s: Seq<(usize, usize)>, p: int) -> bool {
    exists|i: int| 0 <= i < s.len() && #[trigger] in_range(s[i], p)
}

/// Starts never decrease along `s`.
pub open spec fn sorted_by_start(s: Seq<(usize, usize)>) -> bool {
    forall|i: int, j: int| 0 <= i < j < s.len() ==> #[trigger] s[i].0 <= #[trigger] s[j].0
}

/// Each range of `s` ends before the next one starts.
pub open spec fn separated(s: Seq<(usize, usize)>) -> bool {
    forall|i: int| 0 <= i < s.len() - 1 ==> #[trigger] s[i].1 < s[i + 1].0
}

proof fn lemma_insert_by_start(t: Seq<(usize, usize)>, x: (usize, usize))
    requires
        sorted_by_start(t),
    ensures
        sorted_by_start(insert_by_start(t, x)),
        forall|p: int| covers(insert_by_start(t, x), p) == (covers(t, p) || in_range(x, p)),
{
    let pr = starts_after(t, x.0);
    lemma_first_index_props(t.len() as int, pr);
    let k: int = match first_index(t.len() as int, pr) {
        Some(k) => k,
        None => t.len() as int,
    };
    let r = insert_by_start(t, x);
    assert(r == t.insert(k, x));
    t.insert_ensures(k, x);
    assert forall|i: int, j: int| 0 <= i < j < r.len() implies #[trigger] r[i].0 <= #[trigger] r[j].0 by {
        if j < k {
            assert(r[i] == t[i] && r[j] == t[j]);
        } else if j == k {
            assert(r[i] == t[i]);
            assert(!pr(i));
        } else if i < k {
            assert(r[i] == t[i] && r[j] == t[j - 1]);
        } else if i == k {
            assert(r[j] == t[j - 1]);
            assert(pr(k));
            assert(t[k].0 <= t[j - 1].0);
        } else {
            assert(r[i] == t[i - 1] && r[j] == t[j - 1]);
        }
    }
    assert forall|p: int| covers(r, p) == (covers(t, p) || in_range(x, p)) by {
        if covers(r, p) {
            let i = choose|i: int| 0 <= i < r.len() && #[trigger] in_range(r[i], p);
            if i < k {
                assert(r[i] == t[i]);
                assert(in_range(t[i], p));
            } else if i > k {
                assert(r[i] == t[i - 1]);
                assert(in_range(t[i - 1], p));
            }
        }
        if covers(t, p) {
            let i = choose|i: int| 0 <= i < t.len() && #[trigger] in_range(t[i], p);
            if i < k {
                assert(r[i] == t[i]);
                assert(in_range(r[i], p));
            } else {
                assert(r[i + 1] == t[i]);
                assert(in_range(r[i + 1], p));
            }
        }
        if in_range(x, p) {
            assert(in_range(r[k], p));
        }
    }
}

/// Sorting by start gives a sorted sequence that covers the same points.
pub proof fn lemma_sort_by_start(s: Seq<(usize, usize)>)
    ensures
        sorted_by_start(sort_by_start(s)),
        forall|p: int| covers(sort_by_start(s), p) == covers(s, p),
    decreases s.len(),
{
    if s.len() > 0 {
        let prev = sort_by_start(s.drop_last());
        lemma_sort_by_start(s.drop_last());
        lemma_insert_by_start(prev, s.last());
        assert forall|p: int| covers(sort_by_start(s), p) == covers(s, p) by {
            if covers(s, p) {
                let i = choose|i: int| 0 <= i < s.len() && #[trigger] in_range(s[i], p);
                if i < s.len() - 1 {
                    assert(s.drop_last()[i] == s[i]);
                    assert(covers(s.drop_last(), p));
                }
            }
            if covers(s.drop_last(), p) {
                let i = choose|i: int| 0 <= i < s.drop_last().len() && #[trigger] in_range(
                    s.drop_last()[i],
                    p,
                );
                assert(s[i] == s.drop_last()[i]);
                assert(in_range(s[i], p));
            }
            if in_range(s.last(), p) {
                assert(in_range(s[s.len() - 1], p));
            }
        }
    }
}

/// Coalescing a sorted sequence keeps it sorted and covering the same
/// points, and separates its ranges.
pub proof fn lemma_coalesce(s: Seq<(usize, usize)>)
    requires
        sorted_by_start(s),
    ensures
        sorted_by_start(coalesce(s)),
        separated(coalesce(s)),
        forall|p: int| covers(coalesce(s), p) == covers(s, p),
        coalesce(s).len() > 0 <==> s.len() > 0,
        s.len() > 0 ==> coalesce(s).last().0 <= s.last().0,
    decreases s.len(),
{
    if s.len() > 0 {
        let pre = s.drop_last();
        assert(sorted_by_start(pre)) by {
            assert forall|i: int, j: int| 0 <= i < j < pre.len() implies #[trigger] pre[i].0
                <= #[trigger] pre[j].0 by {
                assert(pre[i] == s[i] && pre[j] == s[j]);
            }
        }
        lemma_coalesce(pre);
        let out = coalesce(pre);
        let r = s.last();
        if pre.len() > 0 {
            assert(pre.last() == s[s.len() - 2]);
            assert(s[s.len() - 2].0 <= s[s.len() - 1].0);
        }
        let res = coalesce(s);
        if out.len() > 0 && r.0 <= out.last().1 {
            let b = out.last().1;
            let e = if r.1 > b {
                r.1
            } else {
                b
            };
            let m = (out.last().0, e);
            assert(res == out.drop_last().push(m));
            assert(res.len() == out.len());
            assert forall|i: int| 0 <= i < res.len() - 1 implies res[i] == out[i] by {}
            assert forall|i: int, j: int| 0 <= i < j < res.len() implies #[trigger] res[i].0
                <= #[trigger] res[j].0 by {
                assert(res[i] == out[i]);
                if j < res.len() - 1 {
                    assert(res[j] == out[j]);
                } else {
                    assert(res[j].0 == out[j].0);
                }
            }
            assert forall|i: int| 0 <= i < res.len() - 1 implies #[trigger] res[i].1 < res[i + 1].0 by {
                assert(res[i] == out[i]);
                assert(res[i + 1].0 == out[i + 1].0);
            }
            assert forall|p: int| covers(res, p) == covers(s, p) by {
                if covers(res, p) {
                    let i = choose|i: int| 0 <= i < res.len() && #[trigger] in_range(res[i], p);
                    if i < res.len() - 1 {
                        assert(in_range(out[i], p));
                        assert(covers(out, p));
                        assert(covers(pre, p));
                        let j = choose|j: int| 0 <= j < pre.len() && #[trigger] in_range(pre[j], p);
                        assert(s[j] == pre[j]);
                        assert(in_range(s[j], p));
                    } else if p < b {
                        assert(in_range(out[out.len() - 1], p));
                        assert(covers(pre, p));
                        let j = choose|j: int| 0 <= j < pre.len() && #[trigger] in_range(pre[j], p);
                        assert(s[j] == pre[j]);
                        assert(in_range(s[j], p));
                    } else {
                        assert(in_range(s[s.len() - 1], p));
                    }
                }
                if covers(s, p) {
                    let j = choose|j: int| 0 <= j < s.len() && #[trigger] in_range(s[j], p);
                    if j < s.len() - 1 {
                        assert(pre[j] == s[j]);
                        assert(in_range(pre[j], p));
                        assert(covers(pre, p));
                        assert(covers(out, p));
                        let i = choose|i: int| 0 <= i < out.len() && #[trigger] in_range(out[i], p);
                        if i < out.len() - 1 {
                            assert(in_range(res[i], p));
                        } else {
                            assert(in_range(res[res.len() - 1], p));
                        }
                    } else {
                        assert(in_range(res[res.len() - 1], p));
                    }
                }
            }
        } else {
            assert(res == out.push(r));
            assert forall|i: int, j: int| 0 <= i < j < res.len() implies #[trigger] res[i].0
                <= #[trigger] res[j].0 by {
                assert(res[i] == out[i]);
                if j < res.len() - 1 {
                    assert(res[j] == out[j]);
                }
            }
            assert forall|i: int| 0 <= i < res.len() - 1 implies #[trigger] res[i].1 < res[i + 1].0 by {
                assert(res[i] == out[i]);
                if i + 1 < res.len() - 1 {
                    assert(res[i + 1] == out[i + 1]);
                }
            }
            assert forall|p: int| covers(res, p) == covers(s, p) by {
                if covers(res, p) {
                    let i = choose|i: int| 0 <= i < res.len() && #[trigger] in_range(res[i], p);
                    if i < res.len() - 1 {
                        assert(in_range(out[i], p));
                        assert(covers(pre, p));
                        let j = choose|j: int| 0 <= j < pre.len() && #[trigger] in_range(pre[j], p);
                        assert(s[j] == pre[j]);
                        assert(in_range(s[j], p));
                    } else {
                        assert(in_range(s[s.len() - 1], p));
                    }
                }
                if covers(s, p) {
                    let j = choose|j: int| 0 <= j < s.len() && #[trigger] in_range(s[j], p);
                    if j < s.len() - 1 {
                        assert(pre[j] == s[j]);
                        assert(in_range(pre[j], p));
                        assert(covers(pre, p));
                        assert(covers(out, p));
                        let i = choose|i: int| 0 <= i < out.len() && #[trigger] in_range(out[i], p);
                        assert(in_range(res[i], p));
                    } else {
                        assert(in_range(res[res.len() - 1], p));
                    }
                }
            }
        }
    }
}

/// The merged regions cover exactly the points of the visible and dirty
/// ranges, sorted by start, each ending before the next begins.
pub proof fn lemma_merged_regions(visible: Seq<(usize, usize)>, dirty: Seq<(usize, usize)>)
    ensures
        forall|p: int| covers(merged_regions(visible, dirty), p) == (covers(visible, p) || covers(dirty, p)),
        sorted_by_start(merged_regions(visible, dirty)),
        separated(merged_regions(visible, dirty)),
{
    let all = visible + dirty;
    lemma_sort_by_start(all);
    lemma_coalesce(sort_by_start(all));
    assert forall|p: int| covers(all, p) == (covers(visible, p) || covers(dirty, p)) by {
        if covers(all, p) {
            let i = choose|i: int| 0 <= i < all.len() && #[trigger] in_range(all[i], p);
            if i < visible.len() {
                assert(all[i] == visible[i]);
                assert(in_range(visible[i], p));
            } else {
                assert(all[i] == dirty[i - visible.len()]);
                assert(in_range(dirty[i - visible.len()], p));
            }
        }
        if covers(visible, p) {
            let i = choose|i: int| 0 <= i < visible.len() && #[trigger] in_range(visible[i], p);
            assert(all[i] == visible[i]);
            assert(in_range(all[i], p));
        }
        if covers(dirty, p) {
            let i = choose|i: int| 0 <= i < dirty.len() && #[trigger] in_range(dirty[i], p);
            assert(all[visible.len() + i] == dirty[i]);
            assert(in_range(all[visible.len() + i], p));
        }
    }
}

fn insert_sorted(t: &mut Vec<(usize, usize)>, x: (usize, usize))
    ensures
        final(t)@ == insert_by_start(old(t)@, x),
{
    let ghost p = starts_after(t@, x.0);
    let mut k: usize = 0;
    while k < t.len()
        invariant
            t@ == old(t)@,
            k <= t@.len(),
            p == starts_after(t@, x.0),
            first_index(k as int, p) is None,
        decreases t@.len() - k,
    {
        if t[k].0 > x.0 {
            assert(first_index(k + 1, p) == Some(k as int));
            proof {
                lemma_first_index_extends(k + 1, t@.len() as int, p);
            }
            t.insert(k, x);
            return;
        }
        k = k + 1;
    }
    t.push(x);
}

fn coalesce_sorted(sorted: &Vec<(usize, usize)>) -> (out: Vec<(usize, usize)>)
    ensures
        out@ == coalesce(sorted@),
{
    let mut out: Vec<(usize, usize)> = Vec::new();
    let mut j: usize = 0;
    assert(sorted@.take(0) =~= Seq::<(usize, usize)>::empty());
    while j < sorted.len()
        invariant
            j <= sorted@.len(),
            out@ == coalesce(sorted@.take(j as int)),
        decreases sorted@.len() - j,
    {
        let r = sorted[j];
        assert(sorted@.take(j + 1).drop_last() =~= sorted@.take(j as int));
        assert(sorted@.take(j + 1).last() == r);
        let n = out.len();
        if n > 0 && r.0 <= out[n - 1].1 {
            let last = out.pop().unwrap();
            let end = if r.1 > last.1 {
                r.1
            } else {
                last.1
            };
            out.push((last.0, end));
        } else {
            out.push(r);
        }
        j = j + 1;
    }
    assert(sorted@.take(j as int) =~= sorted@);
    out
}

/// Union of visible and dirty ranges, sorted and coalesced.
pub fn merge_regions(visible: &[Range<usize>], dirty: &[Range<usize>]) -> (out: Vec<Range<usize>>)
    ensures
        ranges_view(out@) == merged_regions(ranges_view(visible@), ranges_view(dirty@)),
{
    let ghost all = ranges_view(visible@) + ranges_view(dirty@);
    let mut sorted: Vec<(usize, usize)> = Vec::new();
    let nv = visible.len();
    let mut i: usize = 0;
    assert(all.take(0) =~= Seq::<(usize, usize)>::empty());
    while i < nv
        invariant
            nv == visible@.len(),
            all == ranges_view(visible@) + ranges_view(dirty@),
            i <= nv,
            sorted@ == sort_by_start(all.take(i as int)),
        decreases nv - i,
    {
        assert(all.take(i + 1).drop_last() =~= all.take(i as int));
        assert(all.take(i + 1).last() == (visible@[i as int].start, visible@[i as int].end));
        insert_sorted(&mut sorted, (visible[i].start, visible[i].end));
        i = i + 1;
    }
    let nd = dirty.len();
    let mut j: usize = 0;
    while j < nd
        invariant
            nv == visible@.len(),
            nd == dirty@.len(),
            all == ranges_view(visible@) + ranges_view(dirty@),
            j <= nd,
            sorted@ == sort_by_start(all.take(nv + j)),
        decreases nd - j,
    {
        assert(all.take(nv + j + 1).drop_last() =~= all.take(nv + j));
        assert(all.take(nv + j + 1).last() == (dirty@[j as int].start, dirty@[j as int].end));
        insert_sorted(&mut sorted, (dirty[j].start, dirty[j].end));
        j = j + 1;
    }
    assert(all.take(nv + nd) =~= all);
    let merged = coalesce_sorted(&sorted);
    let mut out: Vec<Range<usize>> = Vec::new();
    let mut k: usize = 0;
    while k < merged.len()
        invariant
            k <= merged@.len(),
            ranges_view(out@) == merged@.take(k as int),
        decreases merged@.len() - k,
    {
        let (s, e) = merged[k];
        let ghost prev = out@;
        out.push(Range { start: s, end: e });
        assert(ranges_view(out@) =~= ranges_view(prev).push((s, e)));
        assert(merged@.take(k + 1) =~= merged@.take(k as int).push(merged@[k as int]));
        k = k + 1;
    }
    assert(merged@.take(k as int) =~= merged@);
    out
}

#[derive(Debug, PartialEq, Eq)]
pub struct RenderTask {
    pub range: Range<usize>,
}

impl Clone for RenderTask {
    fn clone(&self) -> (t: Self)
        ensures
            t == *self,
    {
        RenderTask { range: Range { start: self.range.start, end: self.range.end } }
    }
}

/// Start and end of each task's range.
pub open spec fn tasks_view(q: Seq<RenderTask>) -> Seq<(usize, usize)> {
    Seq::new(q.len(), |i: int| range_pair(q[i].range))
}

#[derive(Debug)]
pub struct RenderScheduler {
    pub last_frame_processed: usize,
    pub queue: VecDeque<RenderTask>,
    pub budget_per_frame: usize,
    pub max_queue_tasks: usize,
}

impl Default for RenderScheduler {
    fn default() -> (s: Self)
        ensures
            s.last_frame_processed == 0,
            s.queue@.len() == 0,
            s.budget_per_frame == 4096,
            s.max_queue_tasks == 2048,
    {
        Self {
            last_frame_processed: 0,
            queue: VecDeque::new(),
            budget_per_frame: 4096,
            max_queue_tasks: 2048,
        }
    }
}

/// Visual lines a task covers (none when its range is empty or reversed).
pub open spec fn task_size(t: (usize, usize)) -> int {
    if t.1 >= t.0 {
        t.1 - t.0
    } else {
        0
    }
}

/// Draining `q` from the front with `processed` lines done so far out of
/// `budget`: empty tasks are dropped, whole tasks are taken while they fit,
/// and the first task that does not fit is cut where the budget runs out,
/// its rest left at the front. Gives the queue left and the lines done.
pub open spec fn drain_spec(q: Seq<(usize, usize)>, processed: int, budget: int) -> (
    Seq<(usize, usize)>,
    int,
)
    decreases q.len(),
{
    if processed >= budget || q.len() == 0 {
        (q, processed)
    } else {
        let t = q[0];
        let size = task_size(t);
        if size == 0 {
            drain_spec(q.drop_first(), processed, budget)
        } else if processed + size <= budget {
            drain_spec(q.drop_first(), processed + size, budget)
        } else {
            (seq![((t.0 + (budget - processed)) as usize, t.1)] + q.drop_first(), budget)
        }
    }
}

impl RenderScheduler {
    /// Pop tasks until at most `budget` visual-line indices would be processed; split a task if needed.
    pub fn drain_within_budget(&mut self, budget: usize) -> (processed: usize)
        ensures
            (tasks_view(final(self).queue@), processed as int) == drain_spec(
                tasks_view(old(self).queue@),
                0,
                budget as int,
            ),
            final(self).last_frame_processed == old(self).last_frame_processed,
            final(self).budget_per_frame == old(self).budget_per_frame,
            final(self).max_queue_tasks == old(self).max_queue_tasks,
    {
        let ghost target = drain_spec(tasks_view(self.queue@), 0, budget as int);
        let mut processed: usize = 0;
        while processed < budget
            invariant
                processed <= budget,
                drain_spec(tasks_view(self.queue@), processed as int, budget as int) == target,
                self.last_frame_processed == old(self).last_frame_processed,
                self.budget_per_frame == old(self).budget_per_frame,
                self.max_queue_tasks == old(self).max_queue_tasks,
            ensures
                (tasks_view(self.queue@), processed as int) == target,
                self.last_frame_processed == old(self).last_frame_processed,
                self.budget_per_frame == old(self).budget_per_frame,
                self.max_queue_tasks == old(self).max_queue_tasks,
            decreases self.queue@.len(),
        {
            let ghost q = tasks_view(self.queue@);
            let task = match self.queue.pop_front() {
                Some(t) => t,
                None => {
                    assert(q.len() == 0);
                    break;
                },
            };
            assert(tasks_view(self.queue@) =~= q.drop_first());
            assert(q[0] == (task.range.start, task.range.end));
            let size = task.range.end.saturating_sub(task.range.start);
            if size == 0 {
                continue;
            }
            if size <= budget - processed {
                processed = processed + size;
            } else {
                let take = budget - processed;
                let mid = task.range.start + take;
                let ghost rest = tasks_view(self.queue@);
                if mid < task.range.end {
                    self.queue.push_front(RenderTask { range: Range { start: mid, end: task.range.end } });
                }
                assert(tasks_view(self.queue@) =~= seq![(mid, task.range.end)] + rest);
                processed = budget;
                break;
            }
        }
        processed
    }
}

/// `s` cut down to its first `max` entries when it is longer.
pub open spec fn capped(s: Seq<(usize, usize)>, max: usize) -> Seq<(usize, usize)> {
    if s.len() > max {
        s.take(max as int)
    } else {
        s
    }
}

fn cap_queue(scheduler: &mut RenderScheduler)
    ensures
        tasks_view(final(scheduler).queue@) == capped(
            tasks_view(old(scheduler).queue@),
            old(scheduler).max_queue_tasks,
        ),
        final(scheduler).last_frame_processed == old(scheduler).last_frame_processed,
        final(scheduler).budget_per_frame == old(scheduler).budget_per_frame,
        final(scheduler).max_queue_tasks == old(scheduler).max_queue_tasks,
{
    let ghost full = tasks_view(scheduler.queue@);
    while scheduler.queue.len() > scheduler.max_queue_tasks
        invariant
            scheduler.last_frame_processed == old(scheduler).last_frame_processed,
            scheduler.budget_per_frame == old(scheduler).budget_per_frame,
            scheduler.max_queue_tasks == old(scheduler).max_queue_tasks,
            full == tasks_view(old(scheduler).queue@),
            scheduler.queue@.len() <= full.len(),
            tasks_view(scheduler.queue@) == full.take(scheduler.queue@.len() as int),
            scheduler.queue@.len() == full.len() || scheduler.queue@.len()
                >= scheduler.max_queue_tasks,
        decreases scheduler.queue@.len(),
    {
        let ghost before = scheduler.queue@;
        let _ = scheduler.queue.pop_back();
        assert(tasks_view(scheduler.queue@) =~= full.take(scheduler.queue@.len() as int));
    }
    assert(full.take(full.len() as int) =~= full);
}

/// Enqueue merged visible + dirty visual-line ranges for later draining (see [`RenderScheduler::drain_within_budget`]).
pub fn schedule_render(scheduler: &mut RenderScheduler, viewport: &Viewport, dirty: &[Range<usize>])
    ensures
        tasks_view(final(scheduler).queue@) == capped(
            tasks_view(old(scheduler).queue@) + merged_regions(
                seq![(viewport.top_index, viewport.bottom_exclusive)],
                ranges_view(dirty@),
            ),
            old(scheduler).max_queue_tasks,
        ),
        final(scheduler).last_frame_processed == old(scheduler).last_frame_processed,
        final(scheduler).budget_per_frame == old(scheduler).budget_per_frame,
        final(scheduler).max_queue_tasks == old(scheduler).max_queue_tasks,
{
    let vr = viewport.line_range();
    let visible = vec![vr];
    assert(ranges_view(visible@) =~= seq![(viewport.top_index, viewport.bottom_exclusive)]);
    let merged = merge_regions(visible.as_slice(), dirty);
    let ghost q0 = tasks_view(scheduler.queue@);
    let mut k: usize = 0;
    while k < merged.len()
        invariant
            k <= merged@.len(),
            tasks_view(scheduler.queue@) == q0 + ranges_view(merged@).take(k as int),
            scheduler.last_frame_processed == old(scheduler).last_frame_processed,
            scheduler.budget_per_frame == old(scheduler).budget_per_frame,
            scheduler.max_queue_tasks == old(scheduler).max_queue_tasks,
        decreases merged@.len() - k,
    {
        let r = Range { start: merged[k].start, end: merged[k].end };
        let ghost before = tasks_view(scheduler.queue@);
        scheduler.queue.push_back(RenderTask { range: r });
        assert(tasks_view(scheduler.queue@) =~= before.push((merged@[k as int].start, merged@[k as int].end)));
        assert(ranges_view(merged@).take(k + 1) =~= ranges_view(merged@).take(k as int).push(
            ranges_view(merged@)[k as int],
        ));
        k = k + 1;
    }
    assert(ranges_view(merged@).take(k as int) =~= ranges_view(merged@));
    cap_queue(scheduler);
}

/// Visible visual lines from `scroll_top`: `view_height` of them, cut at
/// `total_lines`; empty when the document has no lines.
pub fn viewport_line_range(scroll_top: usize, view_height: usize, total_lines: usize) -> (r: Range<
    usize,
>)
    requires
        total_lines > 0 ==> scroll_top + view_height <= usize::MAX,
    ensures
        total_lines == 0 ==> r.start == 0 && r.end == 0,
        total_lines > 0 ==> r.start == scroll_top && r.end == if scroll_top + view_height
            <= total_lines {
            scroll_top + view_height
        } else {
            total_lines as int
        },
{
    if total_lines == 0 {
        return Range { start: 0, end: 0 };
    }
    let sum = scroll_top + view_height;
    let end = if sum <= total_lines {
        sum
    } else {
        total_lines
    };
    Range { start: scroll_top, end }
}

/// Scroll offset kept where a full view still fits: 0 when everything fits,
/// else at most `total_lines - view_height`.
pub fn clamp_scroll(scroll_top: usize, view_height: usize, total_lines: usize) -> (r: usize)
    ensures
        r == if total_lines == 0 || view_height == 0 || total_lines <= view_height {
            0
        } else if scroll_top <= total_lines - view_height {
            scroll_top as int
        } else {
            total_lines - view_height
        },
{
    if total_lines == 0 || view_height == 0 {
        return 0;
    }
    if total_lines <= view_height {
        return 0;
    }
    let max_scroll = total_lines - view_height;
    if scroll_top <= max_scroll {
        scroll_top
    } else {
        max_scroll
    }
}

/// Keep `cursor_row` inside `[scroll_top, scroll_top + view_height)`.
pub fn scroll_to_reveal_row(cursor_row: usize, view_height: usize, scroll_top: usize) -> (r: usize)
    ensures
        r == if view_height == 0 {
            scroll_top as int
        } else if cursor_row < scroll_top {
            cursor_row as int
        } else if cursor_row >= (if scroll_top + view_height > usize::MAX {
            usize::MAX as int
        } else {
            scroll_top + view_height
        }) {
            cursor_row + 1 - view_height
        } else {
            scroll_top as int
        },
        view_height > 0 ==> r <= cursor_row < r + view_height,
{
    if view_height == 0 {
        return scroll_top;
    }
    if cursor_row < scroll_top {
        return cursor_row;
    }
    if cursor_row >= scroll_top.saturating_add(view_height) {
        return cursor_row - (view_height - 1);
    }
    scroll_top
}

/// Every range of `s` starts at or before its end.
pub open spec fn ranges_ordered(s: Seq<(usize, usize)>) -> bool {
    forall|i: int| 0 <= i < s.len() ==> #[trigger] s[i].0 <= s[i].1
}

/// Every range of `s` holds at least one point.
pub open spec fn ranges_nonempty(s: Seq<(usize, usize)>) -> bool {
    forall|i: int| 0 <= i < s.len() ==> #[trigger] s[i].0 < s[i].1
}

/// Every range of `sort_by_start(s)` is a range of `s`.
proof fn lemma_sort_members(s: Seq<(usize, usize)>)
    ensures
        forall|i: int| 0 <= i < sort_by_start(s).len() ==> exists|j: int| 0 <= j < s.len() && #[trigger] sort_by_start(s)[i] == s[j],
    decreases s.len(),
{
    if s.len() > 0 {
        let pre = s.drop_last();
        lemma_sort_members(pre);
        let t = sort_by_start(pre);
        let x = s.last();
        let pr = starts_after(t, x.0);
        lemma_first_index_props(t.len() as int, pr);
        let u = sort_by_start(s);
        assert forall|i: int| 0 <= i < u.len() implies exists|j: int| 0 <= j < s.len() && #[trigger] u[i] == s[j] by {
            if u[i] == x {
                assert(u[i] == s[s.len() - 1]);
            } else {
                let i2: int = match first_index(t.len() as int, pr) {
                    Some(k) => if i < k { i } else { i - 1 },
                    None => i,
                };
                assert(u[i] == t[i2]);
                let j = choose|j: int| 0 <= j < pre.len() && #[trigger] t[i2] == pre[j];
                assert(pre[j] == s[j]);
            }
        }
    }
}

/// Coalescing ranges that start at or before their ends (or before them)
/// gives such ranges.
proof fn lemma_coalesce_ranges(s: Seq<(usize, usize)>)
    ensures
        ranges_ordered(s) ==> ranges_ordered(coalesce(s)),
        ranges_nonempty(s) ==> ranges_nonempty(coalesce(s)),
    decreases s.len(),
{
    if s.len() > 0 {
        let pre = s.drop_last();
        assert(ranges_ordered(s) ==> ranges_ordered(pre)) by {
            assert forall|i: int| 0 <= i < pre.len() implies #[trigger] pre[i] == s[i] by {}
        }
        assert(ranges_nonempty(s) ==> ranges_nonempty(pre)) by {
            assert forall|i: int| 0 <= i < pre.len() implies #[trigger] pre[i] == s[i] by {}
        }
        lemma_coalesce_ranges(pre);
        let out = coalesce(pre);
        let r = s.last();
        assert(r == s[s.len() - 1]);
        let c = coalesce(s);
        if out.len() > 0 && r.0 <= out.last().1 {
            assert(out.last() == out[out.len() - 1]);
            assert forall|i: int| 0 <= i < c.len() - 1 implies #[trigger] c[i] == out[i] by {}
        } else {
            assert forall|i: int| 0 <= i < c.len() - 1 implies #[trigger] c[i] == out[i] by {}
        }
    }
}

/// Merging keeps ranges well formed: where every input range starts at or
/// before its end (or before it), so does every merged range.
pub proof fn lemma_merged_regions_ranges(visible: Seq<(usize, usize)>, dirty: Seq<(usize, usize)>)
    ensures
        ranges_ordered(visible) && ranges_ordered(dirty) ==> ranges_ordered(merged_regions(visible, dirty)),
        ranges_nonempty(visible) && ranges_nonempty(dirty) ==> ranges_nonempty(merged_regions(visible, dirty)),
{
    let all = visible + dirty;
    lemma_sort_members(all);
    let t = sort_by_start(all);
    assert(ranges_ordered(visible) && ranges_ordered(dirty) ==> ranges_ordered(t)) by {
        if ranges_ordered(visible) && ranges_ordered(dirty) {
            assert forall|i: int| 0 <= i < t.len() implies #[trigger] t[i].0 <= t[i].1 by {
                let j = choose|j: int| 0 <= j < all.len() && #[trigger] t[i] == all[j];
                if j < visible.len() {
                    assert(all[j] == visible[j]);
                } else {
                    assert(all[j] == dirty[j - visible.len()]);
                }
            }
        }
    }
    assert(ranges_nonempty(visible) && ranges_nonempty(dirty) ==> ranges_nonempty(t)) by {
        if ranges_nonempty(visible) && ranges_nonempty(dirty) {
            assert forall|i: int| 0 <= i < t.len() implies #[trigger] t[i].0 < t[i].1 by {
                let j = choose|j: int| 0 <= j < all.len() && #[trigger] t[i] == all[j];
                if j < visible.len() {
                    assert(all[j] == visible[j]);
                } else {
                    assert(all[j] == dirty[j - visible.len()]);
                }
            }
        }
    }
    lemma_coalesce_ranges(t);
}

/// Point `q` lies in range `r` taken closed on the doubled scale, where `r`
/// spans `2 * start ..= 2 * end`: an empty range still holds a point there,
/// and ranges that touch share one.
pub open spec fn in_closed(r: (usize, usize), q: int) -> bool {
    2 * r.0 <= q <= 2 * r.1
}

/// Point `q` lies in one of the ranges of `s`, taken closed (see `in_closed`).
pub open spec fn closed_covers(s: Seq<(usize, usize)>, q: int) -> bool {
    exists|i: int| 0 <= i < s.len() && #[trigger] in_closed(s[i], q)
}

proof fn lemma_insert_by_start_closed(t: Seq<(usize, usize)>, x: (usize, usize))
    ensures
        forall|q: int| closed_covers(insert_by_start(t, x), q) == (closed_covers(t, q) || in_closed(x, q)),
{
    let pr = starts_after(t, x.0);
    lemma_first_index_props(t.len() as int, pr);
    let k: int = match first_index(t.len() as int, pr) {
        Some(k) => k,
        None => t.len() as int,
    };
    let r = insert_by_start(t, x);
    assert(r == t.insert(k, x));
    t.insert_ensures(k, x);
    assert forall|q: int| closed_covers(r, q) == (closed_covers(t, q) || in_closed(x, q)) by {
        if closed_covers(r, q) {
            let i = choose|i: int| 0 <= i < r.len() && #[trigger] in_closed(r[i], q);
            if i < k {
                assert(r[i] == t[i]);
                assert(in_closed(t[i], q));
            } else if i > k {
                assert(r[i] == t[i - 1]);
                assert(in_closed(t[i - 1], q));
            }
        }
        if closed_covers(t, q) {
            let i = choose|i: int| 0 <= i < t.len() && #[trigger] in_closed(t[i], q);
            if i < k {
                assert(r[i] == t[i]);
                assert(in_closed(r[i], q));
            } else {
                assert(r[i + 1] == t[i]);
                assert(in_closed(r[i + 1], q));
            }
        }
        if in_closed(x, q) {
            assert(in_closed(r[k], q));
        }
    }
}

proof fn lemma_sort_by_start_closed(s: Seq<(usize, usize)>)
    ensures
        forall|q: int| closed_covers(sort_by_start(s), q) == closed_covers(s, q),
    decreases s.len(),
{
    if s.len() > 0 {
        let pre = s.drop_last();
        lemma_sort_by_start_closed(pre);
        lemma_insert_by_start_closed(sort_by_start(pre), s.last());
        assert forall|q: int| closed_covers(sort_by_start(s), q) == closed_covers(s, q) by {
            if closed_covers(s, q) {
                let i = choose|i: int| 0 <= i < s.len() && #[trigger] in_closed(s[i], q);
                if i < s.len() - 1 {
                    assert(pre[i] == s[i]);
                    assert(closed_covers(pre, q));
                }
            }
            if closed_covers(pre, q) {
                let i = choose|i: int| 0 <= i < pre.len() && #[trigger] in_closed(pre[i], q);
                assert(s[i] == pre[i]);
                assert(in_closed(s[i], q));
            }
            if in_closed(s.last(), q) {
                assert(in_closed(s[s.len() - 1], q));
            }
        }
    }
}

proof fn lemma_coalesce_closed(s: Seq<(usize, usize)>)
    requires
        sorted_by_start(s),
        ranges_ordered(s),
    ensures
        forall|q: int| closed_covers(coalesce(s), q) == closed_covers(s, q),
    decreases s.len(),
{
    if s.len() > 0 {
        let pre = s.drop_last();
        assert(sorted_by_start(pre)) by {
            assert forall|i: int, j: int| 0 <= i < j < pre.len() implies #[trigger] pre[i].0
                <= #[trigger] pre[j].0 by {
                assert(pre[i] == s[i] && pre[j] == s[j]);
            }
        }
        assert(ranges_ordered(pre)) by {
            assert forall|i: int| 0 <= i < pre.len() implies #[trigger] pre[i].0 <= pre[i].1 by {
                assert(pre[i] == s[i]);
            }
        }
        lemma_coalesce_closed(pre);
        lemma_coalesce(pre);
        let out = coalesce(pre);
        let r = s.last();
        assert(r == s[s.len() - 1]);
        if pre.len() > 0 {
            assert(pre.last() == s[s.len() - 2]);
            assert(s[s.len() - 2].0 <= s[s.len() - 1].0);
        }
        let res = coalesce(s);
        if out.len() > 0 && r.0 <= out.last().1 {
            let a = out.last().0;
            let b = out.last().1;
            let e = if r.1 > b {
                r.1
            } else {
                b
            };
            assert(out.last() == out[out.len() - 1]);
            assert(a <= r.0);
            assert(res == out.drop_last().push((a, e)));
            assert forall|i: int| 0 <= i < res.len() - 1 implies res[i] == out[i] by {}
            assert forall|q: int| closed_covers(res, q) == closed_covers(s, q) by {
                if closed_covers(res, q) {
                    let i = choose|i: int| 0 <= i < res.len() && #[trigger] in_closed(res[i], q);
                    if i < res.len() - 1 || q <= 2 * b {
                        if i < res.len() - 1 {
                            assert(in_closed(out[i], q));
                        } else {
                            assert(in_closed(out[out.len() - 1], q));
                        }
                        assert(closed_covers(out, q));
                        assert(closed_covers(pre, q));
                        let j = choose|j: int| 0 <= j < pre.len() && #[trigger] in_closed(pre[j], q);
                        assert(s[j] == pre[j]);
                        assert(in_closed(s[j], q));
                    } else {
                        assert(in_closed(s[s.len() - 1], q));
                    }
                }
                if closed_covers(s, q) {
                    let j = choose|j: int| 0 <= j < s.len() && #[trigger] in_closed(s[j], q);
                    if j < s.len() - 1 {
                        assert(pre[j] == s[j]);
                        assert(in_closed(pre[j], q));
                        assert(closed_covers(pre, q));
                        assert(closed_covers(out, q));
                        let i = choose|i: int| 0 <= i < out.len() && #[trigger] in_closed(out[i], q);
                        if i < out.len() - 1 {
                            assert(in_closed(res[i], q));
                        } else {
                            assert(in_closed(res[res.len() - 1], q));
                        }
                    } else {
                        assert(in_closed(res[res.len() - 1], q));
                    }
                }
            }
        } else {
            assert(res == out.push(r));
            assert forall|q: int| closed_covers(res, q) == closed_covers(s, q) by {
                if closed_covers(res, q) {
                    let i = choose|i: int| 0 <= i < res.len() && #[trigger] in_closed(res[i], q);
                    if i < res.len() - 1 {
                        assert(in_closed(out[i], q));
                        assert(closed_covers(out, q));
                        assert(closed_covers(pre, q));
                        let j = choose|j: int| 0 <= j < pre.len() && #[trigger] in_closed(pre[j], q);
                        assert(s[j] == pre[j]);
                        assert(in_closed(s[j], q));
                    } else {
                        assert(in_closed(s[s.len() - 1], q));
                    }
                }
                if closed_covers(s, q) {
                    let j = choose|j: int| 0 <= j < s.len() && #[trigger] in_closed(s[j], q);
                    if j < s.len() - 1 {
                        assert(pre[j] == s[j]);
                        assert(in_closed(pre[j], q));
                        assert(closed_covers(pre, q));
                        assert(closed_covers(out, q));
                        let i = choose|i: int| 0 <= i < out.len() && #[trigger] in_closed(out[i], q);
                        assert(in_closed(res[i], q));
                    } else {
                        assert(in_closed(res[res.len() - 1], q));
                    }
                }
            }
        }
    }
}

/// Taken closed, the merged regions cover what the visible and dirty
/// ranges cover, where each of those starts at or before its end.
proof fn lemma_merged_regions_closed(visible: Seq<(usize, usize)>, dirty: Seq<(usize, usize)>)
    requires
        ranges_ordered(visible),
        ranges_ordered(dirty),
    ensures
        forall|q: int| closed_covers(merged_regions(visible, dirty), q) == (closed_covers(visible, q)
            || closed_covers(dirty, q)),
{
    let all = visible + dirty;
    lemma_sort_by_start(all);
    lemma_sort_by_start_closed(all);
    lemma_sort_members(all);
    let t = sort_by_start(all);
    assert forall|i: int| 0 <= i < t.len() implies #[trigger] t[i].0 <= t[i].1 by {
        let j = choose|j: int| 0 <= j < all.len() && #[trigger] t[i] == all[j];
        if j < visible.len() {
            assert(all[j] == visible[j]);
        } else {
            assert(all[j] == dirty[j - visible.len()]);
        }
    }
    lemma_coalesce_closed(t);
    assert forall|q: int| closed_covers(all, q) == (closed_covers(visible, q) || closed_covers(dirty, q)) by {
        if closed_covers(all, q) {
            let i = choose|i: int| 0 <= i < all.len() && #[trigger] in_closed(all[i], q);
            if i < visible.len() {
                assert(all[i] == visible[i]);
                assert(in_closed(visible[i], q));
            } else {
                assert(all[i] == dirty[i - visible.len()]);
                assert(in_closed(dirty[i - visible.len()], q));
            }
        }
        if closed_covers(visible, q) {
            let i = choose|i: int| 0 <= i < visible.len() && #[trigger] in_closed(visible[i], q);
            assert(all[i] == visible[i]);
            assert(in_closed(all[i], q));
        }
        if closed_covers(dirty, q) {
            let i = choose|i: int| 0 <= i < dirty.len() && #[trigger] in_closed(dirty[i], q);
            assert(all[visible.len() + i] == dirty[i]);
            assert(in_closed(all[visible.len() + i], q));
        }
    }
}

/// The shape a merge leaves: sorted, separated ranges that each start at
/// or before their ends.
#[verifier::opaque]
pub open spec fn canonical_ranges(u: Seq<(usize, usize)>) -> bool {
    sorted_by_start(u) && separated(u) && ranges_ordered(u)
}

/// `u` and `v` cover the same points, taken closed.
#[verifier::opaque]
pub open spec fn same_points(u: Seq<(usize, usize)>, v: Seq<(usize, usize)>) -> bool {
    forall|q: int| closed_covers(u, q) == closed_covers(v, q)
}

proof fn lemma_separated_after(u: Seq<(usize, usize)>, i: int, j: int)
    requires
        separated(u),
        ranges_ordered(u),
        0 <= i < j < u.len(),
    ensures
        u[i].1 < u[j].0,
    decreases j - i,
{
    if j > i + 1 {
        lemma_separated_after(u, i, j - 1);
        assert(u[j - 1].1 < u[j].0);
        assert(u[j - 1].0 <= u[j - 1].1);
    } else {
        assert(u[i].1 < u[i + 1].0);
    }
}

proof fn lemma_canonical_tail(u: Seq<(usize, usize)>)
    requires
        canonical_ranges(u),
        u.len() > 0,
    ensures
        canonical_ranges(u.drop_first()),
        forall|i: int, q: int| 0 < i < u.len() && #[trigger] in_closed(u[i], q) ==> q >= 2 * u[0].1 + 2,
        forall|q: int| closed_covers(u.drop_first(), q) == (closed_covers(u, q) && !in_closed(u[0], q)),
{
    reveal(canonical_ranges);
    let u1 = u.drop_first();
    assert forall|i: int| 0 <= i < u1.len() implies #[trigger] u1[i] == u[i + 1] by {}
    assert forall|i: int| 0 <= i < u1.len() - 1 implies #[trigger] u1[i].1 < u1[i + 1].0 by {
        assert(u1[i] == u[i + 1] && u1[i + 1] == u[i + 2]);
    }
    assert forall|i: int, j: int| 0 <= i < j < u1.len() implies #[trigger] u1[i].0 <= #[trigger] u1[j].0 by {
        assert(u1[i] == u[i + 1] && u1[j] == u[j + 1]);
    }
    assert forall|i: int| 0 <= i < u1.len() implies #[trigger] u1[i].0 <= u1[i].1 by {
        assert(u1[i] == u[i + 1]);
    }
    assert forall|i: int, q: int| 0 < i < u.len() && #[trigger] in_closed(u[i], q) implies q >= 2 * u[0].1 + 2 by {
        lemma_separated_after(u, 0, i);
    }
    assert forall|q: int| closed_covers(u1, q) == (closed_covers(u, q) && !in_closed(u[0], q)) by {
        if closed_covers(u1, q) {
            let i = choose|i: int| 0 <= i < u1.len() && #[trigger] in_closed(u1[i], q);
            assert(in_closed(u[i + 1], q));
        }
        if closed_covers(u, q) && !in_closed(u[0], q) {
            let i = choose|i: int| 0 <= i < u.len() && #[trigger] in_closed(u[i], q);
            assert(i > 0);
            assert(in_closed(u1[i - 1], q));
        }
    }
}

proof fn lemma_canonical_first(u: Seq<(usize, usize)>, v: Seq<(usize, usize)>)
    requires
        canonical_ranges(u),
        canonical_ranges(v),
        u.len() > 0,
        v.len() > 0,
        same_points(u, v),
    ensures
        u[0] == v[0],
{
    reveal(same_points);
    lemma_canonical_tail(u);
    lemma_canonical_tail(v);
    reveal(canonical_ranges);
    let a = u[0];
    let b = v[0];
    assert(in_closed(a, 2 * a.0));
    assert(closed_covers(u, 2 * a.0));
    assert(in_closed(b, 2 * b.0));
    assert(closed_covers(v, 2 * b.0));
    if a.0 < b.0 {
        let i = choose|i: int| 0 <= i < v.len() && #[trigger] in_closed(v[i], 2 * a.0);
        if i > 0 {
            assert(v[0].0 <= v[i].0);
        }
    } else if b.0 < a.0 {
        let i = choose|i: int| 0 <= i < u.len() && #[trigger] in_closed(u[i], 2 * b.0);
        if i > 0 {
            assert(u[0].0 <= u[i].0);
        }
    }
    assert(a.0 == b.0);
    if a.1 < b.1 {
        assert(in_closed(b, 2 * a.1 + 1));
        assert(closed_covers(v, 2 * a.1 + 1));
        let i = choose|i: int| 0 <= i < u.len() && #[trigger] in_closed(u[i], 2 * a.1 + 1);
    } else if b.1 < a.1 {
        assert(in_closed(a, 2 * b.1 + 1));
        assert(closed_covers(u, 2 * b.1 + 1));
        let i = choose|i: int| 0 <= i < v.len() && #[trigger] in_closed(v[i], 2 * b.1 + 1);
    }
}

proof fn lemma_canonical_empty(u: Seq<(usize, usize)>, v: Seq<(usize, usize)>)
    requires
        canonical_ranges(u),
        v.len() == 0,
        same_points(u, v),
    ensures
        u.len() == 0,
{
    reveal(same_points);
    reveal(canonical_ranges);
    if u.len() > 0 {
        assert(in_closed(u[0], 2 * u[0].0));
        assert(closed_covers(u, 2 * u[0].0));
    }
}

proof fn lemma_tails_cover_same(u: Seq<(usize, usize)>, v: Seq<(usize, usize)>)
    requires
        canonical_ranges(u),
        canonical_ranges(v),
        u.len() > 0,
        v.len() > 0,
        u[0] == v[0],
        same_points(u, v),
    ensures
        canonical_ranges(u.drop_first()),
        canonical_ranges(v.drop_first()),
        same_points(u.drop_first(), v.drop_first()),
{
    reveal(same_points);
    lemma_canonical_tail(u);
    lemma_canonical_tail(v);
    assert forall|q: int| closed_covers(u.drop_first(), q) == closed_covers(v.drop_first(), q) by {
        assert(closed_covers(u.drop_first(), q) == (closed_covers(u, q) && !in_closed(u[0], q)));
        assert(closed_covers(v.drop_first(), q) == (closed_covers(v, q) && !in_closed(v[0], q)));
    }
}

/// Sorted, separated sequences of well-formed ranges that cover the same
/// points, taken closed, are the same sequence.
proof fn lemma_ranges_unique(u: Seq<(usize, usize)>, v: Seq<(usize, usize)>)
    requires
        canonical_ranges(u),
        canonical_ranges(v),
        same_points(u, v),
    ensures
        u == v,
    decreases u.len() + v.len(),
{
    if u.len() == 0 || v.len() == 0 {
        if v.len() == 0 {
            lemma_canonical_empty(u, v);
        } else {
            assert(same_points(v, u)) by {
                reveal(same_points);
            }
            lemma_canonical_empty(v, u);
        }
        assert(u =~= v);
    } else {
        lemma_canonical_first(u, v);
        lemma_tails_cover_same(u, v);
        lemma_ranges_unique(u.drop_first(), v.drop_first());
        assert(u =~= seq![u[0]] + u.drop_first());
        assert(v =~= seq![v[0]] + v.drop_first());
    }
}

/// Merging is symmetric in its two arguments, for ranges that each start
/// at or before their ends.
pub proof fn lemma_merged_regions_symmetric(visible: Seq<(usize, usize)>, dirty: Seq<(usize, usize)>)
    requires
        ranges_ordered(visible),
        ranges_ordered(dirty),
    ensures
        merged_regions(visible, dirty) == merged_regions(dirty, visible),
{
    let m1 = merged_regions(visible, dirty);
    let m2 = merged_regions(dirty, visible);
    lemma_merged_regions(visible, dirty);
    lemma_merged_regions(dirty, visible);
    lemma_merged_regions_ranges(visible, dirty);
    lemma_merged_regions_ranges(dirty, visible);
    lemma_merged_regions_closed(visible, dirty);
    lemma_merged_regions_closed(dirty, visible);
    assert forall|q: int| closed_covers(m1, q) == closed_covers(m2, q) by {
        assert(closed_covers(m1, q) == (closed_covers(visible, q) || closed_covers(dirty, q)));
        assert(closed_covers(m2, q) == (closed_covers(dirty, q) || closed_covers(visible, q)));
    }
    reveal(same_points);
    reveal(canonical_ranges);
    lemma_ranges_unique(m1, m2);
}

/// Visual lines the tasks cover, summed.
pub open spec fn queue_size(q: Seq<(usize, usize)>) -> int
    decreases q.len(),
{
    if q.len() == 0 {
        0
    } else {
        task_size(q[0]) + queue_size(q.drop_first())
    }
}

/// Queued work is never negative.
proof fn lemma_queue_size_nonneg(q: Seq<(usize, usize)>)
    ensures
        queue_size(q) >= 0,
    decreases q.len(),
{
    if q.len() > 0 {
        lemma_queue_size_nonneg(q.drop_first());
    }
}

/// Draining never passes the budget, and work is conserved: lines done plus
/// lines still queued equal lines done before plus lines queued before. The
/// lines done are exactly the budget or all the queued work, whichever is
/// less.
pub proof fn lemma_drain_budget_and_conservation(q: Seq<(usize, usize)>, processed: int, budget: int)
    requires
        0 <= processed <= budget,
    ensures
        processed <= drain_spec(q, processed, budget).1 <= budget,
        drain_spec(q, processed, budget).1 + queue_size(drain_spec(q, processed, budget).0)
            == processed + queue_size(q),
        drain_spec(q, processed, budget).1 == if processed + queue_size(q) <= budget {
            processed + queue_size(q)
        } else {
            budget
        },
    decreases q.len(),
{
    lemma_queue_size_nonneg(q);
    if processed >= budget || q.len() == 0 {
    } else {
        let t = q[0];
        let size = task_size(t);
        if size == 0 {
            lemma_drain_budget_and_conservation(q.drop_first(), processed, budget);
        } else if processed + size <= budget {
            lemma_drain_budget_and_conservation(q.drop_first(), processed + size, budget);
        } else {
            lemma_queue_size_nonneg(q.drop_first());
            let rest = seq![((t.0 + (budget - processed)) as usize, t.1)] + q.drop_first();
            assert(rest.drop_first() =~= q.drop_first());
            assert(rest[0] == ((t.0 + (budget - processed)) as usize, t.1));
        }
    }
}

/// Draining `q` popped its first `k` tasks whole and kept the rest, or, when
/// task `k` ran past the budget, also replaced it at the front by the part
/// not yet done.
pub open spec fn drained_prefix(q: Seq<(usize, usize)>, processed: int, budget: int, r: (
    Seq<(usize, usize)>,
    int,
), k: int) -> bool {
    &&& 0 <= k <= q.len()
    &&& {
        ||| r.0 == q.skip(k) && r.1 == processed + queue_size(q.take(k))
        ||| {
            let done = budget - processed - queue_size(q.take(k));
            &&& k < q.len()
            &&& 0 < done < task_size(q[k])
            &&& r.0 == seq![((q[k].0 + done) as usize, q[k].1)] + q.skip(k + 1)
            &&& r.1 == budget
        }
    }
}

/// What draining leaves: the old queue without a prefix of popped tasks,
/// with the task that ran past the budget cut to its unprocessed tail.
pub proof fn lemma_drain_pops_prefix(q: Seq<(usize, usize)>, processed: int, budget: int)
    requires
        0 <= processed <= budget,
    ensures
        exists|k: int| drained_prefix(q, processed, budget, drain_spec(q, processed, budget), k),
    decreases q.len(),
{
    let r = drain_spec(q, processed, budget);
    assert(q.take(0) =~= Seq::<(usize, usize)>::empty());
    assert(q.skip(0) =~= q);
    if processed >= budget || q.len() == 0 {
        assert(drained_prefix(q, processed, budget, r, 0));
    } else {
        let t = q[0];
        let size = task_size(t);
        if size == 0 || processed + size <= budget {
            let p2 = if size == 0 { processed } else { processed + size };
            lemma_drain_pops_prefix(q.drop_first(), p2, budget);
            let q1 = q.drop_first();
            let k = choose|k: int| drained_prefix(q1, p2, budget, drain_spec(q1, p2, budget), k);
            assert(q.take(k + 1).drop_first() =~= q1.take(k));
            assert(queue_size(q.take(k + 1)) == size + queue_size(q1.take(k)));
            assert(q1.skip(k) =~= q.skip(k + 1));
            if k < q1.len() {
                assert(q1[k] == q[k + 1]);
                assert(q1.skip(k + 1) =~= q.skip(k + 2));
            }
            assert(drained_prefix(q, processed, budget, r, k + 1));
        } else {
            assert(q.skip(1) =~= q.drop_first());
            assert(drained_prefix(q, processed, budget, r, 0));
        }
    }
}

/// Cells on all the lines.
pub open spec fn total_cells(lines: Seq<LineView>) -> int
    decreases lines.len(),
{
    if lines.len() == 0 {
        0
    } else {
        total_cells(lines.drop_last()) + lines.last().cells.len()
    }
}

proof fn lemma_total_cells_of_shapes(shapes: Seq<LineShape>, i: int)
    requires
        0 <= i <= shapes.len(),
    ensures
        total_cells(lines_of_shapes(shapes).take(i)) == cells_before(shapes, i),
    decreases i,
{
    if i > 0 {
        lemma_total_cells_of_shapes(shapes, i - 1);
        assert(lines_of_shapes(shapes).take(i).drop_last() =~= lines_of_shapes(shapes).take(i - 1));
    }
}

/// Cached [`LaidOutDocument`] keyed by `Document::generation` and terminal width.
#[derive(Debug)]
pub struct LayoutCache {
    /// The cached layout with the width and document generation it was made for.
    pub inner: Option<(LaidOutDocument, u16, u64)>,
    pub dirty_ranges: Vec<Range<usize>>,
    pub scheduler: RenderScheduler,
}

#[derive(Clone, Debug, Default, PartialEq, Eq)]
pub struct LayoutMemoryStats {
    pub line_count: usize,
    pub cell_count: usize,
    pub approx_bytes: usize,
    pub queued_tasks: usize,
}

impl Default for LayoutCache {
    fn default() -> (c: Self)
        ensures
            c.cached() is None,
            c.wf(),
            c.dirty().len() == 0,
            c.sched().last_frame_processed == 0,
            c.sched().queue@.len() == 0,
            c.sched().budget_per_frame == 4096,
            c.sched().max_queue_tasks == 2048,
    {
        LayoutCache { inner: None, dirty_ranges: Vec::new(), scheduler: RenderScheduler::default() }
    }
}

/// `a * b`, or `usize::MAX` when the product does not fit.
pub open spec fn saturating_product(a: usize, b: int) -> int {
    if a * b > usize::MAX {
        usize::MAX as int
    } else {
        a * b
    }
}

fn saturating_mul(a: usize, b: usize) -> (r: usize)
    ensures
        r == saturating_product(a, b as int),
{
    match a.checked_mul(b) {
        Some(p) => p,
        None => usize::MAX,
    }
}

/// Width `w`, at least 1.
pub open spec fn at_least_one(w: u16) -> u16 {
    if w > 0 {
        w
    } else {
        1
    }
}

impl LayoutCache {
    /// The dirty ranges.
    pub open spec fn dirty(&self) -> Seq<Range<usize>> {
        self.dirty_ranges@
    }

    /// The render scheduler.
    pub open spec fn sched(&self) -> RenderScheduler {
        self.scheduler
    }

    /// The cached layout with the width and document generation it was made for.
    pub open spec fn cached(&self) -> Option<(Seq<LineView>, u16, u64)> {
        match self.inner {
            Some(t) => Some((t.0@, t.1, t.2)),
            None => None,
        }
    }

    /// The cached layout's columns, cells and cell count fit the machine.
    pub open spec fn wf(&self) -> bool {
        match self.inner {
            Some(t) => laid_fits(t.0@) && total_cells(t.0@) <= usize::MAX,
            None => true,
        }
    }

    /// The cache holds a layout for this generation and width.
    pub open spec fn is_fresh(&self, generation: u64, width: u16) -> bool {
        self.cached() matches Some(t) && t.1 == width && t.2 == generation
    }

    /// Rebuild layout when `generation` or `width` changes.
    pub fn sync(&mut self, doc: &Document, width: u16, cfg: &LayoutConfig) -> (laid: &LaidOutDocument)
        requires
            old(self).wf(),
            !old(self).is_fresh(doc@.generation, width) ==> layout_fits(
                doc@,
                at_least_one(width),
                *cfg,
            ),
        ensures
            final(self).wf(),
            final(self).cached() matches Some(t) && laid@ == t.0,
            old(self).is_fresh(doc@.generation, width) ==> {
                &&& final(self).cached() == old(self).cached()
                &&& final(self).dirty().len() == 0
                &&& final(self).sched() == old(self).sched()
            },
            !old(self).is_fresh(doc@.generation, width) ==> {
                let n = layout_view(doc@, at_least_one(width), *cfg).len();
                &&& final(self).cached() == Some(
                    (layout_view(doc@, at_least_one(width), *cfg), width, doc@.generation),
                )
                &&& ranges_view(final(self).dirty()) == seq![(0usize, n as usize)]
                &&& tasks_view(final(self).sched().queue@) == capped(
                    merged_regions(seq![(0usize, n as usize)], seq![(0usize, n as usize)]),
                    old(self).sched().max_queue_tasks,
                )
                &&& final(self).sched().last_frame_processed == 0
                &&& final(self).sched().budget_per_frame == old(self).sched().budget_per_frame
                &&& final(self).sched().max_queue_tasks == old(self).sched().max_queue_tasks
            },
    {
        let need = match &self.inner {
            None => true,
            Some(t) => t.1 != width || t.2 != doc.generation,
        };
        if need {
            let w1 = if width > 0 {
                width
            } else {
                1
            };
            let laid = layout_document(doc, w1, cfg);
            proof {
                lemma_total_cells_of_shapes(layout_shapes(doc@, w1, *cfg), layout_shapes(doc@, w1, *cfg).len() as int);
                assert(lines_of_shapes(layout_shapes(doc@, w1, *cfg)).take(layout_shapes(doc@, w1, *cfg).len() as int) =~= laid@);
            }
            let n = laid.lines.len();
            self.dirty_ranges = vec![Range { start: 0, end: n }];
            self.inner = Some((laid, width, doc.generation));
            self.scheduler.queue.clear();
            let vp = Viewport { top_index: 0, bottom_exclusive: n, width };
            assert(ranges_view(self.dirty()) =~= seq![(0usize, n)]);
            assert(tasks_view(self.sched().queue@) =~= Seq::<(usize, usize)>::empty());
            schedule_render(&mut self.scheduler, &vp, self.dirty_ranges.as_slice());
            assert(Seq::<(usize, usize)>::empty() + merged_regions(seq![(0usize, n)], seq![(0usize, n)]) =~= merged_regions(seq![(0usize, n)], seq![(0usize, n)]));
            self.scheduler.last_frame_processed = 0;
        } else {
            self.dirty_ranges.clear();
        }
        &self.inner.as_ref().unwrap().0
    }

    pub fn laid(&self) -> (laid: &LaidOutDocument)
        requires
            self.cached() is Some,
        ensures
            laid@ == self.cached().unwrap().0,
    {
        &self.inner.as_ref().unwrap().0
    }

    /// Queues the viewport's rows, then rows near it, ahead of the rest, and
    /// drains one frame's budget.
    pub fn process_frame(&mut self, viewport: &Viewport) -> (processed: usize)
        ensures
            ({
                let top = viewport.top_index;
                let bottom = viewport.bottom_exclusive;
                let span = if bottom >= top { bottom - top } else { 0 };
                let pad = if span > 8 { span } else { 8 };
                let near_start = if top >= pad { top - pad } else { 0 };
                let near_end = if bottom + pad > usize::MAX { usize::MAX as int } else { bottom + pad };
                let budget = if old(self).sched().budget_per_frame > 1 {
                    old(self).sched().budget_per_frame
                } else {
                    1
                };
                let q = capped(
                    seq![(top, bottom), (near_start as usize, near_end as usize)] + tasks_view(
                        old(self).sched().queue@,
                    ),
                    old(self).sched().max_queue_tasks,
                );
                (tasks_view(final(self).sched().queue@), processed as int) == drain_spec(
                    q,
                    0,
                    budget as int,
                )
            }),
            processed <= old(self).sched().budget_per_frame || processed <= 1,
            final(self).sched().last_frame_processed == processed,
            final(self).sched().budget_per_frame == old(self).sched().budget_per_frame,
            final(self).sched().max_queue_tasks == old(self).sched().max_queue_tasks,
            final(self).cached() == old(self).cached(),
            final(self).wf() == old(self).wf(),
            final(self).dirty() == old(self).dirty(),
    {
        let span = viewport.bottom_exclusive.saturating_sub(viewport.top_index);
        let near_pad = if span > 8 {
            span
        } else {
            8
        };
        let near_start = viewport.top_index.saturating_sub(near_pad);
        let near_end = viewport.bottom_exclusive.saturating_add(near_pad);
        let ghost q0 = tasks_view(self.sched().queue@);
        self.scheduler.queue.push_front(RenderTask { range: Range { start: near_start, end: near_end } });
        self.scheduler.queue.push_front(
            RenderTask { range: Range { start: viewport.top_index, end: viewport.bottom_exclusive } },
        );
        assert(tasks_view(self.sched().queue@) =~= seq![
            (viewport.top_index, viewport.bottom_exclusive),
            (near_start, near_end),
        ] + q0);
        cap_queue(&mut self.scheduler);
        let budget = if self.scheduler.budget_per_frame > 1 {
            self.scheduler.budget_per_frame
        } else {
            1
        };
        let ghost q1 = tasks_view(self.sched().queue@);
        let processed = self.scheduler.drain_within_budget(budget);
        proof {
            lemma_drain_budget_and_conservation(q1, 0, budget as int);
        }
        self.scheduler.last_frame_processed = processed;
        processed
    }

    pub fn memory_stats(&self) -> (m: LayoutMemoryStats)
        requires
            self.wf(),
        ensures
            match self.cached() {
                None => m == LayoutMemoryStats {
                    line_count: 0,
                    cell_count: 0,
                    approx_bytes: 0,
                    queued_tasks: 0,
                },
                Some(t) => {
                    &&& m.line_count == t.0.len()
                    &&& m.cell_count == total_cells(t.0)
                    &&& m.approx_bytes == ({
                        let a = saturating_product(m.cell_count, size_of::<LaidCell>() as int);
                        let b = saturating_product(m.line_count, size_of::<LaidOutLine>() as int);
                        if a + b > usize::MAX {
                            usize::MAX as int
                        } else {
                            a + b
                        }
                    })
                    &&& m.queued_tasks == self.sched().queue@.len()
                },
            },
    {
        let laid = match &self.inner {
            Some(t) => &t.0,
            None => {
                return LayoutMemoryStats { line_count: 0, cell_count: 0, approx_bytes: 0, queued_tasks: 0 };
            },
        };
        let ghost lv = laid@;
        let mut cell_count: usize = 0;
        let mut i: usize = 0;
        proof {
            assert(lv.take(0) =~= Seq::<LineView>::empty());
            lemma_total_cells_prefix(lv, 0);
        }
        while i < laid.lines.len()
            invariant
                lv == laid@,
                lv.len() == laid.lines@.len(),
                i <= lv.len(),
                total_cells(lv) <= usize::MAX,
                cell_count == total_cells(lv.take(i as int)),
            decreases lv.len() - i,
        {
            proof {
                lemma_total_cells_prefix(lv, i + 1);
                assert(lv.take(i + 1).drop_last() =~= lv.take(i as int));
                assert(lv[i as int] == laid.lines@[i as int]@);
            }
            cell_count = cell_count + laid.lines[i].cells.len();
            i = i + 1;
        }
        assert(lv.take(i as int) =~= lv);
        let a = saturating_mul(cell_count, core::mem::size_of::<LaidCell>());
        let b = saturating_mul(laid.lines.len(), core::mem::size_of::<LaidOutLine>());
        let approx_bytes = a.saturating_add(b);
        LayoutMemoryStats {
            line_count: laid.lines.len(),
            cell_count,
            approx_bytes,
            queued_tasks: self.scheduler.queue.len(),
        }
    }
}

proof fn lemma_total_cells_prefix(lines: Seq<LineView>, i: int)
    requires
        0 <= i <= lines.len(),
    ensures
        0 <= total_cells(lines.take(i)) <= total_cells(lines),
    decreases lines.len() - i,
{
    lemma_total_cells_nonneg(lines.take(i));
    if i < lines.len() {
        lemma_total_cells_prefix(lines, i + 1);
        assert(lines.take(i + 1).drop_last() =~= lines.take(i));
    } else {
        assert(lines.take(i) =~= lines);
    }
}

proof fn lemma_total_cells_nonneg(lines: Seq<LineView>)
    ensures
        total_cells(lines) >= 0,
    decreases lines.len(),
{
    if lines.len() > 0 {
        lemma_total_cells_nonneg(lines.drop_last());
    }
}

} // verus!
