//! Axis ranges: the extremes of a trace, and the chart ranges built from them.

use vstd::prelude::*;
use crate::trace::{
    interval_valid, lemma_tasks_of_members, recorded_in, store_valid, task_end, task_of, tasks_of,
    CoreView, RenderError, Task, TraceStore,
};
use crate::extract::{
    extraction_of, lemma_max_end, lemma_min_start, lemma_time_extremes_same_members, max_end,
    min_start, Extraction,
};

verus! {

/// The bounding range of a trace: time extremes over all tasks, core extremes
/// over all core ids.
#[derive(Clone, Copy, Debug, PartialEq, Eq, Structural)]
pub struct AxisDomain {
    pub time_min: u32,
    pub time_max: u32,
    pub core_min: u32,
    pub core_max: u32,
}

/// The data-space ranges a chart maps onto the surface: `[x_lo, x_hi)` for time,
/// `[y_lo, y_hi)` for the core index. Each spans at least one unit.
#[derive(Clone, Copy, Debug, PartialEq, Eq, Structural)]
pub struct ChartRanges {
    pub x_lo: u64,
    pub x_hi: u64,
    pub y_lo: u64,
    pub y_hi: u64,
}

/// The least core id, folded from `u32::MAX`.
pub open spec fn min_core(cores: Seq<CoreView>) -> int
    decreases cores.len(),
{
    if cores.len() == 0 {
        u32::MAX as int
    } else {
        let m = min_core(cores.drop_last());
        if cores.last().core_id < m {
            cores.last().core_id as int
        } else {
            m
        }
    }
}

/// The greatest core id, folded from `0`.
pub open spec fn max_core(cores: Seq<CoreView>) -> int
    decreases cores.len(),
{
    if cores.len() == 0 {
        0
    } else {
        let m = max_core(cores.drop_last());
        if cores.last().core_id > m {
            cores.last().core_id as int
        } else {
            m
        }
    }
}

/// The axis domain of a trace.
pub open spec fn domain_of(cores: Seq<CoreView>) -> AxisDomain {
    let ts = tasks_of(cores);
    AxisDomain {
        time_min: min_start(ts) as u32,
        time_max: max_end(ts) as u32,
        core_min: min_core(cores) as u32,
        core_max: max_core(cores) as u32,
    }
}

/// The upper end of a range starting at `lo` whose extreme is `hi`: `hi`
/// itself, or one unit above `lo` when the range would be empty.
pub open spec fn span_end(lo: u32, hi: u32) -> u64 {
    if hi > lo {
        hi as u64
    } else {
        (lo + 1) as u64
    }
}

/// The chart ranges of a domain.
pub open spec fn ranges_of(d: AxisDomain) -> ChartRanges {
    ChartRanges {
        x_lo: d.time_min as u64,
        x_hi: span_end(d.time_min, d.time_max),
        y_lo: d.core_min as u64,
        y_hi: span_end(d.core_min, d.core_max),
    }
}

/// `m` is the least start over all intervals of the trace.
pub open spec fn is_least_start(cores: Seq<CoreView>, m: int) -> bool {
    &&& forall|i: int, j: int|
        0 <= i < cores.len() && 0 <= j < cores[i].intervals.len() ==> m <= (
        #[trigger] cores[i].intervals[j]).start
    &&& exists|i: int, j: int|
        0 <= i < cores.len() && 0 <= j < cores[i].intervals.len() && m == (
        #[trigger] cores[i].intervals[j]).start
}

/// `m` is the greatest end over all intervals of the trace.
pub open spec fn is_greatest_end(cores: Seq<CoreView>, m: int) -> bool {
    &&& forall|i: int, j: int|
        0 <= i < cores.len() && 0 <= j < cores[i].intervals.len() ==> m >= (
        #[trigger] cores[i].intervals[j]).end
    &&& exists|i: int, j: int|
        0 <= i < cores.len() && 0 <= j < cores[i].intervals.len() && m == (
        #[trigger] cores[i].intervals[j]).end
}

/// `m` is the least core id of the trace.
pub open spec fn is_least_core(cores: Seq<CoreView>, m: int) -> bool {
    &&& forall|i: int| 0 <= i < cores.len() ==> m <= (#[trigger] cores[i]).core_id
    &&& exists|i: int| 0 <= i < cores.len() && m == (#[trigger] cores[i]).core_id
}

/// `m` is the greatest core id of the trace.
pub open spec fn is_greatest_core(cores: Seq<CoreView>, m: int) -> bool {
    &&& forall|i: int| 0 <= i < cores.len() ==> m >= (#[trigger] cores[i]).core_id
    &&& exists|i: int| 0 <= i < cores.len() && m == (#[trigger] cores[i]).core_id
}

/// `min_core` and `max_core` of a non-empty trace are its least and greatest
/// core ids.
pub proof fn lemma_core_extremes(cores: Seq<CoreView>)
    requires
        cores.len() > 0,
    ensures
        is_least_core(cores, min_core(cores)),
        is_greatest_core(cores, max_core(cores)),
    decreases cores.len(),
{
    let init = cores.drop_last();
    let n = cores.len() - 1;
    assert(cores[n] == cores.last());
    if init.len() == 0 {
        assert(min_core(init) == u32::MAX as int);
        assert(max_core(init) == 0);
        assert(min_core(cores) == cores[n].core_id);
        assert(max_core(cores) == cores[n].core_id);
    } else {
        lemma_core_extremes(init);
        assert forall|i: int| 0 <= i < init.len() implies #[trigger] cores[i] == init[i] by {}
        let a = choose|i: int| 0 <= i < init.len() && min_core(init) == (#[trigger] init[i]).core_id;
        let b = choose|i: int| 0 <= i < init.len() && max_core(init) == (#[trigger] init[i]).core_id;
        assert(cores[a] == init[a]);
        assert(cores[b] == init[b]);
        if cores.last().core_id < min_core(init) {
            assert(min_core(cores) == cores[n].core_id);
        } else {
            assert(min_core(cores) == cores[a].core_id);
        }
        if cores.last().core_id > max_core(init) {
            assert(max_core(cores) == cores[n].core_id);
        } else {
            assert(max_core(cores) == cores[b].core_id);
        }
    }
}

/// The axis domain of a valid trace with at least one interval: `time_min` is
/// the least start and `time_max` the greatest end over all intervals,
/// `core_min` and `core_max` the least and greatest core id.
pub proof fn lemma_domain_extremes(cores: Seq<CoreView>)
    requires
        store_valid(cores),
        tasks_of(cores).len() > 0,
    ensures
        is_least_start(cores, domain_of(cores).time_min as int),
        is_greatest_end(cores, domain_of(cores).time_max as int),
        is_least_core(cores, domain_of(cores).core_min as int),
        is_greatest_core(cores, domain_of(cores).core_max as int),
{
    let ts = tasks_of(cores);
    lemma_tasks_of_members(cores);
    lemma_min_start(ts);
    lemma_max_end(ts);
    assert(recorded_in(cores, ts[0]));
    assert(cores.len() > 0);
    lemma_core_extremes(cores);
    assert forall|i: int, j: int|
        0 <= i < cores.len() && 0 <= j < cores[i].intervals.len() implies min_start(ts) <= (
        #[trigger] cores[i].intervals[j]).start && max_end(ts) >= cores[i].intervals[j].end by {
        let t = task_of(cores[i].core_id, cores[i].intervals[j]);
        assert(ts.contains(t));
        let k = choose|k: int| 0 <= k < ts.len() && ts[k] == t;
        assert(interval_valid(cores[i].intervals[j]));
        assert(task_end(ts[k]) == cores[i].intervals[j].end);
    }
    let a = choose|k: int| 0 <= k < ts.len() && min_start(ts) == (#[trigger] ts[k]).start;
    assert(recorded_in(cores, ts[a]));
    let (i, j) = choose|i: int, j: int|
        0 <= i < cores.len() && 0 <= j < cores[i].intervals.len() && ts[a] == task_of(
            cores[i].core_id,
            #[trigger] cores[i].intervals[j],
        );
    assert(min_start(ts) == cores[i].intervals[j].start);
    let b = choose|k: int| 0 <= k < ts.len() && max_end(ts) == task_end(#[trigger] ts[k]);
    assert(recorded_in(cores, ts[b]));
    let (p, q) = choose|i: int, j: int|
        0 <= i < cores.len() && 0 <= j < cores[i].intervals.len() && ts[b] == task_of(
            cores[i].core_id,
            #[trigger] cores[i].intervals[j],
        );
    assert(interval_valid(cores[p].intervals[q]));
    assert(max_end(ts) == cores[p].intervals[q].end);
}

/// Every task of `a` is a task of `b` when every record of `a` is one of `b`.
proof fn lemma_tasks_subset(a: Seq<CoreView>, b: Seq<CoreView>)
    requires
        forall|c: CoreView| a.contains(c) ==> b.contains(c),
    ensures
        forall|t: Task| tasks_of(a).contains(t) ==> tasks_of(b).contains(t),
{
    lemma_tasks_of_members(a);
    lemma_tasks_of_members(b);
    assert forall|t: Task| tasks_of(a).contains(t) implies tasks_of(b).contains(t) by {
        let k = choose|k: int| 0 <= k < tasks_of(a).len() && tasks_of(a)[k] == t;
        assert(recorded_in(a, tasks_of(a)[k]));
        let (i, j) = choose|i: int, j: int|
            0 <= i < a.len() && 0 <= j < a[i].intervals.len() && tasks_of(a)[k] == task_of(
                a[i].core_id,
                #[trigger] a[i].intervals[j],
            );
        assert(a.contains(a[i]));
        let m = choose|m: int| 0 <= m < b.len() && b[m] == a[i];
        assert(b[m].intervals[j] == a[i].intervals[j]);
    }
}

/// Sequences with the same records have the same least and greatest core id.
proof fn lemma_cores_same_members(a: Seq<CoreView>, b: Seq<CoreView>)
    requires
        forall|c: CoreView| a.contains(c) <==> b.contains(c),
    ensures
        min_core(a) == min_core(b),
        max_core(a) == max_core(b),
{
    if a.len() == 0 {
        if b.len() > 0 {
            assert(a.contains(b[0]));
        }
    } else {
        assert(b.contains(a[0]));
        lemma_core_extremes(a);
        lemma_core_extremes(b);
        let x = choose|i: int| 0 <= i < a.len() && min_core(a) == (#[trigger] a[i]).core_id;
        let y = choose|i: int| 0 <= i < b.len() && min_core(b) == (#[trigger] b[i]).core_id;
        let z = choose|i: int| 0 <= i < a.len() && max_core(a) == (#[trigger] a[i]).core_id;
        let w = choose|i: int| 0 <= i < b.len() && max_core(b) == (#[trigger] b[i]).core_id;
        assert(b.contains(a[x]));
        assert(a.contains(b[y]));
        assert(b.contains(a[z]));
        assert(a.contains(b[w]));
    }
}

/// The axis domain does not depend on the order of the core records: two traces
/// that hold the same records, each as often, have the same domain.
pub proof fn lemma_domain_order_independent(a: Seq<CoreView>, b: Seq<CoreView>)
    requires
        a.to_multiset() =~= b.to_multiset(),
    ensures
        domain_of(a) == domain_of(b),
{
    a.to_multiset_ensures();
    b.to_multiset_ensures();
    assert forall|c: CoreView| a.contains(c) <==> b.contains(c) by {
        assert(a.to_multiset().count(c) == b.to_multiset().count(c));
    }
    lemma_tasks_subset(a, b);
    lemma_tasks_subset(b, a);
    lemma_time_extremes_same_members(tasks_of(a), tasks_of(b));
    lemma_cores_same_members(a, b);
}

/// Computes the axis domain of a trace from its extraction. Fails with
/// `NoData` when the trace holds no task.
pub fn axis_domain(store: &TraceStore, extraction: &Extraction) -> (r: Result<
    AxisDomain,
    RenderError,
>)
    requires
        extraction_of(store@, *extraction),
    ensures
        r is Err <==> tasks_of(store@).len() == 0,
        r matches Err(e) ==> e == RenderError::NoData,
        r matches Ok(d) ==> d == domain_of(store@),
{
    if extraction.tasks.len() == 0 {
        return Err(RenderError::NoData);
    }
    let ghost cores = store@;
    let mut core_min: u32 = u32::MAX;
    let mut core_max: u32 = 0;
    let mut i: usize = 0;
    while i < store.cores.len()
        invariant
            cores == store@,
            0 <= i <= cores.len(),
            core_min == min_core(cores.take(i as int)),
            core_max == max_core(cores.take(i as int)),
        decreases cores.len() - i,
    {
        let id = store.cores[i].core_id;
        proof {
            assert(cores.take(i + 1).drop_last() =~= cores.take(i as int));
            assert(cores[i as int].core_id == id);
        }
        if id < core_min {
            core_min = id;
        }
        if id > core_max {
            core_max = id;
        }
        i += 1;
    }
    assert(cores.take(i as int) =~= cores);
    Ok(AxisDomain {
        time_min: extraction.time_min,
        time_max: extraction.time_max,
        core_min,
        core_max,
    })
}

/// Builds the chart ranges of a domain: time from `time_min`, core index from
/// `core_min`, each widened to one unit where its extremes coincide.
pub fn chart_ranges(d: &AxisDomain) -> (r: ChartRanges)
    ensures
        r == ranges_of(*d),
        r.x_lo < r.x_hi,
        r.y_lo < r.y_hi,
{
    let x_hi: u64 = if d.time_max > d.time_min {
        d.time_max as u64
    } else {
        d.time_min as u64 + 1
    };
    let y_hi: u64 = if d.core_max > d.core_min {
        d.core_max as u64
    } else {
        d.core_min as u64 + 1
    };
    ChartRanges { x_lo: d.time_min as u64, x_hi, y_lo: d.core_min as u64, y_hi }
}

} // verus!
