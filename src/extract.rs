//! The task extractor: flattens a trace into tasks and tracks the time extremes.

use vstd::prelude::*;
use crate::trace::{
    core_tasks, first_invalid, lemma_tasks_of_members, recorded_in, first_invalid_error, interval_valid, invalid_at, store_valid,
    task_end, task_of, tasks_of, CoreView, Interval, RenderError, Task, TraceStore,
};

verus! {

/// The tasks of a trace together with the running time extremes.
#[derive(Clone, Debug)]
pub struct Extraction {
    pub tasks: Vec<Task>,
    /// The least start time; `u32::MAX` when there are no tasks.
    pub time_min: u32,
    /// The greatest end time; `0` when there are no tasks.
    pub time_max: u32,
}

/// The least start of `tasks`, folded from `u32::MAX`.
pub open spec fn min_start(tasks: Seq<Task>) -> int
    decreases tasks.len(),
{
    if tasks.len() == 0 {
        u32::MAX as int
    } else {
        let m = min_start(tasks.drop_last());
        if tasks.last().start < m {
            tasks.last().start as int
        } else {
            m
        }
    }
}

/// The greatest end of `tasks`, folded from `0`.
pub open spec fn max_end(tasks: Seq<Task>) -> int
    decreases tasks.len(),
{
    if tasks.len() == 0 {
        0
    } else {
        let m = max_end(tasks.drop_last());
        if task_end(tasks.last()) > m {
            task_end(tasks.last())
        } else {
            m
        }
    }
}

/// What a successful extraction of `cores` holds.
pub open spec fn extraction_of(cores: Seq<CoreView>, ex: Extraction) -> bool {
    &&& ex.tasks@ == tasks_of(cores)
    &&& ex.time_min == min_start(tasks_of(cores))
    &&& ex.time_max == max_end(tasks_of(cores))
}

/// `tasks_of` over the first `i + 1` cores extends that over the first `i`.
proof fn lemma_tasks_of_take(cores: Seq<CoreView>, i: int)
    requires
        0 <= i < cores.len(),
    ensures
        tasks_of(cores.take(i + 1)) == tasks_of(cores.take(i)) + core_tasks(cores[i]),
{
    assert(cores.take(i + 1).drop_last() =~= cores.take(i));
}

/// A task that a valid interval records ends where the interval ends.
proof fn lemma_task_of_end(core_id: u32, iv: Interval)
    requires
        interval_valid(iv),
    ensures
        task_end(task_of(core_id, iv)) == iv.end,
{
}

/// Two positions that both satisfy `first_invalid` are the same position.
pub proof fn lemma_first_invalid_unique(cores: Seq<CoreView>, i: int, j: int, k: int, l: int)
    requires
        first_invalid(cores, i, j),
        first_invalid(cores, k, l),
    ensures
        i == k && j == l,
{
    if i < k {
        assert(interval_valid(cores[i].intervals[j]));
    } else if k < i {
        assert(interval_valid(cores[k].intervals[l]));
    } else if j < l {
        assert(interval_valid(cores[i].intervals[j]));
    } else if l < j {
        assert(interval_valid(cores[k].intervals[l]));
    }
}

/// `min_start` of a non-empty sequence is at most every start and is the start
/// of some task.
pub proof fn lemma_min_start(ts: Seq<Task>)
    requires
        ts.len() > 0,
    ensures
        forall|k: int| 0 <= k < ts.len() ==> min_start(ts) <= (#[trigger] ts[k]).start,
        exists|k: int| 0 <= k < ts.len() && min_start(ts) == (#[trigger] ts[k]).start,
    decreases ts.len(),
{
    let init = ts.drop_last();
    if init.len() > 0 {
        lemma_min_start(init);
        let w = choose|k: int| 0 <= k < init.len() && min_start(init) == (#[trigger] init[k]).start;
        assert(ts[w] == init[w]);
        assert forall|k: int| 0 <= k < ts.len() implies min_start(ts) <= (#[trigger] ts[k]).start by {
            if k < init.len() {
                assert(ts[k] == init[k]);
            }
        }
        if ts.last().start >= min_start(init) {
            assert(min_start(ts) == ts[w].start);
        }
    }
    let n = ts.len() - 1;
    assert(ts[n] == ts.last());
    if init.len() == 0 {
        assert(min_start(init) == u32::MAX as int);
    }
    if init.len() == 0 || ts.last().start < min_start(init) {
        assert(min_start(ts) == ts[n].start);
    }
}

/// `max_end` of a non-empty sequence is at least every end and is the end of
/// some task.
pub proof fn lemma_max_end(ts: Seq<Task>)
    requires
        ts.len() > 0,
    ensures
        forall|k: int| 0 <= k < ts.len() ==> max_end(ts) >= task_end(#[trigger] ts[k]),
        exists|k: int| 0 <= k < ts.len() && max_end(ts) == task_end(#[trigger] ts[k]),
    decreases ts.len(),
{
    let init = ts.drop_last();
    if init.len() > 0 {
        lemma_max_end(init);
        let w = choose|k: int| 0 <= k < init.len() && max_end(init) == task_end(#[trigger] init[k]);
        assert(ts[w] == init[w]);
        assert forall|k: int| 0 <= k < ts.len() implies max_end(ts) >= task_end(#[trigger] ts[k]) by {
            if k < init.len() {
                assert(ts[k] == init[k]);
            }
        }
        if task_end(ts.last()) <= max_end(init) {
            assert(max_end(ts) == task_end(ts[w]));
        }
    }
    let n = ts.len() - 1;
    assert(ts[n] == ts.last());
    if init.len() == 0 {
        assert(max_end(init) == 0);
    }
    if init.len() == 0 || task_end(ts.last()) > max_end(init) {
        assert(max_end(ts) == task_end(ts[n]));
    }
}

/// Sequences with the same tasks have the same least start and greatest end.
pub proof fn lemma_time_extremes_same_members(s: Seq<Task>, t: Seq<Task>)
    requires
        forall|x: Task| s.contains(x) <==> t.contains(x),
    ensures
        min_start(s) == min_start(t),
        max_end(s) == max_end(t),
{
    if s.len() == 0 {
        if t.len() > 0 {
            assert(s.contains(t[0]));
        }
    } else {
        assert(t.contains(s[0]));
        lemma_min_start(s);
        lemma_min_start(t);
        lemma_max_end(s);
        lemma_max_end(t);
        let a = choose|k: int| 0 <= k < s.len() && min_start(s) == (#[trigger] s[k]).start;
        let b = choose|k: int| 0 <= k < t.len() && min_start(t) == (#[trigger] t[k]).start;
        assert(t.contains(s[a]));
        assert(s.contains(t[b]));
        let c = choose|k: int| 0 <= k < s.len() && max_end(s) == task_end(#[trigger] s[k]);
        let d = choose|k: int| 0 <= k < t.len() && max_end(t) == task_end(#[trigger] t[k]);
        assert(t.contains(s[c]));
        assert(s.contains(t[d]));
    }
}

/// Task `t` is what interval `iv` of core `c` records: same core, id and
/// start, and a duration of end minus start, which is not negative.
pub open spec fn records_task(c: CoreView, iv: Interval, t: Task) -> bool {
    &&& t.core_id == c.core_id
    &&& t.task_id == iv.task_id
    &&& t.start == iv.start
    &&& t.duration == iv.end - iv.start
    &&& iv.end - iv.start >= 0
}

/// Some interval of the trace records task `t`, with `duration == end - start >= 0`.
pub open spec fn recorded_validly(cores: Seq<CoreView>, t: Task) -> bool {
    exists|i: int, j: int|
        0 <= i < cores.len() && 0 <= j < cores[i].intervals.len() && records_task(
            cores[i],
            #[trigger] cores[i].intervals[j],
            t,
        )
}

/// Every task extracted from a valid trace is recorded by one of its intervals
/// with `duration == end - start >= 0`.
pub proof fn lemma_task_durations(cores: Seq<CoreView>)
    requires
        store_valid(cores),
    ensures
        forall|k: int|
            0 <= k < tasks_of(cores).len() ==> recorded_validly(cores, #[trigger] tasks_of(cores)[k]),
{
    lemma_tasks_of_members(cores);
    assert forall|k: int| 0 <= k < tasks_of(cores).len() implies recorded_validly(
        cores,
        #[trigger] tasks_of(cores)[k],
    ) by {
        assert(recorded_in(cores, tasks_of(cores)[k]));
        let (i, j) = choose|i: int, j: int|
            0 <= i < cores.len() && 0 <= j < cores[i].intervals.len() && tasks_of(cores)[k]
                == task_of(cores[i].core_id, #[trigger] cores[i].intervals[j]);
        assert(interval_valid(cores[i].intervals[j]));
        assert(records_task(cores[i], cores[i].intervals[j], tasks_of(cores)[k]));
    }
}

/// Flattens the trace into tasks, core-major and in interval order, tracking the
/// least start and the greatest end. Fails on the first interval that ends
/// before it starts.
pub fn extract_tasks(store: &TraceStore) -> (r: Result<Extraction, RenderError>)
    ensures
        r is Ok <==> store_valid(store@),
        r matches Ok(ex) ==> extraction_of(store@, ex),
        r matches Err(e) ==> e == first_invalid_error(store@),
{
    let ghost cores = store@;
    let mut tasks: Vec<Task> = Vec::new();
    let mut time_min: u32 = u32::MAX;
    let mut time_max: u32 = 0;
    let mut i: usize = 0;
    while i < store.cores.len()
        invariant
            cores == store@,
            0 <= i <= cores.len(),
            tasks@ == tasks_of(cores.take(i as int)),
            time_min == min_start(tasks@),
            time_max == max_end(tasks@),
            forall|a: int, b: int|
                0 <= a < i && 0 <= b < cores[a].intervals.len() ==> interval_valid(
                    #[trigger] cores[a].intervals[b],
                ),
        decreases cores.len() - i,
    {
        let core = &store.cores[i];
        assert(cores[i as int] == core@);
        let ghost before = tasks@;
        let mut j: usize = 0;
        while j < core.intervals.len()
            invariant
                cores == store@,
                0 <= i < cores.len(),
                cores[i as int] == core@,
                0 <= j <= core.intervals.len(),
                before == tasks_of(cores.take(i as int)),
                tasks@ == before + core_tasks(core@).take(j as int),
                time_min == min_start(tasks@),
                time_max == max_end(tasks@),
                forall|a: int, b: int|
                    0 <= a < i && 0 <= b < cores[a].intervals.len() ==> interval_valid(
                        #[trigger] cores[a].intervals[b],
                    ),
                forall|b: int| 0 <= b < j ==> interval_valid(#[trigger] core.intervals@[b]),
            decreases core.intervals.len() - j,
        {
            let iv = core.intervals[j];
            if iv.end < iv.start {
                let e = RenderError::InvalidInterval {
                    core_id: core.core_id,
                    task_id: iv.task_id,
                    start: iv.start,
                    end: iv.end,
                };
                proof {
                    assert(first_invalid(cores, i as int, j as int));
                    let (k, l) = choose|k: int, l: int| first_invalid(cores, k, l);
                    lemma_first_invalid_unique(cores, i as int, j as int, k, l);
                    assert(e == invalid_at(cores, i as int, j as int));
                }
                return Err(e);
            }
            let task = Task {
                core_id: core.core_id,
                task_id: iv.task_id,
                start: iv.start,
                duration: iv.end - iv.start,
            };
            assert(task == task_of(core.core_id, iv));
            let ghost prev = tasks@;
            if task.start < time_min {
                time_min = task.start;
            }
            if iv.end > time_max {
                time_max = iv.end;
            }
            tasks.push(task);
            proof {
                assert(core_tasks(core@).take(j + 1) =~= core_tasks(core@).take(j as int).push(
                    task,
                ));
                assert(tasks@ =~= before + core_tasks(core@).take(j + 1));
                assert(tasks@.drop_last() =~= prev);
                lemma_task_of_end(core.core_id, iv);
            }
            j += 1;
        }
        proof {
            assert(core_tasks(core@).take(j as int) =~= core_tasks(core@));
            lemma_tasks_of_take(cores, i as int);
        }
        i += 1;
    }
    assert(cores.take(i as int) =~= cores);
    Ok(Extraction { tasks, time_min, time_max })
}

} // verus!
