//! The trace model: per-core interval records and the tasks derived from them.

use vstd::prelude::*;

verus! {

/// One recorded interval of work: a task id with its start and end time.
#[derive(Clone, Copy, Debug, PartialEq, Eq, Structural)]
pub struct Interval {
    pub task_id: u32,
    pub start: u32,
    pub end: u32,
}

/// The recorded activity of one processing unit, intervals in recorded order.
#[derive(Clone, Debug)]
pub struct CoreRecord {
    pub core_id: u32,
    pub intervals: Vec<Interval>,
}

/// Mathematical model of a [`CoreRecord`].
pub struct CoreView {
    pub core_id: u32,
    pub intervals: Seq<Interval>,
}

/// The read-only table of all cores' recorded intervals.
#[derive(Clone, Debug)]
pub struct TraceStore {
    pub cores: Vec<CoreRecord>,
}

/// One task entry extracted from a trace.
#[derive(Clone, Copy, Debug, PartialEq, Eq, Structural)]
pub struct Task {
    pub core_id: u32,
    pub task_id: u32,
    pub start: u32,
    pub duration: u32,
}

/// Why a frame could not be produced.
#[derive(Clone, Copy, Debug, PartialEq, Eq, Structural)]
pub enum RenderError {
    /// An interval ends before it starts.
    InvalidInterval { core_id: u32, task_id: u32, start: u32, end: u32 },
    /// The trace holds no interval at all, so no axis range exists.
    NoData,
    /// The drawing surface refused an operation.
    Surface,
}

impl View for CoreRecord {
    type V = CoreView;

    open spec fn view(&self) -> CoreView {
        CoreView { core_id: self.core_id, intervals: self.intervals@ }
    }
}

impl View for TraceStore {
    type V = Seq<CoreView>;

    open spec fn view(&self) -> Seq<CoreView> {
        self.cores@.map_values(|c: CoreRecord| c@)
    }
}

pub open spec fn interval_valid(iv: Interval) -> bool {
    iv.start <= iv.end
}

/// Every interval of every core ends no earlier than it starts.
pub open spec fn store_valid(cores: Seq<CoreView>) -> bool {
    forall|i: int, j: int|
        0 <= i < cores.len() && 0 <= j < cores[i].intervals.len() ==> interval_valid(
            #[trigger] cores[i].intervals[j],
        )
}

/// The interval at `(i, j)` is invalid, and every interval before it (earlier
/// cores, or earlier on the same core) is valid.
pub open spec fn first_invalid(cores: Seq<CoreView>, i: int, j: int) -> bool {
    &&& 0 <= i < cores.len()
    &&& 0 <= j < cores[i].intervals.len()
    &&& !interval_valid(cores[i].intervals[j])
    &&& forall|a: int, b: int|
        0 <= a < i && 0 <= b < cores[a].intervals.len() ==> interval_valid(
            #[trigger] cores[a].intervals[b],
        )
    &&& forall|b: int| 0 <= b < j ==> interval_valid(#[trigger] cores[i].intervals[b])
}

/// The error reported for the interval at `(i, j)`.
pub open spec fn invalid_at(cores: Seq<CoreView>, i: int, j: int) -> RenderError {
    let iv = cores[i].intervals[j];
    RenderError::InvalidInterval {
        core_id: cores[i].core_id,
        task_id: iv.task_id,
        start: iv.start,
        end: iv.end,
    }
}

/// The error reported for a trace that is not valid: the first invalid interval.
pub open spec fn first_invalid_error(cores: Seq<CoreView>) -> RenderError {
    let (i, j) = choose|i: int, j: int| first_invalid(cores, i, j);
    invalid_at(cores, i, j)
}

/// The task recorded by interval `iv` on core `core_id`.
pub open spec fn task_of(core_id: u32, iv: Interval) -> Task {
    Task {
        core_id,
        task_id: iv.task_id,
        start: iv.start,
        duration: (iv.end - iv.start) as u32,
    }
}

/// The tasks of one core, in interval order.
pub open spec fn core_tasks(c: CoreView) -> Seq<Task> {
    c.intervals.map_values(|iv: Interval| task_of(c.core_id, iv))
}

/// All tasks of a trace: core-major, then interval order within a core.
pub open spec fn tasks_of(cores: Seq<CoreView>) -> Seq<Task>
    decreases cores.len(),
{
    if cores.len() == 0 {
        Seq::empty()
    } else {
        tasks_of(cores.drop_last()) + core_tasks(cores.last())
    }
}

/// The end time of a task.
pub open spec fn task_end(t: Task) -> int {
    t.start + t.duration
}

/// Task `t` is recorded by some interval of the trace.
pub open spec fn recorded_in(cores: Seq<CoreView>, t: Task) -> bool {
    exists|i: int, j: int|
        0 <= i < cores.len() && 0 <= j < cores[i].intervals.len() && t == task_of(
            cores[i].core_id,
            #[trigger] cores[i].intervals[j],
        )
}

/// Each interval of a trace gives a task of `tasks_of`, and each task of
/// `tasks_of` comes from an interval.
pub proof fn lemma_tasks_of_members(cores: Seq<CoreView>)
    ensures
        forall|i: int, j: int|
            0 <= i < cores.len() && 0 <= j < cores[i].intervals.len() ==> tasks_of(
                cores,
            ).contains(#[trigger] task_of(cores[i].core_id, cores[i].intervals[j])),
        forall|k: int|
            0 <= k < tasks_of(cores).len() ==> recorded_in(cores, #[trigger] tasks_of(cores)[k]),
    decreases cores.len(),
{
    if cores.len() > 0 {
        let init = cores.drop_last();
        lemma_tasks_of_members(init);
        let ts = tasks_of(cores);
        let ti = tasks_of(init);
        let c = core_tasks(cores.last());
        assert(ts == ti + c);
        assert forall|i: int, j: int|
            0 <= i < cores.len() && 0 <= j < cores[i].intervals.len() implies ts.contains(
                #[trigger] task_of(cores[i].core_id, cores[i].intervals[j]),
            ) by {
            if i < cores.len() - 1 {
                assert(init[i] == cores[i]);
                assert(ti.contains(task_of(init[i].core_id, init[i].intervals[j])));
                let k = choose|k: int|
                    0 <= k < ti.len() && ti[k] == task_of(init[i].core_id, init[i].intervals[j]);
                assert(ts[k] == ti[k]);
            } else {
                assert(ts[ti.len() + j] == c[j]);
            }
        }
        assert forall|k: int| 0 <= k < ts.len() implies recorded_in(cores, #[trigger] ts[k]) by {
            if k < ti.len() {
                assert(ts[k] == ti[k]);
                assert(recorded_in(init, ti[k]));
                let (i, j) = choose|i: int, j: int|
                    0 <= i < init.len() && 0 <= j < init[i].intervals.len() && ti[k] == task_of(
                        init[i].core_id,
                        init[i].intervals[j],
                    );
                assert(init[i] == cores[i]);
                assert(ts[k] == task_of(cores[i].core_id, cores[i].intervals[j]));
            } else {
                let j = k - ti.len();
                assert(ts[k] == c[j]);
                let i = cores.len() - 1;
                assert(c[j] == task_of(cores.last().core_id, cores.last().intervals[j]));
                assert(ts[k] == task_of(cores[i].core_id, cores[i].intervals[j]));
            }
        }
    } else {
        assert(tasks_of(cores).len() == 0);
    }
}

/// A trace without any task has no interval, so it is valid.
pub proof fn lemma_no_tasks_valid(cores: Seq<CoreView>)
    requires
        tasks_of(cores).len() == 0,
    ensures
        store_valid(cores),
{
    lemma_tasks_of_members(cores);
    assert forall|i: int, j: int|
        0 <= i < cores.len() && 0 <= j < cores[i].intervals.len() implies interval_valid(
            #[trigger] cores[i].intervals[j],
        ) by {
        assert(tasks_of(cores).contains(task_of(cores[i].core_id, cores[i].intervals[j])));
    }
}

impl Interval {
    pub fn new(task_id: u32, start: u32, end: u32) -> (r: Interval)
        ensures
            r == (Interval { task_id, start, end }),
    {
        Interval { task_id, start, end }
    }
}

impl CoreRecord {
    pub fn new(core_id: u32, intervals: Vec<Interval>) -> (r: CoreRecord)
        ensures
            r@ == (CoreView { core_id, intervals: intervals@ }),
    {
        CoreRecord { core_id, intervals }
    }
}

impl TraceStore {
    pub fn new(cores: Vec<CoreRecord>) -> (r: TraceStore)
        ensures
            r@ == cores@.map_values(|c: CoreRecord| c@),
    {
        TraceStore { cores }
    }
}

} // verus!
