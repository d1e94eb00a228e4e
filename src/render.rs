//! The frame planner: the sequence of drawing operations that renders a trace
//! onto a surface of a given size.

use vstd::prelude::*;
use crate::trace::{first_invalid_error, lemma_no_tasks_valid, store_valid, tasks_of, CoreView, RenderError, Task, TraceStore};
use crate::extract::extract_tasks;
use crate::domain::{axis_domain, chart_ranges, domain_of, ranges_of, ChartRanges};

verus! {

/// An opaque colour.
#[derive(Clone, Copy, Debug, PartialEq, Eq, Structural)]
pub struct Rgb {
    pub r: u8,
    pub g: u8,
    pub b: u8,
}

/// How task rectangles are drawn.
#[derive(Clone, Copy, Debug, PartialEq, Eq, Structural)]
pub struct RectStyle {
    pub color: Rgb,
    /// Opacity of the fill, from 0 (transparent) to 100 (opaque).
    pub opacity_percent: u8,
    pub filled: bool,
    pub stroke_width: u32,
}

/// Layout and style of a chart. Sizes are in pixels.
#[derive(Clone, Debug)]
pub struct RenderConfig {
    pub caption: String,
    pub caption_font_size: u32,
    /// Blank space on every side of the chart.
    pub margin: u32,
    /// Size of the left and of the bottom label area.
    pub label_area: u32,
    /// Most light gridlines per axis.
    pub max_light_lines: u32,
    pub label_font_size: u32,
    pub background: Rgb,
    pub task_style: RectStyle,
}

/// The rectangle of one task in data space: time `[time_start, time_end]`
/// across the core band `[core_low, core_high]`.
#[derive(Clone, Copy, Debug, PartialEq, Eq, Structural)]
pub struct TaskRect {
    pub time_start: u64,
    pub time_end: u64,
    pub core_low: u64,
    pub core_high: u64,
}

/// One drawing primitive issued to a surface.
#[derive(Clone, Copy, Debug, PartialEq, Eq, Structural)]
pub enum DrawOp {
    /// Fill the whole surface.
    FillBackground { color: Rgb },
    /// Reserve margins and label areas, draw the caption, and map `ranges` onto
    /// what is left of the surface.
    BuildChart { ranges: ChartRanges, margin: u32, label_area: u32, caption_font_size: u32 },
    /// Draw gridlines and axis tick labels.
    DrawMesh { max_light_lines: u32, label_font_size: u32 },
    /// Fill one task rectangle.
    FillRect { rect: TaskRect, style: RectStyle },
    /// Flush the surface.
    Present,
}

/// The rectangle of a task: corners `(start, core_id + 1)` and
/// `(start + duration, core_id)`.
pub open spec fn rect_of(t: Task) -> TaskRect {
    TaskRect {
        time_start: t.start as u64,
        time_end: (t.start + t.duration) as u64,
        core_low: t.core_id as u64,
        core_high: (t.core_id + 1) as u64,
    }
}

/// The operations that prepare a chart over `ranges`: background, chart, mesh.
pub open spec fn chart_ops(cfg: RenderConfig, ranges: ChartRanges) -> Seq<DrawOp> {
    seq![
        DrawOp::FillBackground { color: cfg.background },
        DrawOp::BuildChart {
            ranges,
            margin: cfg.margin,
            label_area: cfg.label_area,
            caption_font_size: cfg.caption_font_size,
        },
        DrawOp::DrawMesh {
            max_light_lines: cfg.max_light_lines,
            label_font_size: cfg.label_font_size,
        },
    ]
}

/// One filled rectangle per task, in task order.
pub open spec fn rect_ops(tasks: Seq<Task>, style: RectStyle) -> Seq<DrawOp> {
    tasks.map_values(|t: Task| DrawOp::FillRect { rect: rect_of(t), style })
}

/// The frame that renders `cores` with `cfg` onto a `width` by `height` surface.
/// A zero-area surface gets no operation at all; otherwise an invalid interval
/// or an empty trace is an error.
pub open spec fn frame_plan(cores: Seq<CoreView>, cfg: RenderConfig, width: u32, height: u32) -> Result<
    Seq<DrawOp>,
    RenderError,
> {
    if width == 0 || height == 0 {
        Ok(Seq::empty())
    } else if !store_valid(cores) {
        Err(first_invalid_error(cores))
    } else if tasks_of(cores).len() == 0 {
        Err(RenderError::NoData)
    } else {
        Ok(
            chart_ops(cfg, ranges_of(domain_of(cores))) + rect_ops(tasks_of(cores), cfg.task_style)
                + seq![DrawOp::Present],
        )
    }
}

/// Whether `r` is the result that `plan` describes.
pub open spec fn plan_result(r: Result<Vec<DrawOp>, RenderError>, plan: Result<Seq<DrawOp>, RenderError>) -> bool {
    match r {
        Ok(ops) => plan == Ok::<Seq<DrawOp>, RenderError>(ops@),
        Err(e) => plan == Err::<Seq<DrawOp>, RenderError>(e),
    }
}

/// Planning is deterministic: the same trace and configuration on two surfaces
/// of equal size give the same result, the same sequence of operations or the
/// same error.
pub proof fn lemma_frame_deterministic(
    a: Seq<CoreView>,
    b: Seq<CoreView>,
    cfg: RenderConfig,
    width_a: u32,
    height_a: u32,
    width_b: u32,
    height_b: u32,
)
    requires
        a == b,
        width_a == width_b,
        height_a == height_b,
    ensures
        frame_plan(a, cfg, width_a, height_a) == frame_plan(b, cfg, width_b, height_b),
{
}

impl RenderConfig {
    /// The standard chart: caption "Log plot" at 40, margin 5, label areas 40,
    /// at most 4 light lines per axis, labels at 15, a white background, and
    /// tasks filled blue at 60% opacity with no stroke.
    pub fn standard() -> (r: RenderConfig)
        ensures
            r.caption@ == "Log plot"@,
            r.caption_font_size == 40,
            r.margin == 5,
            r.label_area == 40,
            r.max_light_lines == 4,
            r.label_font_size == 15,
            r.background == (Rgb { r: 255, g: 255, b: 255 }),
            r.task_style == (RectStyle {
                color: Rgb { r: 0, g: 0, b: 255 },
                opacity_percent: 60,
                filled: true,
                stroke_width: 0,
            }),
    {
        RenderConfig {
            caption: "Log plot".to_owned(),
            caption_font_size: 40,
            margin: 5,
            label_area: 40,
            max_light_lines: 4,
            label_font_size: 15,
            background: Rgb { r: 255, g: 255, b: 255 },
            task_style: RectStyle {
                color: Rgb { r: 0, g: 0, b: 255 },
                opacity_percent: 60,
                filled: true,
                stroke_width: 0,
            },
        }
    }
}

/// The rectangle of a task.
pub fn task_rect(t: &Task) -> (r: TaskRect)
    ensures
        r == rect_of(*t),
{
    TaskRect {
        time_start: t.start as u64,
        time_end: t.start as u64 + t.duration as u64,
        core_low: t.core_id as u64,
        core_high: t.core_id as u64 + 1,
    }
}

/// Plans one frame: extracts the tasks, computes the axis domain and chart
/// ranges, and lists the background, chart, mesh, one rectangle per task in
/// task order, and a single present. A zero-area surface yields no operation.
pub fn plan_frame(store: &TraceStore, config: &RenderConfig, width: u32, height: u32) -> (r: Result<
    Vec<DrawOp>,
    RenderError,
>)
    ensures
        plan_result(r, frame_plan(store@, *config, width, height)),
        width == 0 || height == 0 ==> (r matches Ok(ops) && ops@.len() == 0),
        width > 0 && height > 0 && tasks_of(store@).len() == 0 ==> r == Err::<
            Vec<DrawOp>,
            RenderError,
        >(RenderError::NoData),
{
    if width == 0 || height == 0 {
        return Ok(Vec::new());
    }
    proof {
        if tasks_of(store@).len() == 0 {
            lemma_no_tasks_valid(store@);
        }
    }
    let extraction = match extract_tasks(store) {
        Ok(ex) => ex,
        Err(e) => {
            return Err(e);
        },
    };
    let domain = match axis_domain(store, &extraction) {
        Ok(d) => d,
        Err(e) => {
            return Err(e);
        },
    };
    let ranges = chart_ranges(&domain);
    let mut ops: Vec<DrawOp> = Vec::new();
    ops.push(DrawOp::FillBackground { color: config.background });
    ops.push(
        DrawOp::BuildChart {
            ranges,
            margin: config.margin,
            label_area: config.label_area,
            caption_font_size: config.caption_font_size,
        },
    );
    ops.push(
        DrawOp::DrawMesh {
            max_light_lines: config.max_light_lines,
            label_font_size: config.label_font_size,
        },
    );
    let ghost head = ops@;
    assert(head =~= chart_ops(*config, ranges));
    let style = config.task_style;
    let mut k: usize = 0;
    while k < extraction.tasks.len()
        invariant
            0 <= k <= extraction.tasks.len(),
            ops@ == head + rect_ops(extraction.tasks@.take(k as int), style),
        decreases extraction.tasks.len() - k,
    {
        let rect = task_rect(&extraction.tasks[k]);
        ops.push(DrawOp::FillRect { rect, style });
        assert(extraction.tasks@.take(k + 1) =~= extraction.tasks@.take(k as int).push(
            extraction.tasks@[k as int],
        ));
        assert(rect_ops(extraction.tasks@.take(k + 1), style) =~= rect_ops(
            extraction.tasks@.take(k as int),
            style,
        ).push(DrawOp::FillRect { rect, style }));
        k += 1;
    }
    assert(extraction.tasks@.take(k as int) =~= extraction.tasks@);
    ops.push(DrawOp::Present);
    assert(ops@ =~= chart_ops(*config, ranges) + rect_ops(tasks_of(store@), style) + seq![
        DrawOp::Present,
    ]);
    Ok(ops)
}

} // verus!
