use trace_plot::domain::{axis_domain, chart_ranges, AxisDomain, ChartRanges};
use trace_plot::extract::extract_tasks;
use trace_plot::render::{plan_frame, task_rect, DrawOp, RectStyle, RenderConfig, Rgb, TaskRect};
use trace_plot::trace::{CoreRecord, Interval, RenderError, Task, TraceStore};

fn store(cores: &[(u32, &[(u32, u32, u32)])]) -> TraceStore {
    let records = cores
        .iter()
        .map(|(id, ivs)| {
            CoreRecord::new(*id, ivs.iter().map(|&(t, s, e)| Interval::new(t, s, e)).collect())
        })
        .collect();
    TraceStore::new(records)
}

fn blue_style() -> RectStyle {
    RectStyle { color: Rgb { r: 0, g: 0, b: 255 }, opacity_percent: 60, filled: true, stroke_width: 0 }
}

#[test]
fn single_interval_gives_one_task_and_one_rectangle() {
    let s = store(&[(3, &[(5, 10, 20)])]);
    let ex = extract_tasks(&s).unwrap();
    assert_eq!(ex.tasks, vec![Task { core_id: 3, task_id: 5, start: 10, duration: 10 }]);
    assert_eq!(ex.time_min, 10);
    assert_eq!(ex.time_max, 20);

    let ops = plan_frame(&s, &RenderConfig::standard(), 800, 600).unwrap();
    let rects: Vec<TaskRect> = ops
        .iter()
        .filter_map(|op| match op {
            DrawOp::FillRect { rect, .. } => Some(*rect),
            _ => None,
        })
        .collect();
    assert_eq!(rects, vec![TaskRect { time_start: 10, time_end: 20, core_low: 3, core_high: 4 }]);
    assert_eq!(
        ops,
        vec![
            DrawOp::FillBackground { color: Rgb { r: 255, g: 255, b: 255 } },
            DrawOp::BuildChart {
                ranges: ChartRanges { x_lo: 10, x_hi: 20, y_lo: 3, y_hi: 4 },
                margin: 5,
                label_area: 40,
                caption_font_size: 40,
            },
            DrawOp::DrawMesh { max_light_lines: 4, label_font_size: 15 },
            DrawOp::FillRect {
                rect: TaskRect { time_start: 10, time_end: 20, core_low: 3, core_high: 4 },
                style: blue_style(),
            },
            DrawOp::Present,
        ]
    );
}

#[test]
fn interval_ending_before_start_is_rejected() {
    let s = store(&[(2, &[(0, 5, 3)])]);
    let e = RenderError::InvalidInterval { core_id: 2, task_id: 0, start: 5, end: 3 };
    assert_eq!(extract_tasks(&s).unwrap_err(), e);
    assert_eq!(plan_frame(&s, &RenderConfig::standard(), 100, 100), Err(e));
}

#[test]
fn first_invalid_interval_is_reported() {
    let s = store(&[(0, &[(1, 0, 4)]), (1, &[(2, 1, 2), (3, 9, 8), (4, 7, 6)]), (2, &[(5, 3, 1)])]);
    assert_eq!(
        extract_tasks(&s).unwrap_err(),
        RenderError::InvalidInterval { core_id: 1, task_id: 3, start: 9, end: 8 }
    );
}

#[test]
fn empty_trace_is_no_data() {
    let s = store(&[]);
    assert_eq!(plan_frame(&s, &RenderConfig::standard(), 640, 480), Err(RenderError::NoData));
    let ex = extract_tasks(&s).unwrap();
    assert!(ex.tasks.is_empty());
    assert_eq!(ex.time_min, u32::MAX);
    assert_eq!(ex.time_max, 0);
    assert_eq!(axis_domain(&s, &ex), Err(RenderError::NoData));
}

#[test]
fn cores_without_intervals_are_no_data() {
    let s = store(&[(0, &[]), (1, &[])]);
    assert_eq!(plan_frame(&s, &RenderConfig::standard(), 640, 480), Err(RenderError::NoData));
}

#[test]
fn zero_area_surface_draws_nothing() {
    let s = store(&[(0, &[(1, 2, 3)])]);
    let cfg = RenderConfig::standard();
    assert_eq!(plan_frame(&s, &cfg, 0, 480), Ok(vec![]));
    assert_eq!(plan_frame(&s, &cfg, 640, 0), Ok(vec![]));
    assert_eq!(plan_frame(&store(&[]), &cfg, 0, 0), Ok(vec![]));
    assert_eq!(plan_frame(&store(&[(0, &[(0, 5, 3)])]), &cfg, 0, 10), Ok(vec![]));
}

#[test]
fn planning_twice_gives_the_same_frame() {
    let s = store(&[(0, &[(1, 0, 10), (2, 10, 30)]), (1, &[(3, 5, 25)])]);
    let cfg = RenderConfig::standard();
    let a = plan_frame(&s, &cfg, 300, 200);
    let b = plan_frame(&s, &cfg, 300, 200);
    assert!(a.is_ok());
    assert_eq!(a, b);
}

#[test]
fn durations_are_end_minus_start() {
    let s = store(&[(4, &[(1, 0, 0), (2, 3, 17)]), (7, &[(9, 40, 100)])]);
    let ex = extract_tasks(&s).unwrap();
    assert_eq!(
        ex.tasks,
        vec![
            Task { core_id: 4, task_id: 1, start: 0, duration: 0 },
            Task { core_id: 4, task_id: 2, start: 3, duration: 14 },
            Task { core_id: 7, task_id: 9, start: 40, duration: 60 },
        ]
    );
}

#[test]
fn domain_takes_extremes_over_all_records() {
    let s = store(&[(6, &[(1, 30, 35), (2, 12, 90)]), (2, &[]), (9, &[(3, 50, 60)])]);
    let ex = extract_tasks(&s).unwrap();
    assert_eq!(
        axis_domain(&s, &ex),
        Ok(AxisDomain { time_min: 12, time_max: 90, core_min: 2, core_max: 9 })
    );
}

#[test]
fn domain_ignores_record_order() {
    let a = store(&[(0, &[(1, 20, 40)]), (5, &[(2, 3, 9), (3, 70, 71)]), (3, &[(4, 8, 99)])]);
    let b = store(&[(3, &[(4, 8, 99)]), (0, &[(1, 20, 40)]), (5, &[(2, 3, 9), (3, 70, 71)])]);
    let da = axis_domain(&a, &extract_tasks(&a).unwrap()).unwrap();
    let db = axis_domain(&b, &extract_tasks(&b).unwrap()).unwrap();
    assert_eq!(da, db);
    assert_eq!(da, AxisDomain { time_min: 3, time_max: 99, core_min: 0, core_max: 5 });
}

#[test]
fn chart_ranges_widen_degenerate_spans() {
    let d = AxisDomain { time_min: 7, time_max: 7, core_min: 2, core_max: 2 };
    assert_eq!(chart_ranges(&d), ChartRanges { x_lo: 7, x_hi: 8, y_lo: 2, y_hi: 3 });
    let d = AxisDomain { time_min: 0, time_max: 100, core_min: 0, core_max: 9 };
    assert_eq!(chart_ranges(&d), ChartRanges { x_lo: 0, x_hi: 100, y_lo: 0, y_hi: 9 });
    let d = AxisDomain { time_min: u32::MAX, time_max: u32::MAX, core_min: u32::MAX, core_max: u32::MAX };
    assert_eq!(
        chart_ranges(&d),
        ChartRanges { x_lo: 4294967295, x_hi: 4294967296, y_lo: 4294967295, y_hi: 4294967296 }
    );
}

#[test]
fn task_rect_spans_time_and_core_band() {
    let t = Task { core_id: u32::MAX, task_id: 0, start: u32::MAX, duration: 0 };
    assert_eq!(
        task_rect(&t),
        TaskRect { time_start: 4294967295, time_end: 4294967295, core_low: 4294967295, core_high: 4294967296 }
    );
    let t = Task { core_id: 1, task_id: 2, start: 30, duration: 12 };
    assert_eq!(task_rect(&t), TaskRect { time_start: 30, time_end: 42, core_low: 1, core_high: 2 });
}

#[test]
fn rectangles_follow_core_major_order() {
    let s = store(&[(1, &[(1, 50, 60), (2, 0, 10)]), (0, &[(3, 20, 30)])]);
    let ops = plan_frame(&s, &RenderConfig::standard(), 10, 10).unwrap();
    assert_eq!(ops.len(), 7);
    assert_eq!(
        ops[1],
        DrawOp::BuildChart {
            ranges: ChartRanges { x_lo: 0, x_hi: 60, y_lo: 0, y_hi: 1 },
            margin: 5,
            label_area: 40,
            caption_font_size: 40,
        }
    );
    let starts: Vec<u64> = ops
        .iter()
        .filter_map(|op| match op {
            DrawOp::FillRect { rect, .. } => Some(rect.time_start),
            _ => None,
        })
        .collect();
    assert_eq!(starts, vec![50, 0, 20]);
    assert_eq!(ops[6], DrawOp::Present);
}

#[test]
fn custom_config_is_used() {
    let mut cfg = RenderConfig::standard();
    cfg.margin = 11;
    cfg.background = Rgb { r: 1, g: 2, b: 3 };
    cfg.task_style.opacity_percent = 100;
    let s = store(&[(0, &[(1, 0, 1)])]);
    let ops = plan_frame(&s, &cfg, 5, 5).unwrap();
    assert_eq!(ops[0], DrawOp::FillBackground { color: Rgb { r: 1, g: 2, b: 3 } });
    match ops[1] {
        DrawOp::BuildChart { margin, .. } => assert_eq!(margin, 11),
        _ => panic!("expected the chart"),
    }
    match ops[3] {
        DrawOp::FillRect { style, .. } => assert_eq!(style.opacity_percent, 100),
        _ => panic!("expected a rectangle"),
    }
}

#[test]
fn standard_config_values() {
    let cfg = RenderConfig::standard();
    assert_eq!(cfg.caption, "Log plot");
    assert_eq!(cfg.caption_font_size, 40);
    assert_eq!(cfg.margin, 5);
    assert_eq!(cfg.label_area, 40);
    assert_eq!(cfg.max_light_lines, 4);
    assert_eq!(cfg.label_font_size, 15);
    assert_eq!(cfg.task_style, blue_style());
}
