//! Timeline (Gantt) rendering of scheduling traces: the trace model, task
//! extraction, axis ranges and the sequence of drawing operations that
//! renders one frame.

pub mod trace;
pub mod extract;
pub mod domain;
pub mod render;
