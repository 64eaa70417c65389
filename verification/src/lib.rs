//! A scripted-scene driver: a tiny bytecode interpreter whose instructions
//! mutate a 2D text scene on a fixed tick, together with the frame-tick
//! logic that reconciles each emitted effect against the scene.
//!
//! The host frame loop (windowing, rendering, the wall clock) stays outside;
//! it hands the driver a per-frame time delta and applies the queued scene
//! commands at the end of each frame.

pub mod driver;
pub mod interpreter;
pub mod scene;
pub mod timer;
