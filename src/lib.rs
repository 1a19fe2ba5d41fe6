//! Braille-dot pixel canvas for terminals, with a small chart layer on top.

pub mod canvas;
pub mod charts;
pub mod color;
pub mod geometry;
pub mod laws;
pub mod render;

pub use canvas::{BrailleCanvas, CanvasModel};
pub use charts::ChartContext;
pub use color::{Color, ColorBlend};
