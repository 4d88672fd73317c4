//! A software 2D rendering library: a pixel surface with verified drawing
//! primitives (points, lines, circles, triangles, sprite and text blits)
//! under premultiplied-alpha compositing, and a hierarchical panel layout
//! tree that resolves, each frame, into clamped pixel rectangles with
//! display payloads.

pub mod bitmap;
pub mod color;
pub mod config;
pub mod gui;
pub mod raster;
pub mod surface;
pub mod text;

pub use bitmap::Bitmap;
pub use color::Color;
pub use config::{ResizeMode, ScrollDirection, Shader, WindowSettings};
pub use gui::{
    DisplayPayload, Fraction, GUIPanel, GUIPanelContent, GUITransform, Rect, ResolvedNode,
};
pub use surface::{DrawMode, Point, Surface2D};
pub use text::{FontParameters, TextParameters, TextRasterizer};
