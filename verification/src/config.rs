//! Plain engine-facing configuration and asset-description types: window
//! settings, scroll-wheel state, and shader sources carried to the display
//! layer.

use vstd::prelude::*;

verus! {

/// Which way the scroll wheel moved during a frame, if at all.
#[derive(Clone, Copy, Debug, PartialEq, Eq, Structural)]
pub enum ScrollDirection {
    Up,
    Down,
    NoScroll,
}

/// How the window reacts to resizing.
#[derive(Clone, Copy, Debug, PartialEq, Eq, Structural)]
pub enum ResizeMode {
    KeepAspectRatio,
    Resize,
    NoResize,
    Fullscreen,
}

/// The window configuration a game is started with.
#[derive(Clone, Copy, Debug)]
pub struct WindowSettings {
    pub logical_width: u32,
    pub logical_height: u32,
    pub resize_mode: ResizeMode,
}

impl WindowSettings {
    pub fn new(logical_width: u32, logical_height: u32, resize_mode: ResizeMode)
        -> (s: WindowSettings)
        ensures
            s.logical_width == logical_width,
            s.logical_height == logical_height,
            s.resize_mode == resize_mode,
    {
        WindowSettings { logical_width, logical_height, resize_mode }
    }
}

/// A named shader source, handed to the display layer as-is.
pub struct Shader {
    pub name: String,
    pub contents: String,
}

impl Shader {
    pub fn new(name: String, contents: String) -> (s: Shader)
        ensures
            s.name == name,
            s.contents == contents,
    {
        Shader { name, contents }
    }
}

} // verus!
