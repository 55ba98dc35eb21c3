//! Platform-facing value types: platform errors and window parameters.

use vstd::prelude::*;

verus! {

/// Errors of the platform layer.
#[derive(Debug)]
pub enum PlatformError {
    /// The window could not be created.
    WindowCreation(String),
    /// The event loop failed.
    EventLoop(String),
}

impl PlatformError {
    /// The error's message.
    pub fn message(&self) -> (m: String)
        ensures
            m@ == match self {
                PlatformError::WindowCreation(s) => "failed to create window: "@ + s@,
                PlatformError::EventLoop(s) => "event loop error: "@ + s@,
            },
    {
        match self {
            PlatformError::WindowCreation(s) => {
                let mut m = "failed to create window: ".to_owned();
                m.append(s.as_str());
                m
            },
            PlatformError::EventLoop(s) => {
                let mut m = "event loop error: ".to_owned();
                m.append(s.as_str());
                m
            },
        }
    }
}

/// Parameters for creating a new window.
#[derive(Debug)]
pub struct WindowConfig {
    pub title: String,
    pub width: u32,
    pub height: u32,
    pub resizable: bool,
    pub vsync: bool,
}

impl Default for WindowConfig {
    fn default() -> (c: Self)
        ensures
            c.title@ == "webgpui"@,
            c.width == 800,
            c.height == 600,
            c.resizable,
            c.vsync,
    {
        WindowConfig { title: "webgpui".to_owned(), width: 800, height: 600, resizable: true, vsync: true }
    }
}

impl WindowConfig {
    /// A resizable, vsynced window with the given title and size.
    pub fn new(title: &str, width: u32, height: u32) -> (c: Self)
        ensures
            c.title@ == title@,
            c.width == width,
            c.height == height,
            c.resizable,
            c.vsync,
    {
        WindowConfig { title: title.to_owned(), width, height, resizable: true, vsync: true }
    }
}

} // verus!
