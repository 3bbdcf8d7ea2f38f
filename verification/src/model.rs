//! The data the library works on: layout and filter choices, source windows,
//! target monitors and captured frames.
use vstd::prelude::*;

verus! {

/// How the selected source windows are arranged on the target display.
#[derive(Clone, Copy, Debug, PartialEq, Eq, Structural)]
pub enum LayoutMode {
    Source,
    Grid,
    Horizontal,
    Vertical,
    Manual,
}

impl Default for LayoutMode {
    fn default() -> (mode: Self)
        ensures
            mode == LayoutMode::Source,
    {
        LayoutMode::Source
    }
}

/// The visual treatment applied to every captured frame.
#[derive(Clone, Copy, Debug, PartialEq, Eq, Structural)]
pub enum FilterStyle {
    Original,
    Grayscale,
    Mono,
    MonoCycle,
    Edge,
    EdgeCycle,
}

impl Default for FilterStyle {
    fn default() -> (style: Self)
        ensures
            style == FilterStyle::Original,
    {
        FilterStyle::Original
    }
}

/// A top-level window that can be captured.
#[derive(Clone, Debug)]
pub struct WindowInfo {
    pub hwnd: isize,
    pub title: String,
    pub process_name: String,
    /// `[left, top, right, bottom]` in screen coordinates.
    pub rect: [i32; 4],
}

/// The separator between a window title and its process name.
pub open spec fn name_separator() -> Seq<char> {
    " \u{2014} "@
}

impl WindowInfo {
    /// The text shown for a window in the source list: the title, followed by
    /// the process name when there is one.
    pub open spec fn spec_display_name(&self) -> Seq<char> {
        if self.process_name@.len() == 0 {
            self.title@
        } else {
            self.title@ + name_separator() + self.process_name@
        }
    }

    pub fn display_name(&self) -> (name: String)
        ensures
            name@ == self.spec_display_name(),
    {
        if self.process_name.as_str().is_empty() {
            self.title.clone()
        } else {
            let mut name = self.title.clone();
            name.append(" \u{2014} ");
            name.append(self.process_name.as_str());
            name
        }
    }
}

/// A display that can host the overlay.
#[derive(Clone, Debug)]
pub struct MonitorInfo {
    pub device: String,
    pub name: String,
    /// `[left, top, right, bottom]` in virtual-screen coordinates.
    pub rect: [i32; 4],
    pub primary: bool,
}

impl MonitorInfo {
    pub fn width(&self) -> (width: i32)
        requires
            i32::MIN <= self.rect[2] - self.rect[0] <= i32::MAX,
        ensures
            width == self.rect[2] - self.rect[0],
    {
        self.rect[2] - self.rect[0]
    }

    pub fn height(&self) -> (height: i32)
        requires
            i32::MIN <= self.rect[3] - self.rect[1] <= i32::MAX,
        ensures
            height == self.rect[3] - self.rect[1],
    {
        self.rect[3] - self.rect[1]
    }
}

/// A processed frame: `width * height` pixels, four bytes each (B, G, R, A).
#[derive(Clone, Debug)]
pub struct FrameData {
    pub width: u32,
    pub height: u32,
    pub pixels: Vec<u8>,
}

} // verus!
