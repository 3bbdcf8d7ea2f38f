//! Geometry of the control panel: where every control goes for a given
//! client size, in 96-DPI units.
use vstd::prelude::*;

verus! {

/// A control's position and size; sizes are at least one unit.
#[derive(Clone, Copy, Debug, PartialEq, Eq, Structural)]
pub struct Placement {
    pub x: i32,
    pub y: i32,
    pub width: i32,
    pub height: i32,
}

/// A slider row: the value label and the track bar.
#[derive(Clone, Copy, Debug, PartialEq, Eq, Structural)]
pub struct SliderLayout {
    pub value: Placement,
    pub track: Placement,
}

#[derive(Clone, Copy, Debug, PartialEq, Eq, Structural)]
pub struct MonitorPageLayout {
    pub title: Placement,
    pub description: Placement,
    pub monitor_combo: Placement,
    pub refresh_monitors: Placement,
    pub windows_list: Placement,
    pub refresh_windows: Placement,
    pub select_all: Placement,
    pub clear: Placement,
    pub hint: Placement,
}

#[derive(Clone, Copy, Debug, PartialEq, Eq, Structural)]
pub struct LayoutPageLayout {
    pub title: Placement,
    pub description: Placement,
    pub kind_combo: Placement,
    pub regenerate: Placement,
    pub edit: Placement,
    pub help: Placement,
}

#[derive(Clone, Copy, Debug, PartialEq, Eq, Structural)]
pub struct FilterPageLayout {
    pub title: Placement,
    pub description: Placement,
    pub kind_combo: Placement,
    pub choose_color: Placement,
    pub brightness: SliderLayout,
    pub hue: SliderLayout,
    pub edge_threshold: SliderLayout,
    pub edge_width: SliderLayout,
    pub explanation: Placement,
}

#[derive(Clone, Copy, Debug, PartialEq, Eq, Structural)]
pub struct ProtectionPageLayout {
    pub title: Placement,
    pub description: Placement,
    pub scale: SliderLayout,
    pub drift: SliderLayout,
    pub variation: SliderLayout,
    pub blank_interval: SliderLayout,
    pub blank_duration: SliderLayout,
    pub fps: SliderLayout,
    pub resolution_limit: Placement,
    pub resolution_tip: Placement,
}

/// Where every control of the main window goes.
#[derive(Clone, Copy, Debug, PartialEq, Eq, Structural)]
pub struct WindowLayout {
    pub heading: Placement,
    pub subtitle: Placement,
    pub language_label: Placement,
    pub language: Placement,
    pub state: Placement,
    pub start_stop: Placement,
    pub pause_resume: Placement,
    pub status: Placement,
    /// The frame that holds each page.
    pub page: Placement,
    pub monitor_page: MonitorPageLayout,
    pub layout_page: LayoutPageLayout,
    pub filter_page: FilterPageLayout,
    pub protection_page: ProtectionPageLayout,
}

pub open spec fn at_least(value: int, low: int) -> int {
    if value >= low { value } else { low }
}

pub open spec fn placed(x: int, y: int, width: int, height: int) -> Placement {
    Placement { x: x as i32, y: y as i32, width: at_least(width, 1) as i32, height: at_least(height, 1) as i32 }
}

/// A slider row at height `y` of a page `page_width` units wide.
pub open spec fn slider_row(page_width: int, y: int) -> SliderLayout {
    SliderLayout {
        value: placed(page_width - 176, y, 88, 28),
        track: placed(260, y - 4, at_least(page_width - 448, 198), 30),
    }
}

/// The layout for a client area of `width` by `height` units, which must be
/// at least 700 by 600.
pub open spec fn spec_window_layout(width: int, height: int) -> WindowLayout {
    let pw = at_least(width - 254, 646);
    let ph = at_least(height - 210, 540);
    let actions_y = ph - 110;
    WindowLayout {
        heading: placed(28, 22, at_least(width - 650, 300), 46),
        subtitle: placed(30, 64, at_least(width - 430, 360), 28),
        language_label: placed(width - 305, 24, 85, 28),
        language: placed(width - 222, 20, 190, 34),
        state: placed(width - 305, 61, 270, 28),
        start_stop: placed(252, height - 84, at_least(width - 460, 300), 44),
        pause_resume: placed(width - 196, height - 84, 164, 44),
        status: placed(253, height - 36, at_least(width - 285, 400), 28),
        page: placed(246, 104, pw, ph),
        monitor_page: MonitorPageLayout {
            title: placed(28, 22, pw - 56, 36),
            description: placed(28, 54, pw - 56, 28),
            monitor_combo: placed(28, 126, pw - 176, 34),
            refresh_monitors: placed(pw - 136, 126, 108, 34),
            windows_list: placed(28, 208, pw - 56, ph - 330),
            refresh_windows: placed(28, actions_y, 150, 34),
            select_all: placed(188, actions_y, 120, 34),
            clear: placed(318, actions_y, 120, 34),
            hint: placed(28, ph - 58, pw - 56, 48),
        },
        layout_page: LayoutPageLayout {
            title: placed(28, 22, pw - 56, 36),
            description: placed(28, 54, pw - 56, 28),
            kind_combo: placed(28, 138, pw - 286, 34),
            regenerate: placed(pw - 246, 138, 160, 34),
            edit: placed(28, 210, pw - 114, 44),
            help: placed(28, 282, pw - 86, 124),
        },
        filter_page: FilterPageLayout {
            title: placed(28, 22, pw - 56, 36),
            description: placed(28, 54, pw - 56, 28),
            kind_combo: placed(260, 88, pw - 348, 34),
            choose_color: placed(260, 198, pw - 348, 34),
            brightness: slider_row(pw, 142),
            hue: slider_row(pw, 252),
            edge_threshold: slider_row(pw, 312),
            edge_width: slider_row(pw, 372),
            explanation: placed(28, 438, pw - 86, 96),
        },
        protection_page: ProtectionPageLayout {
            title: placed(28, 22, pw - 56, 36),
            description: placed(28, 54, pw - 56, 28),
            scale: slider_row(pw, 90),
            drift: slider_row(pw, 150),
            variation: slider_row(pw, 210),
            blank_interval: slider_row(pw, 270),
            blank_duration: slider_row(pw, 330),
            fps: slider_row(pw, 390),
            resolution_limit: placed(28, 458, pw - 116, 34),
            resolution_tip: placed(52, 493, pw - 140, 50),
        },
    }
}

fn place(x: i32, y: i32, width: i32, height: i32) -> (p: Placement)
    ensures
        p == placed(x as int, y as int, width as int, height as int),
{
    Placement {
        x,
        y,
        width: if width >= 1 { width } else { 1 },
        height: if height >= 1 { height } else { 1 },
    }
}

fn at_least_i32(value: i32, low: i32) -> (r: i32)
    ensures
        r == at_least(value as int, low as int),
{
    if value >= low { value } else { low }
}

fn slider(page_width: i32, y: i32) -> (row: SliderLayout)
    requires
        646 <= page_width <= i32::MAX,
        0 <= y <= 1000,
    ensures
        row == slider_row(page_width as int, y as int),
{
    SliderLayout {
        value: place(page_width - 176, y, 88, 28),
        track: place(260, y - 4, at_least_i32(page_width - 448, 198), 30),
    }
}

/// The placement of every control for a client area of `window_width` by
/// `window_height` units; `None` below 700 by 600, where the window keeps its
/// previous layout.
pub fn window_layout(window_width: u32, window_height: u32) -> (layout: Option<WindowLayout>)
    ensures
        ({
            let width = (window_width as i32) as int;
            let height = (window_height as i32) as int;
            if width < 700 || height < 600 {
                layout is None
            } else {
                layout == Some(spec_window_layout(width, height))
            }
        }),
{
    let width = window_width as i32;
    let height = window_height as i32;
    if width < 700 || height < 600 {
        return None;
    }
    let pw = at_least_i32(width - 254, 646);
    let ph = at_least_i32(height - 210, 540);
    let actions_y = ph - 110;
    Some(WindowLayout {
        heading: place(28, 22, at_least_i32(width - 650, 300), 46),
        subtitle: place(30, 64, at_least_i32(width - 430, 360), 28),
        language_label: place(width - 305, 24, 85, 28),
        language: place(width - 222, 20, 190, 34),
        state: place(width - 305, 61, 270, 28),
        start_stop: place(252, height - 84, at_least_i32(width - 460, 300), 44),
        pause_resume: place(width - 196, height - 84, 164, 44),
        status: place(253, height - 36, at_least_i32(width - 285, 400), 28),
        page: place(246, 104, pw, ph),
        monitor_page: MonitorPageLayout {
            title: place(28, 22, pw - 56, 36),
            description: place(28, 54, pw - 56, 28),
            monitor_combo: place(28, 126, pw - 176, 34),
            refresh_monitors: place(pw - 136, 126, 108, 34),
            windows_list: place(28, 208, pw - 56, ph - 330),
            refresh_windows: place(28, actions_y, 150, 34),
            select_all: place(188, actions_y, 120, 34),
            clear: place(318, actions_y, 120, 34),
            hint: place(28, ph - 58, pw - 56, 48),
        },
        layout_page: LayoutPageLayout {
            title: place(28, 22, pw - 56, 36),
            description: place(28, 54, pw - 56, 28),
            kind_combo: place(28, 138, pw - 286, 34),
            regenerate: place(pw - 246, 138, 160, 34),
            edit: place(28, 210, pw - 114, 44),
            help: place(28, 282, pw - 86, 124),
        },
        filter_page: FilterPageLayout {
            title: place(28, 22, pw - 56, 36),
            description: place(28, 54, pw - 56, 28),
            kind_combo: place(260, 88, pw - 348, 34),
            choose_color: place(260, 198, pw - 348, 34),
            brightness: slider(pw, 142),
            hue: slider(pw, 252),
            edge_threshold: slider(pw, 312),
            edge_width: slider(pw, 372),
            explanation: place(28, 438, pw - 86, 96),
        },
        protection_page: ProtectionPageLayout {
            title: place(28, 22, pw - 56, 36),
            description: place(28, 54, pw - 56, 28),
            scale: slider(pw, 90),
            drift: slider(pw, 150),
            variation: slider(pw, 210),
            blank_interval: slider(pw, 270),
            blank_duration: slider(pw, 330),
            fps: slider(pw, 390),
            resolution_limit: place(28, 458, pw - 116, 34),
            resolution_tip: place(52, 493, pw - 140, 50),
        },
    })
}

/// A larger window never shrinks the pages: every page is at least 646 by
/// 540 units and grows with the window.
pub proof fn lemma_pages_grow_with_window(w1: int, h1: int, w2: int, h2: int)
    requires
        700 <= w1 <= w2 <= i32::MAX,
        600 <= h1 <= h2 <= i32::MAX,
    ensures
        646 <= spec_window_layout(w1, h1).page.width <= spec_window_layout(w2, h2).page.width,
        540 <= spec_window_layout(w1, h1).page.height <= spec_window_layout(w2, h2).page.height,
{
}

} // verus!
