use sidescreen::layout::{source_bounds, SourceBounds};
use sidescreen::model::WindowInfo;

fn window(hwnd: isize, rect: [i32; 4]) -> WindowInfo {
    WindowInfo {
        hwnd,
        title: format!("window {hwnd}"),
        process_name: String::new(),
        rect,
    }
}

#[test]
fn bounds_enclose_every_window() {
    let windows = vec![window(1, [100, 50, 500, 450]), window(2, [-200, 80, 300, 900])];
    assert_eq!(
        source_bounds(&windows),
        Some(SourceBounds { left: -200, top: 50, width: 700, height: 850 })
    );
}

#[test]
fn degenerate_bounds_keep_a_unit_size() {
    let windows = vec![window(1, [10, 10, 10, 5])];
    assert_eq!(
        source_bounds(&windows),
        Some(SourceBounds { left: 10, top: 10, width: 1, height: 1 })
    );
    assert_eq!(source_bounds(&[]), None);
}
