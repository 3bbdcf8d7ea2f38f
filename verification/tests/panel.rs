use sidescreen::panel::{window_layout, Placement};

#[test]
fn small_windows_keep_their_layout() {
    assert!(window_layout(699, 800).is_none());
    assert!(window_layout(1040, 599).is_none());
}

#[test]
fn default_window_size_places_the_pages() {
    let layout = window_layout(1040, 760).expect("large enough");
    assert_eq!(layout.page, Placement { x: 246, y: 104, width: 786, height: 550 });
    assert_eq!(layout.start_stop, Placement { x: 252, y: 676, width: 580, height: 44 });
    assert_eq!(layout.pause_resume, Placement { x: 844, y: 676, width: 164, height: 44 });
    assert_eq!(layout.monitor_page.refresh_monitors, Placement { x: 650, y: 126, width: 108, height: 34 });
    assert_eq!(layout.filter_page.brightness.track, Placement { x: 260, y: 138, width: 338, height: 30 });
}

#[test]
fn responsive_layout_expands_with_the_window() {
    let layout = window_layout(1280, 840).expect("large enough");
    assert!(layout.page.width > 786);
    assert!(layout.start_stop.width > 580);
    assert_eq!(layout.monitor_page.windows_list.height, 630 - 330);
}
