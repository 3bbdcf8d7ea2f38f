use sidescreen::model::{MonitorInfo, WindowInfo};
use sidescreen::platform::{
    is_listable, monitor_name, order_monitors, order_windows, point_in_rect, wide, wide_string,
};

#[test]
fn point_hit_test_uses_half_open_bounds() {
    assert!(point_in_rect([10, 10], [0, 0, 20, 20]));
    assert!(!point_in_rect([20, 10], [0, 0, 20, 20]));
}

#[test]
fn point_on_top_left_edge_is_inside_and_bottom_edge_is_outside() {
    assert!(point_in_rect([0, 0], [0, 0, 20, 20]));
    assert!(!point_in_rect([10, 20], [0, 0, 20, 20]));
    assert!(!point_in_rect([-1, 5], [0, 0, 20, 20]));
    assert!(point_in_rect([-5, -5], [-10, -10, 0, 0]));
}

#[test]
fn wide_appends_a_terminating_nul() {
    assert_eq!(wide("Ab"), vec![0x41, 0x62, 0]);
    assert_eq!(wide(""), vec![0]);
    assert_eq!(wide("\u{1F600}"), vec![0xD83D, 0xDE00, 0]);
}

#[test]
fn wide_string_stops_at_the_first_nul() {
    assert_eq!(wide_string(&[0x44, 0x49, 0x53, 0, 0x58]), "DIS");
    assert_eq!(wide_string(&[0x4D, 0x4F]), "MO");
    assert_eq!(wide_string(&[0, 0x4D]), "");
}

#[test]
fn wide_string_replaces_unpaired_surrogates() {
    assert_eq!(wide_string(&[0xD83D, 0xDE00, 0]), "\u{1F600}");
    assert_eq!(wide_string(&[0xD83D, 0x41, 0]), "\u{FFFD}A");
    assert_eq!(wide_string(&[0xDE00]), "\u{FFFD}");
}

#[test]
fn text_survives_a_round_trip_through_a_wide_buffer() {
    for text in ["Monitor 1", "主屏", "\\\\.\\DISPLAY2", "\u{1F5A5} screen", ""] {
        assert_eq!(wide_string(&wide(text)), text);
    }
}

fn monitor(device: &str, primary: bool, left: i32, top: i32) -> MonitorInfo {
    MonitorInfo {
        device: device.to_owned(),
        name: device.to_owned(),
        rect: [left, top, left + 1920, top + 1080],
        primary,
    }
}

fn window(hwnd: isize, title: &str, process: &str) -> WindowInfo {
    WindowInfo {
        hwnd,
        title: title.to_owned(),
        process_name: process.to_owned(),
        rect: [0, 0, 800, 600],
    }
}

#[test]
fn primary_display_comes_first_then_left_to_right() {
    let monitors = vec![
        monitor("right", false, 1920, 0),
        monitor("left", false, -1920, 0),
        monitor("main", true, 0, 0),
        monitor("below", false, -1920, 1080),
        monitor("twin", false, 1920, 0),
    ];
    let devices: Vec<String> = order_monitors(monitors).into_iter().map(|m| m.device).collect();
    assert_eq!(devices, vec!["main", "left", "below", "right", "twin"]);
}

#[test]
fn windows_are_ordered_by_process_then_title_ignoring_case() {
    let windows = vec![
        window(1, "b", "Zed.exe"),
        window(2, "Beta", "code.exe"),
        window(3, "alpha", "Code.exe"),
        window(4, "ALPHA", "code.exe"),
        window(5, "x", "chrome.exe"),
    ];
    let handles: Vec<isize> = order_windows(windows).into_iter().map(|w| w.hwnd).collect();
    assert_eq!(handles, vec![5, 3, 4, 2, 1]);
}

#[test]
fn only_titled_foreign_windows_of_usable_size_are_listed() {
    assert!(is_listable("Editor", Some(10), 20, [0, 0, 160, 90]));
    assert!(is_listable("Editor", None, 20, [0, 0, 160, 90]));
    assert!(!is_listable("", Some(10), 20, [0, 0, 800, 600]));
    assert!(!is_listable("Panel", Some(20), 20, [0, 0, 800, 600]));
    assert!(!is_listable("Tiny", Some(10), 20, [0, 0, 159, 600]));
    assert!(!is_listable("Flat", Some(10), 20, [0, 0, 800, 89]));
}

#[test]
fn a_blank_display_description_falls_back_to_the_device_name() {
    assert_eq!(monitor_name(" \t\u{3000}".to_owned(), "\\\\.\\DISPLAY2"), "\\\\.\\DISPLAY2");
    assert_eq!(monitor_name(String::new(), "\\\\.\\DISPLAY1"), "\\\\.\\DISPLAY1");
    assert_eq!(monitor_name(" Generic PnP Monitor".to_owned(), "\\\\.\\DISPLAY1"), " Generic PnP Monitor");
}
