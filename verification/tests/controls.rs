use sidescreen::controls::{
    activity, decimal, running_state_text, contains_handle, decode_text_color, encode_text_color, filter_from_index, filter_index,
    handles_at, handles_without, is_chinese, layout_from_index, layout_index, mode_after_editing, nav_label, rgb,
    scale_for_dpi, select_monitor, selected_positions, window_positions, Activity, Session,
};
use sidescreen::model::{FilterStyle, LayoutMode, MonitorInfo, WindowInfo};

fn monitor(device: &str, primary: bool) -> MonitorInfo {
    MonitorInfo {
        device: device.to_owned(),
        name: device.to_owned(),
        rect: [0, 0, 1920, 1080],
        primary,
    }
}

#[test]
fn dpi_scaling() {
    assert_eq!(scale_for_dpi(100, 96), 100);
    assert_eq!(scale_for_dpi(100, 144), 150);
    assert_eq!(scale_for_dpi(-100, 144), -150);
    assert_eq!(scale_for_dpi(7, 120), 8);
    assert_eq!(scale_for_dpi(-7, 120), -8);
    assert_eq!(scale_for_dpi(i32::MAX, 192), i32::MAX / 96);
    assert_eq!(scale_for_dpi(i32::MIN, 192), i32::MIN / 96);
}

#[test]
fn colours_pack_red_green_blue() {
    assert_eq!(rgb([31, 31, 31]), 0x1f1f1f);
    assert_eq!(rgb([76, 201, 240]), 0xf0c94c);
}

#[test]
fn recorded_text_colours_read_back() {
    assert_eq!(decode_text_color(encode_text_color([166, 166, 166])), rgb([166, 166, 166]));
    assert_eq!(decode_text_color(encode_text_color([0, 0, 0])), 0);
    assert_eq!(decode_text_color(0), rgb([248, 248, 248]));
}

#[test]
fn choice_lists_round_trip() {
    for mode in [LayoutMode::Source, LayoutMode::Grid, LayoutMode::Horizontal, LayoutMode::Vertical, LayoutMode::Manual] {
        assert_eq!(layout_from_index(layout_index(mode)), mode);
    }
    for style in [
        FilterStyle::Original,
        FilterStyle::Grayscale,
        FilterStyle::Mono,
        FilterStyle::MonoCycle,
        FilterStyle::Edge,
        FilterStyle::EdgeCycle,
    ] {
        assert_eq!(filter_from_index(filter_index(style)), style);
    }
    assert_eq!(layout_from_index(99), LayoutMode::Source);
    assert_eq!(filter_from_index(99), FilterStyle::Original);
}

#[test]
fn no_selected_window_means_black_only() {
    assert_eq!(activity(false, false, 3), Activity::Idle);
    assert_eq!(activity(true, true, 3), Activity::Paused);
    assert_eq!(activity(true, false, 0), Activity::BlackOnly);
    assert_eq!(activity(true, false, 2), Activity::Running);
}

#[test]
fn current_page_is_marked() {
    assert_eq!(nav_label("Layout", true), "\u{25cf}  Layout");
    assert_eq!(nav_label("Layout", false), "Layout");
}

#[test]
fn previous_display_is_kept_else_a_secondary_one_is_chosen() {
    let monitors = vec![monitor("\\\\.\\DISPLAY1", true), monitor("\\\\.\\DISPLAY2", false)];
    assert_eq!(select_monitor(&monitors, "\\\\.\\DISPLAY1"), Some(0));
    assert_eq!(select_monitor(&monitors, ""), Some(1));
    let single = vec![monitor("\\\\.\\DISPLAY1", true)];
    assert_eq!(select_monitor(&single, "gone"), Some(0));
    assert_eq!(select_monitor(&[], "gone"), None);
}

#[test]
fn capture_sync_stops_and_starts_the_difference() {
    let running = [1, 2, 3];
    let selected = [3, 4, 1];
    assert_eq!(handles_without(&running, &selected), vec![2]);
    assert_eq!(handles_without(&selected, &running), vec![4]);
    assert!(contains_handle(&selected, 4));
    assert!(!contains_handle(&selected, 2));
    assert_eq!(handles_without(&[], &selected), Vec::<isize>::new());
}

fn window(hwnd: isize) -> WindowInfo {
    WindowInfo {
        hwnd,
        title: format!("window {hwnd}"),
        process_name: String::new(),
        rect: [0, 0, 640, 480],
    }
}

#[test]
fn selection_is_restored_after_a_refresh() {
    let windows = vec![window(30), window(10), window(20), window(40)];
    let positions = selected_positions(&windows, &[20, 30, 99]);
    assert_eq!(positions, vec![0, 2]);
    assert_eq!(handles_at(&windows, &positions), vec![30, 20]);
    assert_eq!(handles_at(&windows, &[3, 9, 1]), vec![40, 10]);
}

#[test]
fn finishing_an_edit_switches_to_the_manual_layout() {
    assert_eq!(mode_after_editing(true, true, LayoutMode::Grid), LayoutMode::Manual);
    assert_eq!(mode_after_editing(false, true, LayoutMode::Grid), LayoutMode::Grid);
    assert_eq!(mode_after_editing(true, false, LayoutMode::Vertical), LayoutMode::Vertical);
}

#[test]
fn chinese_interface_follows_the_language_code() {
    assert!(is_chinese("zh_CN"));
    assert!(is_chinese("zh_TW"));
    assert!(!is_chinese("en_US"));
    assert!(!is_chinese("z"));
    assert!(!is_chinese(""));
}

#[test]
fn pausing_needs_a_running_session() {
    let mut session = Session::new();
    assert!(!session.toggle_pause());
    assert!(!session.paused);
    session.start();
    assert!(session.shows_overlay());
    assert!(session.toggle_pause());
    assert!(session.paused && !session.shows_overlay());
    assert!(session.toggle_pause());
    assert!(!session.paused);
    session.toggle_pause();
    session.stop();
    assert_eq!(session, Session { active: false, paused: false });
}

#[test]
fn chosen_windows_follow_the_selection_order() {
    let windows = vec![window(30), window(10), window(20), window(10)];
    assert_eq!(window_positions(&windows, &[20, 99, 10]), vec![2, 1]);
    assert_eq!(window_positions(&windows, &[]), Vec::<usize>::new());
}

#[test]
fn counts_are_written_in_decimal() {
    assert_eq!(decimal(0), "0");
    assert_eq!(decimal(7), "7");
    assert_eq!(decimal(10), "10");
    assert_eq!(decimal(4096), "4096");
    assert_eq!(decimal(usize::MAX), usize::MAX.to_string());
}

#[test]
fn the_running_state_fills_in_the_window_count() {
    assert_eq!(running_state_text("●  Running · {count} windows", 3), "●  Running · 3 windows");
    assert_eq!(running_state_text("{count}/{count}", 12), "12/12");
    assert_eq!(running_state_text("{{count}}", 5), "{5}");
    assert_eq!(running_state_text("{count", 5), "{count");
    assert_eq!(running_state_text("no placeholder", 5), "no placeholder");
    assert_eq!(running_state_text("", 5), "");
}
