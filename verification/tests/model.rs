use sidescreen::model::{FilterStyle, LayoutMode, MonitorInfo, WindowInfo};

#[test]
fn display_name_joins_title_and_process() {
    let mut window = WindowInfo {
        hwnd: 7,
        title: "Notes".to_owned(),
        process_name: "notepad.exe".to_owned(),
        rect: [0, 0, 800, 600],
    };
    assert_eq!(window.display_name(), "Notes \u{2014} notepad.exe");
    window.process_name.clear();
    assert_eq!(window.display_name(), "Notes");
}

#[test]
fn monitor_size_comes_from_its_rectangle() {
    let monitor = MonitorInfo {
        device: "\\\\.\\DISPLAY2".to_owned(),
        name: "Side".to_owned(),
        rect: [-1080, -200, 0, 1720],
        primary: false,
    };
    assert_eq!(monitor.width(), 1080);
    assert_eq!(monitor.height(), 1920);
}

#[test]
fn default_choices() {
    assert_eq!(LayoutMode::default(), LayoutMode::Source);
    assert_eq!(FilterStyle::default(), FilterStyle::Original);
}
