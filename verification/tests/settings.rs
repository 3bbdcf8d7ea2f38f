use sidescreen::model::{FilterStyle, LayoutMode};
use sidescreen::settings::{startup_command_for, SettingsCore};

#[test]
fn startup_command_quotes_the_executable_and_adds_the_flag() {
    let executable = r"C:\Program Files\SideScreenUtil\SideScreenUtil-native.exe";
    assert_eq!(
        startup_command_for(executable),
        r#""C:\Program Files\SideScreenUtil\SideScreenUtil-native.exe" --startup"#
    );
}

#[test]
fn defaults_leave_startup_preferences_disabled() {
    let settings = SettingsCore::default();
    assert!(!settings.start_with_windows);
    assert!(!settings.silent_start);
    assert_eq!(settings.language, "zh_CN");
    assert_eq!(settings.layout_mode, LayoutMode::Source);
    assert_eq!(settings.filter_style, FilterStyle::Original);
    assert_eq!(settings.accent_color, 0x22d3ee);
}

#[test]
fn normalizing_defaults_changes_nothing() {
    let mut settings = SettingsCore::default();
    settings.normalize();
    assert_eq!(settings.move_seconds, 180);
    assert_eq!(settings.capture_fps, 12);
    assert_eq!(settings.blank_every_minutes, 30);
    assert_eq!(settings.blank_seconds, 30);
    assert_eq!(settings.hue_cycle_seconds, 120);
    assert_eq!(settings.edge_threshold, 18);
    assert_eq!(settings.edge_thickness, 2);
}

#[test]
fn normalize_clamps_every_numeric_preference() {
    let mut settings = SettingsCore::default();
    settings.move_seconds = 1;
    settings.capture_fps = 1000;
    settings.blank_every_minutes = 999;
    settings.blank_seconds = 0;
    settings.hue_cycle_seconds = 0;
    settings.edge_threshold = 255;
    settings.edge_thickness = 0;
    settings.accent_color = 0x123456;
    settings.normalize();
    assert_eq!(settings.move_seconds, 30);
    assert_eq!(settings.capture_fps, 30);
    assert_eq!(settings.blank_every_minutes, 240);
    assert_eq!(settings.blank_seconds, 5);
    assert_eq!(settings.hue_cycle_seconds, 10);
    assert_eq!(settings.edge_threshold, 120);
    assert_eq!(settings.edge_thickness, 1);
    assert_eq!(settings.accent_color, 0x123456);
    let once = settings.clone();
    settings.normalize();
    assert_eq!(settings.move_seconds, once.move_seconds);
    assert_eq!(settings.edge_thickness, once.edge_thickness);
}
