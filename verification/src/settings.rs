//! Persisted preferences and the command registered to start with Windows.
//!
//! The three fractional preferences (preview scale, size variation and
//! brightness) are floating-point values and are kept by the caller; every
//! other preference lives in [`SettingsCore`].
use vstd::prelude::*;
use crate::model::{FilterStyle, LayoutMode};

verus! {

/// Every persisted preference except the fractional ones.
#[derive(Clone, Debug)]
pub struct SettingsCore {
    pub language: String,
    pub start_with_windows: bool,
    pub silent_start: bool,
    pub monitor_device: String,
    pub move_seconds: u32,
    pub capture_fps: u32,
    pub limit_capture_resolution: bool,
    pub blank_every_minutes: u32,
    pub blank_seconds: u32,
    pub layout_mode: LayoutMode,
    pub filter_style: FilterStyle,
    pub accent_color: u32,
    pub hue_cycle_seconds: u32,
    pub edge_threshold: u8,
    pub edge_thickness: u8,
}

pub open spec fn clamp(value: int, low: int, high: int) -> int {
    if value < low { low } else if value > high { high } else { value }
}

fn clamp_u32(value: u32, low: u32, high: u32) -> (r: u32)
    requires
        low <= high,
    ensures
        r == clamp(value as int, low as int, high as int),
{
    if value < low { low } else if value > high { high } else { value }
}

fn clamp_u8(value: u8, low: u8, high: u8) -> (r: u8)
    requires
        low <= high,
    ensures
        r == clamp(value as int, low as int, high as int),
{
    if value < low { low } else if value > high { high } else { value }
}

impl SettingsCore {
    /// Every numeric preference lies in the range its control offers.
    pub open spec fn is_normalized(&self) -> bool {
        &&& 30 <= self.move_seconds <= 900
        &&& 5 <= self.capture_fps <= 30
        &&& self.blank_every_minutes <= 240
        &&& 5 <= self.blank_seconds <= 300
        &&& 10 <= self.hue_cycle_seconds <= 600
        &&& 4 <= self.edge_threshold <= 120
        &&& 1 <= self.edge_thickness <= 4
    }

    /// Brings every numeric preference into its range; everything else is kept.
    pub fn normalize(&mut self)
        ensures
            final(self).move_seconds == clamp(old(self).move_seconds as int, 30, 900),
            final(self).capture_fps == clamp(old(self).capture_fps as int, 5, 30),
            final(self).blank_every_minutes == clamp(old(self).blank_every_minutes as int, 0, 240),
            final(self).blank_seconds == clamp(old(self).blank_seconds as int, 5, 300),
            final(self).hue_cycle_seconds == clamp(old(self).hue_cycle_seconds as int, 10, 600),
            final(self).edge_threshold == clamp(old(self).edge_threshold as int, 4, 120),
            final(self).edge_thickness == clamp(old(self).edge_thickness as int, 1, 4),
            final(self).language == old(self).language,
            final(self).start_with_windows == old(self).start_with_windows,
            final(self).silent_start == old(self).silent_start,
            final(self).monitor_device == old(self).monitor_device,
            final(self).limit_capture_resolution == old(self).limit_capture_resolution,
            final(self).layout_mode == old(self).layout_mode,
            final(self).filter_style == old(self).filter_style,
            final(self).accent_color == old(self).accent_color,
            final(self).is_normalized(),
    {
        self.move_seconds = clamp_u32(self.move_seconds, 30, 900);
        self.capture_fps = clamp_u32(self.capture_fps, 5, 30);
        self.blank_every_minutes = if self.blank_every_minutes > 240 { 240 } else { self.blank_every_minutes };
        self.blank_seconds = clamp_u32(self.blank_seconds, 5, 300);
        self.hue_cycle_seconds = clamp_u32(self.hue_cycle_seconds, 10, 600);
        self.edge_threshold = clamp_u8(self.edge_threshold, 4, 120);
        self.edge_thickness = clamp_u8(self.edge_thickness, 1, 4);
    }
}

impl Default for SettingsCore {
    /// Chinese interface, no start with Windows, source layout, original
    /// colours, three-minute drift and a 30-second rest every 30 minutes.
    fn default() -> (settings: Self)
        ensures
            settings.language@ == "zh_CN"@,
            !settings.start_with_windows,
            !settings.silent_start,
            settings.monitor_device@.len() == 0,
            settings.move_seconds == 180,
            settings.capture_fps == 12,
            settings.limit_capture_resolution,
            settings.blank_every_minutes == 30,
            settings.blank_seconds == 30,
            settings.layout_mode == LayoutMode::Source,
            settings.filter_style == FilterStyle::Original,
            settings.accent_color == 0x22d3ee,
            settings.hue_cycle_seconds == 120,
            settings.edge_threshold == 18,
            settings.edge_thickness == 2,
            settings.is_normalized(),
    {
        SettingsCore {
            language: "zh_CN".to_owned(),
            start_with_windows: false,
            silent_start: false,
            monitor_device: String::new(),
            move_seconds: 180,
            capture_fps: 12,
            limit_capture_resolution: true,
            blank_every_minutes: 30,
            blank_seconds: 30,
            layout_mode: LayoutMode::Source,
            filter_style: FilterStyle::Original,
            accent_color: 0x22d3ee,
            hue_cycle_seconds: 120,
            edge_threshold: 18,
            edge_thickness: 2,
        }
    }
}

/// Normalising twice is the same as normalising once: a normalised value is
/// left as it is by every clamp.
pub proof fn lemma_normalize_is_idempotent(settings: SettingsCore)
    requires
        settings.is_normalized(),
    ensures
        clamp(settings.move_seconds as int, 30, 900) == settings.move_seconds,
        clamp(settings.capture_fps as int, 5, 30) == settings.capture_fps,
        clamp(settings.blank_every_minutes as int, 0, 240) == settings.blank_every_minutes,
        clamp(settings.blank_seconds as int, 5, 300) == settings.blank_seconds,
        clamp(settings.hue_cycle_seconds as int, 10, 600) == settings.hue_cycle_seconds,
        clamp(settings.edge_threshold as int, 4, 120) == settings.edge_threshold,
        clamp(settings.edge_thickness as int, 1, 4) == settings.edge_thickness,
{
}

/// The command stored under the Windows `Run` key: the quoted executable path
/// followed by the `--startup` flag.
pub open spec fn spec_startup_command(executable: Seq<char>) -> Seq<char> {
    "\""@ + executable + "\" --startup"@
}

pub fn startup_command_for(executable: &str) -> (command: String)
    ensures
        command@ == spec_startup_command(executable@),
{
    let mut command = "\"".to_owned();
    command.append(executable);
    command.append("\" --startup");
    command
}

} // verus!
