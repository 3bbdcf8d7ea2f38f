//! Rules behind the control panel: DPI scaling, colours stored on controls,
//! the order of the layout and filter choices, which display and which
//! captures to use, and the activity shown in the header.
use vstd::prelude::*;
use crate::model::{FilterStyle, LayoutMode, MonitorInfo, WindowInfo};
use crate::search::{first_index, lemma_first_index_prefix};

verus! {

/// `value` scaled from 96 DPI to `dpi`: the product saturates at the `i32`
/// bounds and the division rounds toward zero.
pub open spec fn spec_scale_for_dpi(value: i32, dpi: i32) -> i32 {
    let product = value * dpi;
    let saturated = if product > i32::MAX {
        i32::MAX as int
    } else if product < i32::MIN {
        i32::MIN as int
    } else {
        product
    };
    if saturated >= 0 {
        (saturated / 96) as i32
    } else {
        (-((-saturated) / 96)) as i32
    }
}

pub fn scale_for_dpi(value: i32, dpi: i32) -> (scaled: i32)
    ensures
        scaled == spec_scale_for_dpi(value, dpi),
{
    proof {
        assert(-0x4000_0000_0000_0000 <= value * dpi <= 0x4000_0000_0000_0000) by (nonlinear_arith)
            requires -0x8000_0000 <= value <= 0x7fff_ffff, -0x8000_0000 <= dpi <= 0x7fff_ffff;
    }
    let product = value as i64 * dpi as i64;
    let saturated: i64 = if product > i32::MAX as i64 {
        i32::MAX as i64
    } else if product < i32::MIN as i64 {
        i32::MIN as i64
    } else {
        product
    };
    if saturated >= 0 {
        (saturated / 96) as i32
    } else {
        let magnitude = (-saturated) / 96;
        (-magnitude) as i32
    }
}

/// At the reference density of 96 DPI a size is kept as it is (when it is
/// small enough not to saturate).
pub proof fn lemma_scale_at_reference_dpi_is_identity(value: i32)
    requires
        i32::MIN <= value * 96 <= i32::MAX,
    ensures
        spec_scale_for_dpi(value, 96) == value,
{
    if value >= 0 {
        assert(value * 96 / 96 == value) by (nonlinear_arith);
    } else {
        assert((-(value * 96)) / 96 == -value) by (nonlinear_arith);
    }
}

/// A `[red, green, blue]` colour as a Windows `COLORREF` (`0x00BBGGRR`).
pub open spec fn spec_rgb(color: [u8; 3]) -> u32 {
    (color[0] + color[1] * 256 + color[2] * 65536) as u32
}

pub fn rgb(color: [u8; 3]) -> (value: u32)
    ensures
        value == spec_rgb(color),
{
    let r = color[0] as u32;
    let g = color[1] as u32;
    let b = color[2] as u32;
    proof {
        assert(r | (g << 8u32) | (b << 16u32) == r + g * 256 + b * 65536) by (bit_vector)
            requires r < 256, g < 256, b < 256;
    }
    r | (g << 8) | (b << 16)
}

/// Text colour of controls that did not record one.
pub open spec fn default_text_color() -> u32 {
    spec_rgb([248u8, 248u8, 248u8])
}

/// The value recorded on a control for its text colour: one more than the
/// colour, so that zero means "no colour recorded".
pub fn encode_text_color(color: [u8; 3]) -> (value: usize)
    ensures
        value == spec_rgb(color) + 1,
{
    (rgb(color) as usize) + 1
}

/// The text colour of a control from the value recorded on it.
pub fn decode_text_color(value: usize) -> (color: u32)
    ensures
        color == (if value == 0 { default_text_color() } else { (value - 1) as u32 }),
{
    if value == 0 {
        rgb([248, 248, 248])
    } else {
        (value - 1) as u32
    }
}

/// A recorded text colour reads back as the colour itself.
pub proof fn lemma_text_color_round_trip(color: [u8; 3])
    ensures
        (spec_rgb(color) + 1) as usize != 0,
        (((spec_rgb(color) + 1) as usize) - 1) as u32 == spec_rgb(color),
{
    assert(spec_rgb(color) < 0x100_0000);
}

/// Position of each layout mode in the layout choice list.
pub open spec fn spec_layout_index(mode: LayoutMode) -> usize {
    match mode {
        LayoutMode::Source => 0,
        LayoutMode::Grid => 1,
        LayoutMode::Horizontal => 2,
        LayoutMode::Vertical => 3,
        LayoutMode::Manual => 4,
    }
}

/// The layout mode at a position of the choice list; any other position
/// means the source-relative layout.
pub open spec fn spec_layout_from_index(index: usize) -> LayoutMode {
    if index == 1 {
        LayoutMode::Grid
    } else if index == 2 {
        LayoutMode::Horizontal
    } else if index == 3 {
        LayoutMode::Vertical
    } else if index == 4 {
        LayoutMode::Manual
    } else {
        LayoutMode::Source
    }
}

pub fn layout_index(mode: LayoutMode) -> (index: usize)
    ensures
        index == spec_layout_index(mode),
{
    match mode {
        LayoutMode::Source => 0,
        LayoutMode::Grid => 1,
        LayoutMode::Horizontal => 2,
        LayoutMode::Vertical => 3,
        LayoutMode::Manual => 4,
    }
}

pub fn layout_from_index(index: usize) -> (mode: LayoutMode)
    ensures
        mode == spec_layout_from_index(index),
{
    match index {
        1 => LayoutMode::Grid,
        2 => LayoutMode::Horizontal,
        3 => LayoutMode::Vertical,
        4 => LayoutMode::Manual,
        _ => LayoutMode::Source,
    }
}

/// Position of each filter style in the filter choice list.
pub open spec fn spec_filter_index(style: FilterStyle) -> usize {
    match style {
        FilterStyle::Original => 0,
        FilterStyle::Grayscale => 1,
        FilterStyle::Mono => 2,
        FilterStyle::MonoCycle => 3,
        FilterStyle::Edge => 4,
        FilterStyle::EdgeCycle => 5,
    }
}

/// The filter style at a position of the choice list; any other position
/// means the original colours.
pub open spec fn spec_filter_from_index(index: usize) -> FilterStyle {
    if index == 1 {
        FilterStyle::Grayscale
    } else if index == 2 {
        FilterStyle::Mono
    } else if index == 3 {
        FilterStyle::MonoCycle
    } else if index == 4 {
        FilterStyle::Edge
    } else if index == 5 {
        FilterStyle::EdgeCycle
    } else {
        FilterStyle::Original
    }
}

pub fn filter_index(style: FilterStyle) -> (index: usize)
    ensures
        index == spec_filter_index(style),
{
    match style {
        FilterStyle::Original => 0,
        FilterStyle::Grayscale => 1,
        FilterStyle::Mono => 2,
        FilterStyle::MonoCycle => 3,
        FilterStyle::Edge => 4,
        FilterStyle::EdgeCycle => 5,
    }
}

pub fn filter_from_index(index: usize) -> (style: FilterStyle)
    ensures
        style == spec_filter_from_index(index),
{
    match index {
        1 => FilterStyle::Grayscale,
        2 => FilterStyle::Mono,
        3 => FilterStyle::MonoCycle,
        4 => FilterStyle::Edge,
        5 => FilterStyle::EdgeCycle,
        _ => FilterStyle::Original,
    }
}

/// Choosing the list entry shown for a mode gives that mode back, and every
/// list position names a distinct mode.
pub proof fn lemma_layout_choice_round_trip(mode: LayoutMode, index: usize)
    ensures
        spec_layout_from_index(spec_layout_index(mode)) == mode,
        index < 5 ==> spec_layout_index(spec_layout_from_index(index)) == index,
{
}

/// Choosing the list entry shown for a style gives that style back, and every
/// list position names a distinct style.
pub proof fn lemma_filter_choice_round_trip(style: FilterStyle, index: usize)
    ensures
        spec_filter_from_index(spec_filter_index(style)) == style,
        index < 6 ==> spec_filter_index(spec_filter_from_index(index)) == index,
{
}

/// The layout choice list shows, in order: source-relative, grid,
/// horizontal strip, vertical strip, manual. Each position selects the mode
/// its label names, and each mode is shown at its own position.
pub proof fn lemma_layout_choice_order(index: usize)
    ensures
        index < 5 ==> spec_layout_from_index(index) == seq![
            LayoutMode::Source,
            LayoutMode::Grid,
            LayoutMode::Horizontal,
            LayoutMode::Vertical,
            LayoutMode::Manual,
        ][index as int],
        index < 5 ==> spec_layout_index(seq![
            LayoutMode::Source,
            LayoutMode::Grid,
            LayoutMode::Horizontal,
            LayoutMode::Vertical,
            LayoutMode::Manual,
        ][index as int]) == index,
        index >= 5 ==> spec_layout_from_index(index) == LayoutMode::Source,
{
}

/// The filter choice list shows, in order: original, grayscale, monochrome,
/// cycling monochrome, inner contour, cycling inner contour. Each position
/// selects the style its label names, and each style is shown at its own
/// position.
pub proof fn lemma_filter_choice_order(index: usize)
    ensures
        index < 6 ==> spec_filter_from_index(index) == seq![
            FilterStyle::Original,
            FilterStyle::Grayscale,
            FilterStyle::Mono,
            FilterStyle::MonoCycle,
            FilterStyle::Edge,
            FilterStyle::EdgeCycle,
        ][index as int],
        index < 6 ==> spec_filter_index(seq![
            FilterStyle::Original,
            FilterStyle::Grayscale,
            FilterStyle::Mono,
            FilterStyle::MonoCycle,
            FilterStyle::Edge,
            FilterStyle::EdgeCycle,
        ][index as int]) == index,
        index >= 6 ==> spec_filter_from_index(index) == FilterStyle::Original,
{
}

/// What the header reports about the secondary-screen mode.
#[derive(Clone, Copy, Debug, PartialEq, Eq, Structural)]
pub enum Activity {
    /// The mode is off.
    Idle,
    /// The mode is on but paused.
    Paused,
    /// The mode is on with no source window: the display is kept black.
    BlackOnly,
    /// The mode is on and mirrors the selected windows.
    Running,
}

pub open spec fn spec_activity(active: bool, paused: bool, selected: usize) -> Activity {
    if !active {
        Activity::Idle
    } else if paused {
        Activity::Paused
    } else if selected == 0 {
        Activity::BlackOnly
    } else {
        Activity::Running
    }
}

pub fn activity(active: bool, paused: bool, selected: usize) -> (state: Activity)
    ensures
        state == spec_activity(active, paused, selected),
{
    if !active {
        Activity::Idle
    } else if paused {
        Activity::Paused
    } else if selected == 0 {
        Activity::BlackOnly
    } else {
        Activity::Running
    }
}

/// The character of a decimal digit.
pub open spec fn digit_char(d: nat) -> char {
    (48 + d) as char
}

/// Decimal notation of `n`, without leading zeros.
pub open spec fn spec_decimal(n: nat) -> Seq<char>
    decreases n,
{
    if n < 10 {
        seq![digit_char(n)]
    } else {
        spec_decimal(n / 10).push(digit_char(n % 10))
    }
}

pub open spec fn count_placeholder() -> Seq<char> {
    "{count}"@
}

/// `template` with every occurrence of the placeholder `{count}`, taken left
/// to right without overlap, replaced by `value`.
pub open spec fn spec_fill_count(template: Seq<char>, value: Seq<char>) -> Seq<char>
    decreases template.len(),
{
    let p = count_placeholder();
    if template.len() < p.len() || p.len() == 0 {
        template
    } else if template.take(p.len() as int) == p {
        value + spec_fill_count(template.skip(p.len() as int), value)
    } else {
        seq![template[0]] + spec_fill_count(template.drop_first(), value)
    }
}

fn digit_text(d: usize) -> (text: &'static str)
    requires
        d < 10,
    ensures
        text@ == seq![digit_char(d as nat)],
{
    let digits = "0123456789";
    proof {
        reveal_strlit("0123456789");
    }
    let text = digits.substring_char(d, d + 1);
    assert(text@ =~= seq![digit_char(d as nat)]);
    text
}

/// Decimal notation of a count.
pub fn decimal(n: usize) -> (text: String)
    ensures
        text@ == spec_decimal(n as nat),
    decreases n,
{
    if n < 10 {
        digit_text(n).to_owned()
    } else {
        let mut text = decimal(n / 10);
        text.append(digit_text(n % 10));
        text
    }
}

/// Whether the placeholder `{count}` starts at character `i` of `template`.
fn placeholder_at(template: &str, length: usize, i: usize) -> (found: bool)
    requires
        length == template@.len(),
        i <= length,
    ensures
        found == (i + count_placeholder().len() <= length
            && template@.subrange(i as int, i + count_placeholder().len()) == count_placeholder()),
{
    let pattern = "{count}";
    proof {
        reveal_strlit("{count}");
    }
    if length - i < 7 {
        return false;
    }
    let mut k: usize = 0;
    while k < 7
        invariant
            pattern@ == count_placeholder(),
            pattern@.len() == 7,
            length == template@.len(),
            i + 7 <= length,
            k <= 7,
            forall|j: int| 0 <= j < k ==> template@[i + j] == pattern@[j],
        decreases 7 - k,
    {
        if template.get_char(i + k) != pattern.get_char(k) {
            assert(template@.subrange(i as int, i + 7)[k as int] != count_placeholder()[k as int]);
            return false;
        }
        k = k + 1;
    }
    assert(template@.subrange(i as int, i + 7) =~= count_placeholder());
    true
}

/// The running-state line: the translated template with `{count}` replaced by
/// the number of selected windows.
pub fn running_state_text(template: &str, count: usize) -> (text: String)
    ensures
        text@ == spec_fill_count(template@, spec_decimal(count as nat)),
{
    proof {
        reveal_strlit("{count}");
    }
    let digits = decimal(count);
    let length = template.unicode_len();
    let ghost t = template@;
    let ghost d = digits@;
    let mut text = String::new();
    let mut start: usize = 0;
    let mut i: usize = 0;
    assert(t.skip(0) =~= t);
    while i < length
        invariant
            t == template@,
            d == digits@,
            count_placeholder().len() == 7,
            length == t.len(),
            start <= i <= length,
            text@ + t.subrange(start as int, i as int) + spec_fill_count(t.skip(i as int), d)
                == spec_fill_count(t, d),
        decreases length - i,
    {
        let ghost rest = t.skip(i as int);
        if placeholder_at(template, length, i) {
            assert(rest.take(7) =~= t.subrange(i as int, i + 7));
            assert(rest.skip(7) =~= t.skip(i + 7));
            assert(spec_fill_count(rest, d) == d + spec_fill_count(t.skip(i + 7), d));
            let piece = template.substring_char(start, i);
            let ghost before = text@;
            text.append(piece);
            text.append(digits.as_str());
            assert(text@ + t.subrange(i + 7, i + 7) + spec_fill_count(t.skip(i + 7), d)
                =~= before + t.subrange(start as int, i as int) + (d + spec_fill_count(t.skip(i + 7), d)));
            i = i + 7;
            start = i;
        } else {
            proof {
                if rest.len() >= 7 {
                    assert(rest.take(7) =~= t.subrange(i as int, i + 7));
                }
            }
            assert(rest.drop_first() =~= t.skip(i + 1));
            assert(rest[0] == t[i as int]);
            assert(spec_fill_count(rest, d) == seq![t[i as int]] + spec_fill_count(t.skip(i + 1), d));
            assert(t.subrange(start as int, i + 1) =~= t.subrange(start as int, i as int) + seq![t[i as int]]);
            assert(text@ + t.subrange(start as int, i + 1) + spec_fill_count(t.skip(i + 1), d)
                =~= text@ + t.subrange(start as int, i as int) + (seq![t[i as int]] + spec_fill_count(t.skip(i + 1), d)));
            i = i + 1;
        }
    }
    assert(t.skip(length as int).len() == 0);
    assert(spec_fill_count(t.skip(length as int), d) =~= Seq::<char>::empty());
    let tail = template.substring_char(start, length);
    let ghost before = text@;
    text.append(tail);
    assert(text@ =~= before + t.subrange(start as int, length as int) + spec_fill_count(t.skip(length as int), d));
    text
}

/// The label of a navigation button; the current page is marked with a dot.
pub open spec fn spec_nav_label(label: Seq<char>, current: bool) -> Seq<char> {
    if current { "\u{25cf}  "@ + label } else { label }
}

pub fn nav_label(label: &str, current: bool) -> (text: String)
    ensures
        text@ == spec_nav_label(label@, current),
{
    if current {
        let mut text = "\u{25cf}  ".to_owned();
        text.append(label);
        text
    } else {
        label.to_owned()
    }
}

pub open spec fn has_device(device: Seq<char>) -> spec_fn(MonitorInfo) -> bool {
    |m: MonitorInfo| m.device@ == device
}

pub open spec fn is_secondary() -> spec_fn(MonitorInfo) -> bool {
    |m: MonitorInfo| !m.primary
}

/// The display selected after the displays are listed again: the one used
/// before, else the first secondary display, else the first display.
pub open spec fn spec_select_monitor(monitors: Seq<MonitorInfo>, previous: Seq<char>) -> Option<int> {
    match first_index(monitors, has_device(previous)) {
        Some(i) => Some(i),
        None => match first_index(monitors, is_secondary()) {
            Some(i) => Some(i),
            None => if monitors.len() == 0 { None } else { Some(0) },
        },
    }
}

pub fn select_monitor(monitors: &[MonitorInfo], previous: &str) -> (index: Option<usize>)
    ensures
        index matches Some(i) ==> spec_select_monitor(monitors@, previous@) == Some(i as int)
            && i < monitors@.len(),
        index is None ==> spec_select_monitor(monitors@, previous@) is None,
{
    let wanted = previous.to_owned();
    let mut i: usize = 0;
    while i < monitors.len()
        invariant
            i <= monitors@.len(),
            wanted@ == previous@,
            forall|j: int| 0 <= j < i ==> !has_device(previous@)(#[trigger] monitors@[j]),
        decreases monitors@.len() - i,
    {
        if monitors[i].device == wanted {
            proof {
                lemma_first_index_prefix(monitors@, has_device(previous@), i as int);
            }
            return Some(i);
        }
        i = i + 1;
    }
    proof {
        lemma_first_index_prefix(monitors@, has_device(previous@), monitors@.len() as int);
    }
    let mut i: usize = 0;
    while i < monitors.len()
        invariant
            i <= monitors@.len(),
            first_index(monitors@, has_device(previous@)) is None,
            forall|j: int| 0 <= j < i ==> !is_secondary()(#[trigger] monitors@[j]),
        decreases monitors@.len() - i,
    {
        if !monitors[i].primary {
            proof {
                lemma_first_index_prefix(monitors@, is_secondary(), i as int);
            }
            return Some(i);
        }
        i = i + 1;
    }
    proof {
        lemma_first_index_prefix(monitors@, is_secondary(), monitors@.len() as int);
    }
    if monitors.len() == 0 {
        None
    } else {
        Some(0)
    }
}

/// Whether `handle` is among `handles`.
pub fn contains_handle(handles: &[isize], handle: isize) -> (found: bool)
    ensures
        found == handles@.contains(handle),
{
    let mut i: usize = 0;
    while i < handles.len()
        invariant
            i <= handles@.len(),
            forall|j: int| 0 <= j < i ==> handles@[j] != handle,
        decreases handles@.len() - i,
    {
        if handles[i] == handle {
            return true;
        }
        i = i + 1;
    }
    false
}

pub open spec fn not_in(excluded: Seq<isize>) -> spec_fn(isize) -> bool {
    |h: isize| !excluded.contains(h)
}

/// The handles of `handles` that are not in `excluded`, in their order.
pub fn handles_without(handles: &[isize], excluded: &[isize]) -> (kept: Vec<isize>)
    ensures
        kept@ == handles@.filter(not_in(excluded@)),
{
    let mut kept: Vec<isize> = Vec::new();
    let mut i: usize = 0;
    while i < handles.len()
        invariant
            i <= handles@.len(),
            kept@ == handles@.take(i as int).filter(not_in(excluded@)),
        decreases handles@.len() - i,
    {
        proof {
            reveal_with_fuel(Seq::<_>::filter, 1);
            assert(handles@.take(i + 1).drop_last() =~= handles@.take(i as int));
        }
        if !contains_handle(excluded, handles[i]) {
            kept.push(handles[i]);
        }
        i = i + 1;
    }
    assert(handles@.take(handles@.len() as int) =~= handles@);
    kept
}

/// Synchronising captures stops those whose window is no longer selected and
/// starts those of newly selected windows; afterwards a window is captured
/// exactly when it is selected.
pub proof fn lemma_capture_sync_covers_selection(running: Seq<isize>, selected: Seq<isize>, handle: isize)
    ensures
        ({
            let stopped = running.filter(not_in(selected));
            let started = selected.filter(not_in(running));
            selected.contains(handle) <==> ((running.contains(handle) && !stopped.contains(handle))
                || started.contains(handle))
        }),
{
    let stopped = running.filter(not_in(selected));
    let started = selected.filter(not_in(running));
    running.filter_lemma(not_in(selected));
    if stopped.contains(handle) {
        running.lemma_filter_contains_rev(not_in(selected), handle);
        let k = choose|k: int| 0 <= k < stopped.len() && stopped[k] == handle;
        assert(not_in(selected)(stopped[k]));
    }
    if started.contains(handle) {
        selected.lemma_filter_contains_rev(not_in(running), handle);
    }
    if running.contains(handle) && !selected.contains(handle) {
        let i = choose|i: int| 0 <= i < running.len() && running[i] == handle;
        running.lemma_filter_contains(not_in(selected), i);
    }
    if selected.contains(handle) && !running.contains(handle) {
        let i = choose|i: int| 0 <= i < selected.len() && selected[i] == handle;
        selected.lemma_filter_contains(not_in(running), i);
    }
}

/// The window handles at the selected positions of the source list;
/// positions past the end of the list are skipped.
pub open spec fn spec_handles_at(windows: Seq<WindowInfo>, positions: Seq<usize>) -> Seq<isize>
    decreases positions.len(),
{
    if positions.len() == 0 {
        Seq::empty()
    } else {
        let rest = spec_handles_at(windows, positions.drop_last());
        let p = positions.last() as int;
        if p < windows.len() { rest.push(windows[p].hwnd) } else { rest }
    }
}

pub fn handles_at(windows: &[WindowInfo], positions: &[usize]) -> (handles: Vec<isize>)
    ensures
        handles@ == spec_handles_at(windows@, positions@),
{
    let mut handles: Vec<isize> = Vec::new();
    let mut i: usize = 0;
    while i < positions.len()
        invariant
            i <= positions@.len(),
            handles@ == spec_handles_at(windows@, positions@.take(i as int)),
        decreases positions@.len() - i,
    {
        proof {
            assert(positions@.take(i + 1).drop_last() =~= positions@.take(i as int));
        }
        if positions[i] < windows.len() {
            handles.push(windows[positions[i]].hwnd);
        }
        i = i + 1;
    }
    assert(positions@.take(positions@.len() as int) =~= positions@);
    handles
}

/// Positions in the source list of the windows whose handle is selected, in
/// list order.
pub open spec fn spec_selected_positions(windows: Seq<WindowInfo>, selected: Seq<isize>) -> Seq<usize>
    decreases windows.len(),
{
    if windows.len() == 0 {
        Seq::empty()
    } else {
        let rest = spec_selected_positions(windows.drop_last(), selected);
        if selected.contains(windows.last().hwnd) {
            rest.push((windows.len() - 1) as usize)
        } else {
            rest
        }
    }
}

pub fn selected_positions(windows: &[WindowInfo], selected: &[isize]) -> (positions: Vec<usize>)
    ensures
        positions@ == spec_selected_positions(windows@, selected@),
{
    let mut positions: Vec<usize> = Vec::new();
    let mut i: usize = 0;
    while i < windows.len()
        invariant
            i <= windows@.len(),
            positions@ == spec_selected_positions(windows@.take(i as int), selected@),
        decreases windows@.len() - i,
    {
        proof {
            assert(windows@.take(i + 1).drop_last() =~= windows@.take(i as int));
        }
        if contains_handle(selected, windows[i].hwnd) {
            positions.push(i);
        }
        i = i + 1;
    }
    assert(windows@.take(windows@.len() as int) =~= windows@);
    positions
}

/// The layout mode after leaving the layout editor: a running layout that
/// was edited becomes the manual layout.
pub open spec fn spec_mode_after_editing(active: bool, has_layout: bool, mode: LayoutMode) -> LayoutMode {
    if active && has_layout { LayoutMode::Manual } else { mode }
}

pub fn mode_after_editing(active: bool, has_layout: bool, mode: LayoutMode) -> (next: LayoutMode)
    ensures
        next == spec_mode_after_editing(active, has_layout, mode),
{
    if active && has_layout { LayoutMode::Manual } else { mode }
}

pub open spec fn window_handles(windows: Seq<WindowInfo>) -> Seq<isize> {
    windows.map_values(|w: WindowInfo| w.hwnd)
}

pub open spec fn is_in(selected: Seq<isize>) -> spec_fn(isize) -> bool {
    |h: isize| selected.contains(h)
}

proof fn lemma_handles_at_extend(windows: Seq<WindowInfo>, extra: WindowInfo, positions: Seq<usize>)
    requires
        forall|k: int| 0 <= k < positions.len() ==> (#[trigger] positions[k] as int) < windows.len(),
    ensures
        spec_handles_at(windows.push(extra), positions) == spec_handles_at(windows, positions),
    decreases positions.len(),
{
    if positions.len() > 0 {
        lemma_handles_at_extend(windows, extra, positions.drop_last());
    }
}

proof fn lemma_selected_positions_bounded(windows: Seq<WindowInfo>, selected: Seq<isize>)
    requires
        windows.len() <= usize::MAX,
    ensures
        forall|k: int| 0 <= k < spec_selected_positions(windows, selected).len()
            ==> (#[trigger] spec_selected_positions(windows, selected)[k] as int) < windows.len(),
    decreases windows.len(),
{
    if windows.len() > 0 {
        let rest = spec_selected_positions(windows.drop_last(), selected);
        lemma_selected_positions_bounded(windows.drop_last(), selected);
        let all = spec_selected_positions(windows, selected);
        assert forall|k: int| 0 <= k < all.len() implies (#[trigger] all[k] as int) < windows.len() by {
            if k < rest.len() {
                assert(all[k] == rest[k]);
            }
        }
    }
}

/// Restoring a selection after the window list is refreshed selects exactly
/// the listed windows whose handles were selected, in list order.
pub proof fn lemma_selection_survives_refresh(windows: Seq<WindowInfo>, selected: Seq<isize>)
    requires
        windows.len() <= usize::MAX,
    ensures
        spec_handles_at(windows, spec_selected_positions(windows, selected))
            == window_handles(windows).filter(is_in(selected)),
    decreases windows.len(),
{
    reveal_with_fuel(Seq::<_>::filter, 1);
    if windows.len() > 0 {
        let prefix = windows.drop_last();
        lemma_selection_survives_refresh(prefix, selected);
        lemma_selected_positions_bounded(prefix, selected);
        let positions = spec_selected_positions(prefix, selected);
        assert(prefix.push(windows.last()) =~= windows);
        lemma_handles_at_extend(prefix, windows.last(), positions);
        assert(window_handles(windows).drop_last() =~= window_handles(prefix));
        assert(window_handles(windows).last() == windows.last().hwnd);
        if selected.contains(windows.last().hwnd) {
            let extended = positions.push((windows.len() - 1) as usize);
            assert(extended.drop_last() =~= positions);
        }
    }
}

/// Whether the interface language is a Chinese one (its code starts with `zh`).
pub open spec fn spec_is_chinese(language: Seq<char>) -> bool {
    language.len() >= 2 && language[0] == 'z' && language[1] == 'h'
}

pub fn is_chinese(language: &str) -> (chinese: bool)
    ensures
        chinese == spec_is_chinese(language@),
{
    language.unicode_len() >= 2 && language.get_char(0) == 'z' && language.get_char(1) == 'h'
}

/// Only a running mode can be paused.
pub open spec fn paused_only_when_active(session: Session) -> bool {
    session.paused ==> session.active
}

/// Whether the secondary-screen mode is on and whether it is paused.
#[derive(Clone, Copy, Debug, PartialEq, Eq, Structural)]
pub struct Session {
    pub active: bool,
    pub paused: bool,
}

impl Session {
    pub fn new() -> (session: Self)
        ensures
            paused_only_when_active(session),
            !session.active,
            !session.paused,
    {
        Session { active: false, paused: false }
    }

    /// Turns the mode on, unpaused.
    pub fn start(&mut self)
        ensures
            paused_only_when_active(*old(self)) ==> paused_only_when_active(*final(self)),
            final(self).active,
            !final(self).paused,
    {
        self.active = true;
        self.paused = false;
    }

    /// Turns the mode off.
    pub fn stop(&mut self)
        ensures
            paused_only_when_active(*old(self)) ==> paused_only_when_active(*final(self)),
            !final(self).active,
            !final(self).paused,
    {
        self.active = false;
        self.paused = false;
    }

    /// The session after a pause toggle: a running mode flips between
    /// paused and running, an idle one stays as it is.
    pub open spec fn spec_toggled(self) -> Session {
        if self.active { Session { active: true, paused: !self.paused } } else { self }
    }

    /// Pauses or resumes a running mode; an idle mode cannot be paused.
    /// Returns whether it changed.
    pub fn toggle_pause(&mut self) -> (changed: bool)
        ensures
            paused_only_when_active(*old(self)) ==> paused_only_when_active(*final(self)),
            changed == old(self).active,
            *final(self) == old(self).spec_toggled(),
    {
        if !self.active {
            return false;
        }
        self.paused = !self.paused;
        true
    }

    /// Whether the overlay is shown and must follow a change of display.
    pub fn shows_overlay(&self) -> (showing: bool)
        ensures
            showing == (self.active && !self.paused),
    {
        self.active && !self.paused
    }
}

/// Toggling the pause twice returns to where the session was.
pub proof fn lemma_pause_twice_restores(session: Session)
    ensures
        session.spec_toggled().spec_toggled() == session,
{
}

pub open spec fn has_handle(handle: isize) -> spec_fn(WindowInfo) -> bool {
    |w: WindowInfo| w.hwnd == handle
}

/// For each handle in order, the position of the first listed window with
/// that handle; handles of windows no longer listed are skipped.
pub open spec fn spec_window_positions(windows: Seq<WindowInfo>, handles: Seq<isize>) -> Seq<usize>
    decreases handles.len(),
{
    if handles.len() == 0 {
        Seq::empty()
    } else {
        let rest = spec_window_positions(windows, handles.drop_last());
        match first_index(windows, has_handle(handles.last())) {
            Some(i) => rest.push(i as usize),
            None => rest,
        }
    }
}

fn find_window(windows: &[WindowInfo], handle: isize) -> (found: Option<usize>)
    ensures
        found matches Some(i) ==> first_index(windows@, has_handle(handle)) == Some(i as int),
        found is None ==> first_index(windows@, has_handle(handle)) is None,
{
    let mut i: usize = 0;
    while i < windows.len()
        invariant
            i <= windows@.len(),
            forall|j: int| 0 <= j < i ==> !has_handle(handle)(#[trigger] windows@[j]),
        decreases windows@.len() - i,
    {
        if windows[i].hwnd == handle {
            proof {
                lemma_first_index_prefix(windows@, has_handle(handle), i as int);
            }
            return Some(i);
        }
        i = i + 1;
    }
    proof {
        lemma_first_index_prefix(windows@, has_handle(handle), windows@.len() as int);
    }
    None
}

pub fn window_positions(windows: &[WindowInfo], handles: &[isize]) -> (positions: Vec<usize>)
    ensures
        positions@ == spec_window_positions(windows@, handles@),
{
    let mut positions: Vec<usize> = Vec::new();
    let mut k: usize = 0;
    while k < handles.len()
        invariant
            k <= handles@.len(),
            positions@ == spec_window_positions(windows@, handles@.take(k as int)),
        decreases handles@.len() - k,
    {
        proof {
            assert(handles@.take(k + 1).drop_last() =~= handles@.take(k as int));
        }
        match find_window(windows, handles[k]) {
            Some(i) => positions.push(i),
            None => {},
        }
        k = k + 1;
    }
    assert(handles@.take(handles@.len() as int) =~= handles@);
    positions
}

} // verus!
