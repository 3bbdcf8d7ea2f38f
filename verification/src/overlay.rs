//! Decisions of the overlay that covers the target display: fading in and out,
//! hiding while the pointer is on that display, layout editing, and the
//! periodic black rests.
//!
//! The overlay window itself performs what these decisions ask for (changing
//! its opacity, showing or hiding itself, repainting).
use vstd::prelude::*;

verus! {

/// What a pointer drag on the overlay does to the selected cell.
#[derive(Clone, Copy, Debug, PartialEq, Eq, Structural)]
pub enum EditAction {
    Idle,
    Move,
    Resize,
}

/// Opacity steps per tick: fading in is gentler than fading out.
pub open spec fn fade_in_step() -> int {
    24
}

pub open spec fn fade_out_step() -> int {
    32
}

/// The opacity after one tick of fading from `alpha` toward `target`.
pub open spec fn spec_faded(alpha: u8, target: u8) -> u8 {
    if target > alpha {
        if alpha + fade_in_step() >= target { target } else { (alpha + fade_in_step()) as u8 }
    } else if target < alpha {
        if alpha - fade_out_step() <= target { target } else { (alpha - fade_out_step()) as u8 }
    } else {
        alpha
    }
}

/// The opacity after `n` ticks.
pub open spec fn faded_after(alpha: u8, target: u8, n: nat) -> u8
    decreases n,
{
    if n == 0 { alpha } else { faded_after(spec_faded(alpha, target), target, (n - 1) as nat) }
}

/// What one fading tick asks of the overlay window.
#[derive(Clone, Copy, Debug, PartialEq, Eq, Structural)]
pub struct FadeStep {
    /// The opacity to apply.
    pub alpha: u8,
    /// Whether the window must be hidden: fully transparent while the pointer
    /// is on the display or the overlay is inactive.
    pub hide: bool,
}

/// What toggling the layout editor asks of the overlay window.
#[derive(Clone, Copy, Debug, PartialEq, Eq, Structural)]
pub struct EditToggle {
    /// Whether the editor is on afterwards.
    pub editing: bool,
    /// Whether anything changed (and the overlay must repaint).
    pub changed: bool,
    /// Whether the overlay was revealed again (shown, starting transparent).
    pub revealed: bool,
}

/// The layout editor is only ever on while the overlay covers the display.
pub open spec fn editing_only_when_active(state: OverlayState) -> bool {
    state.editing ==> state.active
}

/// The overlay's state apart from its window, geometry and clock.
#[derive(Clone, Copy, Debug)]
pub struct OverlayState {
    pub active: bool,
    pub pointer_suppressed: bool,
    pub editing: bool,
    pub selected: Option<isize>,
    pub edit_action: EditAction,
    pub alpha: u8,
    pub target_alpha: u8,
}

impl OverlayState {
    /// An inactive, fully transparent overlay.
    pub fn new() -> (state: Self)
        ensures
            editing_only_when_active(state),
            !state.active,
            !state.pointer_suppressed,
            !state.editing,
            state.selected is None,
            state.edit_action == EditAction::Idle,
            state.alpha == 0,
            state.target_alpha == 0,
    {
        OverlayState {
            active: false,
            pointer_suppressed: false,
            editing: false,
            selected: None,
            edit_action: EditAction::Idle,
            alpha: 0,
            target_alpha: 0,
        }
    }

    /// Starts covering the display: fade in from transparent, not editing.
    pub fn activate(&mut self)
        ensures
            editing_only_when_active(*old(self)) ==> editing_only_when_active(*final(self)),
            final(self).active,
            !final(self).pointer_suppressed,
            !final(self).editing,
            final(self).alpha == 0,
            final(self).target_alpha == 255,
            final(self).selected == old(self).selected,
            final(self).edit_action == old(self).edit_action,
    {
        self.active = true;
        self.pointer_suppressed = false;
        self.editing = false;
        self.alpha = 0;
        self.target_alpha = 255;
    }

    /// Stops covering the display: fade out, leaving the editor.
    pub fn deactivate(&mut self)
        ensures
            editing_only_when_active(*old(self)) ==> editing_only_when_active(*final(self)),
            !final(self).active,
            !final(self).editing,
            !final(self).pointer_suppressed,
            final(self).target_alpha == 0,
            final(self).alpha == old(self).alpha,
            final(self).selected == old(self).selected,
            final(self).edit_action == old(self).edit_action,
    {
        self.active = false;
        self.editing = false;
        self.pointer_suppressed = false;
        self.target_alpha = 0;
    }

    /// Shows the overlay again after the pointer left the display: it fades
    /// in from transparent.
    fn show_again(&mut self)
        ensures
            !final(self).pointer_suppressed,
            final(self).alpha == 0,
            final(self).target_alpha == 255,
            final(self).active == old(self).active,
            final(self).editing == old(self).editing,
            final(self).selected == old(self).selected,
            final(self).edit_action == old(self).edit_action,
    {
        self.pointer_suppressed = false;
        self.alpha = 0;
        self.target_alpha = 255;
    }

    /// Turns the layout editor on or off. Only an active overlay with at least
    /// one cell can be edited; entering the editor reveals a hidden overlay.
    pub fn toggle_editing(&mut self, has_layout: bool) -> (toggle: EditToggle)
        ensures
            editing_only_when_active(*old(self)) ==> editing_only_when_active(*final(self)),
            !(old(self).active && has_layout) ==> {
                &&& toggle == EditToggle { editing: false, changed: false, revealed: false }
                &&& *final(self) == *old(self)
            },
            old(self).active && has_layout ==> {
                &&& toggle.changed
                &&& toggle.editing == !old(self).editing
                &&& final(self).editing == toggle.editing
                &&& final(self).selected is None
                &&& final(self).edit_action == EditAction::Idle
                &&& final(self).active
                &&& toggle.revealed == (toggle.editing && old(self).pointer_suppressed)
                &&& toggle.revealed ==> !final(self).pointer_suppressed && final(self).alpha == 0
                    && final(self).target_alpha == 255
                &&& !toggle.revealed ==> final(self).pointer_suppressed == old(self).pointer_suppressed
                    && final(self).alpha == old(self).alpha && final(self).target_alpha == old(self).target_alpha
            },
    {
        if !self.active || !has_layout {
            return EditToggle { editing: false, changed: false, revealed: false };
        }
        self.editing = !self.editing;
        self.selected = None;
        self.edit_action = EditAction::Idle;
        let revealed = self.editing && self.pointer_suppressed;
        if revealed {
            self.show_again();
        }
        EditToggle { editing: self.editing, changed: true, revealed }
    }

    /// One tick of fading toward the target opacity; `None` when the opacity
    /// has already reached it.
    pub fn fade(&mut self) -> (step: Option<FadeStep>)
        ensures
            editing_only_when_active(*old(self)) ==> editing_only_when_active(*final(self)),
            old(self).alpha == old(self).target_alpha ==> step is None && *final(self) == *old(self),
            old(self).alpha != old(self).target_alpha ==> {
                &&& step is Some
                &&& final(self).alpha == spec_faded(old(self).alpha, old(self).target_alpha)
                &&& step->0.alpha == final(self).alpha
                &&& step->0.hide == (final(self).alpha == 0 && (old(self).pointer_suppressed
                    || !old(self).active))
                &&& final(self).target_alpha == old(self).target_alpha
                &&& final(self).active == old(self).active
                &&& final(self).editing == old(self).editing
                &&& final(self).pointer_suppressed == old(self).pointer_suppressed
                &&& final(self).selected == old(self).selected
                &&& final(self).edit_action == old(self).edit_action
            },
    {
        if self.alpha == self.target_alpha {
            return None;
        }
        self.alpha = if self.target_alpha > self.alpha {
            let raised = self.alpha.saturating_add(24);
            if raised < self.target_alpha { raised } else { self.target_alpha }
        } else {
            let lowered = self.alpha.saturating_sub(32);
            if lowered > self.target_alpha { lowered } else { self.target_alpha }
        };
        Some(FadeStep { alpha: self.alpha, hide: self.alpha == 0 && (self.pointer_suppressed || !self.active) })
    }

    /// Whether the pointer position matters: only for an active overlay
    /// outside the layout editor.
    pub fn watches_pointer(&self) -> (watching: bool)
        ensures
            watching == (self.active && !self.editing),
    {
        self.active && !self.editing
    }

    /// Follows the pointer: entering the display fades the overlay out so the
    /// desktop shows at once; leaving it reveals the overlay again. Returns
    /// whether the overlay was revealed.
    pub fn track_pointer(&mut self, inside: bool) -> (revealed: bool)
        ensures
            editing_only_when_active(*old(self)) ==> editing_only_when_active(*final(self)),
            inside && !old(self).pointer_suppressed ==> {
                &&& final(self).pointer_suppressed
                &&& final(self).target_alpha == 0
                &&& final(self).alpha == old(self).alpha
                &&& !revealed
            },
            !inside && old(self).pointer_suppressed ==> {
                &&& revealed
                &&& !final(self).pointer_suppressed
                &&& final(self).alpha == 0
                &&& final(self).target_alpha == 255
            },
            inside == old(self).pointer_suppressed ==> !revealed && *final(self) == *old(self),
            final(self).active == old(self).active,
            final(self).editing == old(self).editing,
            final(self).selected == old(self).selected,
            final(self).edit_action == old(self).edit_action,
    {
        if inside && !self.pointer_suppressed {
            self.pointer_suppressed = true;
            self.target_alpha = 0;
            false
        } else if !inside && self.pointer_suppressed {
            self.show_again();
            true
        } else {
            false
        }
    }

    /// Ends a drag: the selection stays, the drag action stops.
    pub fn release_drag(&mut self)
        ensures
            editing_only_when_active(*old(self)) ==> editing_only_when_active(*final(self)),
            final(self).edit_action == EditAction::Idle,
            *final(self) == (OverlayState { edit_action: EditAction::Idle, ..*old(self) }),
    {
        self.edit_action = EditAction::Idle;
    }

    /// The window being dragged and how, while the editor is on and a drag is
    /// under way.
    pub fn drag_target(&self) -> (target: Option<(isize, EditAction)>)
        ensures
            target == (if self.editing && self.edit_action != EditAction::Idle && self.selected is Some {
                Some((self.selected->0, self.edit_action))
            } else {
                None
            }),
    {
        if !self.editing {
            return None;
        }
        match self.edit_action {
            EditAction::Idle => None,
            _ => match self.selected {
                Some(hwnd) => Some((hwnd, self.edit_action)),
                None => None,
            },
        }
    }

    /// Whether the captured frames are drawn: not during a black rest, except
    /// in the layout editor.
    pub fn draws_frames(&self, resting: bool) -> (draws: bool)
        ensures
            draws == (!resting || self.editing),
    {
        !resting || self.editing
    }
}

/// The pointer grabs a cell within 3 pixels of its border; within 24 pixels
/// of its bottom-right corner it resizes the cell, elsewhere it moves it.
pub open spec fn spec_hit_test(point: [i32; 2], cell: [i32; 4]) -> Option<EditAction> {
    if cell[0] - 3 <= point[0] <= cell[2] + 3 && cell[1] - 3 <= point[1] <= cell[3] + 3 {
        if point[0] >= cell[2] - 24 && point[1] >= cell[3] - 24 {
            Some(EditAction::Resize)
        } else {
            Some(EditAction::Move)
        }
    } else {
        None
    }
}

pub fn hit_test(point: [i32; 2], cell: [i32; 4]) -> (action: Option<EditAction>)
    ensures
        action == spec_hit_test(point, cell),
{
    let x = point[0] as i64;
    let y = point[1] as i64;
    if x >= cell[0] as i64 - 3 && x <= cell[2] as i64 + 3 && y >= cell[1] as i64 - 3 && y <= cell[3] as i64 + 3 {
        if x >= cell[2] as i64 - 24 && y >= cell[3] as i64 - 24 {
            Some(EditAction::Resize)
        } else {
            Some(EditAction::Move)
        }
    } else {
        None
    }
}

/// What a press does to a cell `[left, top, right, bottom]`: within 3 pixels
/// of the cell it grabs it; the grab resizes only in the bottom-right corner,
/// 24 pixels square, and moves the cell everywhere else; farther away the
/// press misses the cell.
pub proof fn lemma_grab_regions(point: [i32; 2], cell: [i32; 4])
    ensures
        spec_hit_test(point, cell) == Some(EditAction::Resize) <==> (
            cell[0] - 3 <= point[0] <= cell[2] + 3 && cell[1] - 3 <= point[1] <= cell[3] + 3
            && point[0] >= cell[2] - 24 && point[1] >= cell[3] - 24),
        spec_hit_test(point, cell) == Some(EditAction::Move) <==> (
            cell[0] - 3 <= point[0] <= cell[2] + 3 && cell[1] - 3 <= point[1] <= cell[3] + 3
            && (point[0] < cell[2] - 24 || point[1] < cell[3] - 24)),
        spec_hit_test(point, cell) is None <==> !(
            cell[0] - 3 <= point[0] <= cell[2] + 3 && cell[1] - 3 <= point[1] <= cell[3] + 3),
        spec_hit_test(point, cell) != Some(EditAction::Idle),
{
}

/// Whether the display rests black at `elapsed` seconds into a session: each
/// cycle shows content for `every_minutes` minutes, then rests for
/// `rest_seconds` seconds; either value zero turns rests off. Elapsed seconds
/// count modulo 2^32.
pub open spec fn spec_periodic_blank(every_minutes: u32, rest_seconds: u32, elapsed: u64) -> bool {
    let every = every_minutes * 60;
    if every == 0 || rest_seconds == 0 {
        false
    } else {
        ((elapsed as u32) as int) % (every + rest_seconds) >= every
    }
}

pub fn periodic_blank(every_minutes: u32, rest_seconds: u32, elapsed: u64) -> (resting: bool)
    requires
        every_minutes * 60 + rest_seconds <= u32::MAX,
    ensures
        resting == spec_periodic_blank(every_minutes, rest_seconds, elapsed),
{
    let every = every_minutes * 60;
    if every == 0 || rest_seconds == 0 {
        return false;
    }
    let seconds = elapsed as u32;
    seconds % (every + rest_seconds) >= every
}

/// Rests repeat every cycle: `offset` seconds into any cycle of
/// `every_minutes * 60 + rest_seconds` seconds the display rests exactly
/// when the offset is past the showing part.
pub proof fn lemma_rest_repeats_every_cycle(every_minutes: u32, rest_seconds: u32, cycle: nat, offset: nat)
    requires
        every_minutes > 0,
        rest_seconds > 0,
        every_minutes * 60 + rest_seconds <= u32::MAX,
        offset < every_minutes * 60 + rest_seconds,
        cycle * (every_minutes * 60 + rest_seconds) + offset <= u32::MAX,
    ensures
        spec_periodic_blank(
            every_minutes,
            rest_seconds,
            (cycle * (every_minutes * 60 + rest_seconds) + offset) as u64,
        ) == (offset >= every_minutes * 60),
{
    let period = every_minutes * 60 + rest_seconds;
    let elapsed = cycle * period + offset;
    assert(((elapsed as u64) as u32) as int == elapsed);
    vstd::arithmetic::div_mod::lemma_fundamental_div_mod_converse(elapsed, period, cycle as int, offset as int);
}

proof fn lemma_fade_step(alpha: u8, target: u8)
    ensures
        alpha <= target ==> alpha <= spec_faded(alpha, target) <= target
            && (spec_faded(alpha, target) == target || spec_faded(alpha, target) == alpha + fade_in_step()),
        alpha >= target ==> target <= spec_faded(alpha, target) <= alpha
            && (spec_faded(alpha, target) == target || spec_faded(alpha, target) == alpha - fade_out_step()),
{
}

proof fn lemma_fade_progress(alpha: u8, target: u8, n: nat)
    ensures
        alpha <= target ==> alpha <= faded_after(alpha, target, n) <= target
            && (faded_after(alpha, target, n) == target || faded_after(alpha, target, n) >= alpha + n * fade_in_step()),
        alpha >= target ==> target <= faded_after(alpha, target, n) <= alpha
            && (faded_after(alpha, target, n) == target || faded_after(alpha, target, n) <= alpha - n * fade_out_step()),
    decreases n,
{
    if n > 0 {
        lemma_fade_step(alpha, target);
        let next = spec_faded(alpha, target);
        lemma_fade_progress(next, target, (n - 1) as nat);
        if next == target {
            lemma_fade_stays(target, (n - 1) as nat);
        }
        assert((n - 1) * 24 + 24 == n * 24) by (nonlinear_arith);
        assert((n - 1) * 32 + 32 == n * 32) by (nonlinear_arith);
    }
}

proof fn lemma_fade_stays(target: u8, n: nat)
    ensures
        faded_after(target, target, n) == target,
    decreases n,
{
    if n > 0 {
        lemma_fade_stays(target, (n - 1) as nat);
    }
}

/// Fading never overshoots and always arrives: from any opacity the target
/// is reached within 11 ticks (fading in by 24, out by 32 per tick) and kept.
pub proof fn lemma_fade_reaches_target(alpha: u8, target: u8, n: nat)
    requires
        n >= 11,
    ensures
        faded_after(alpha, target, n) == target,
{
    lemma_fade_progress(alpha, target, n);
    assert(n * 24 >= 264) by (nonlinear_arith) requires n >= 11;
    assert(n * 32 >= 352) by (nonlinear_arith) requires n >= 11;
}

} // verus!
