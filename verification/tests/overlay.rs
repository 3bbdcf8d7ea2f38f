use sidescreen::overlay::{hit_test, periodic_blank, EditAction, FadeStep, OverlayState};

#[test]
fn activation_fades_in_from_transparent() {
    let mut state = OverlayState::new();
    state.activate();
    assert!(state.active);
    let mut steps = Vec::new();
    while let Some(step) = state.fade() {
        steps.push(step.alpha);
    }
    assert_eq!(steps, vec![24, 48, 72, 96, 120, 144, 168, 192, 216, 240, 255]);
    assert_eq!(state.alpha, 255);
}

#[test]
fn pointer_entering_the_display_fades_the_overlay_out_and_hides_it() {
    let mut state = OverlayState::new();
    state.activate();
    while state.fade().is_some() {}
    assert!(state.watches_pointer());
    assert!(!state.track_pointer(true));
    assert!(state.pointer_suppressed);
    assert_eq!(state.target_alpha, 0);
    let mut last = None;
    while let Some(step) = state.fade() {
        last = Some(step);
    }
    assert_eq!(last, Some(FadeStep { alpha: 0, hide: true }));
    assert!(state.track_pointer(false));
    assert!(!state.pointer_suppressed);
    assert_eq!((state.alpha, state.target_alpha), (0, 255));
}

#[test]
fn editing_needs_an_active_overlay_with_a_layout() {
    let mut state = OverlayState::new();
    assert!(!state.toggle_editing(true).editing);
    state.activate();
    assert!(!state.toggle_editing(false).changed);
    let toggle = state.toggle_editing(true);
    assert!(toggle.editing && toggle.changed && !toggle.revealed);
    assert!(!state.watches_pointer());
    assert!(!state.toggle_editing(true).editing);
}

#[test]
fn editing_reveals_a_hidden_overlay() {
    let mut state = OverlayState::new();
    state.activate();
    state.track_pointer(true);
    let toggle = state.toggle_editing(true);
    assert!(toggle.revealed);
    assert!(!state.pointer_suppressed);
    assert_eq!(state.target_alpha, 255);
}

#[test]
fn deactivation_fades_out_and_hides() {
    let mut state = OverlayState::new();
    state.activate();
    while state.fade().is_some() {}
    state.deactivate();
    let mut steps = Vec::new();
    while let Some(step) = state.fade() {
        steps.push((step.alpha, step.hide));
    }
    assert_eq!(steps.last(), Some(&(0, true)));
    assert_eq!(steps.len(), 8);
}

#[test]
fn drags_follow_the_selected_cell() {
    let mut state = OverlayState::new();
    state.activate();
    state.toggle_editing(true);
    assert_eq!(state.drag_target(), None);
    state.selected = Some(42);
    state.edit_action = EditAction::Resize;
    assert_eq!(state.drag_target(), Some((42, EditAction::Resize)));
    state.release_drag();
    assert_eq!(state.drag_target(), None);
    assert_eq!(state.selected, Some(42));
}

#[test]
fn hit_test_distinguishes_move_and_resize() {
    let cell = [100, 100, 300, 200];
    assert_eq!(hit_test([150, 150], cell), Some(EditAction::Move));
    assert_eq!(hit_test([290, 190], cell), Some(EditAction::Resize));
    assert_eq!(hit_test([97, 97], cell), Some(EditAction::Move));
    assert_eq!(hit_test([303, 203], cell), Some(EditAction::Resize));
    assert_eq!(hit_test([96, 150], cell), None);
    assert_eq!(hit_test([150, 204], cell), None);
}

#[test]
fn black_rests_repeat_every_cycle() {
    assert!(!periodic_blank(30, 30, 0));
    assert!(!periodic_blank(30, 30, 1799));
    assert!(periodic_blank(30, 30, 1800));
    assert!(periodic_blank(30, 30, 1829));
    assert!(!periodic_blank(30, 30, 1830));
    assert!(periodic_blank(30, 30, 1830 + 1800));
}

#[test]
fn rests_are_off_when_either_setting_is_zero() {
    assert!(!periodic_blank(0, 30, 5000));
    assert!(!periodic_blank(30, 0, 1800));
}

#[test]
fn frames_are_hidden_during_rests_except_while_editing() {
    let mut state = OverlayState::new();
    assert!(state.draws_frames(false));
    assert!(!state.draws_frames(true));
    state.activate();
    state.toggle_editing(true);
    assert!(state.draws_frames(true));
}
