use makepad::desktop_button::{ButtonAction, DesktopButton, DesktopButtonType, HoverState};
use makepad::dock::{drag_response, drop_action, DragResponse, DropAction};
use makepad::live_id::LiveId;
use makepad::widget::{Cx, FingerDownEvent, FingerHoverEvent, FingerUpEvent, Hit, MouseCursor};

fn released(is_over: bool, has_hovers: bool) -> Hit {
    Hit::FingerUp(FingerUpEvent { digit_id: 0, is_over, has_hovers })
}

#[test]
fn default_kind_is_fullscreen() {
    assert_eq!(DesktopButtonType::default(), DesktopButtonType::Fullscreen);
}

#[test]
fn shader_values_number_the_kinds() {
    assert_eq!(DesktopButtonType::WindowsMin.shader_value(), 1);
    assert_eq!(DesktopButtonType::WindowsMax.shader_value(), 2);
    assert_eq!(DesktopButtonType::WindowsMaxToggled.shader_value(), 3);
    assert_eq!(DesktopButtonType::WindowsClose.shader_value(), 4);
    assert_eq!(DesktopButtonType::XRMode.shader_value(), 5);
    assert_eq!(DesktopButtonType::Fullscreen.shader_value(), 6);
}

#[test]
fn fixed_sizes() {
    assert_eq!(DesktopButtonType::WindowsMin.fixed_size(), (46, 29));
    assert_eq!(DesktopButtonType::WindowsClose.fixed_size(), (46, 29));
    assert_eq!(DesktopButtonType::XRMode.fixed_size(), (50, 36));
    assert_eq!(DesktopButtonType::Fullscreen.fixed_size(), (50, 36));
}

#[test]
fn press_then_release_over_clicks() {
    let mut b = DesktopButton::new(DesktopButtonType::WindowsClose);
    let mut cx = Cx::new();
    assert_eq!(b.hover, HoverState::Off);
    let r = b.handle_hit(&mut cx, Hit::FingerDown(FingerDownEvent { digit_id: 0, tap_count: 1 }));
    assert_eq!(r, Some(ButtonAction::Pressed));
    assert_eq!(b.hover, HoverState::Pressed);
    let r = b.handle_hit(&mut cx, released(true, true));
    assert_eq!(r, Some(ButtonAction::Clicked));
    assert_eq!(b.hover, HoverState::On);
    b.handle_hit(&mut cx, Hit::FingerDown(FingerDownEvent { digit_id: 0, tap_count: 1 }));
    let r = b.handle_hit(&mut cx, released(true, false));
    assert_eq!(r, Some(ButtonAction::Clicked));
    assert_eq!(b.hover, HoverState::Off);
    assert_eq!(b.button_type, DesktopButtonType::WindowsClose);
}

#[test]
fn release_elsewhere_is_released() {
    let mut b = DesktopButton::new(DesktopButtonType::WindowsMin);
    let mut cx = Cx::new();
    b.handle_hit(&mut cx, Hit::FingerDown(FingerDownEvent { digit_id: 0, tap_count: 1 }));
    assert_eq!(b.handle_hit(&mut cx, released(false, true)), Some(ButtonAction::Released));
    assert_eq!(b.hover, HoverState::Off);
}

#[test]
fn hover_shows_hand_cursor() {
    let mut b = DesktopButton::new(DesktopButtonType::WindowsMax);
    let mut cx = Cx::new();
    assert_eq!(b.handle_hit(&mut cx, Hit::FingerHoverIn(FingerHoverEvent { digit_id: 0 })), None);
    assert_eq!(cx.cursor, Some(MouseCursor::Hand));
    assert_eq!(b.hover, HoverState::On);
    assert_eq!(b.handle_hit(&mut cx, Hit::FingerHoverOut(FingerHoverEvent { digit_id: 0 })), None);
    assert_eq!(b.hover, HoverState::Off);
    assert_eq!(b.handle_hit(&mut cx, Hit::Nothing), None);
    assert_eq!(b.hover, HoverState::Off);
    assert!(cx.redraws.is_empty());
}

#[test]
fn drag_needs_exactly_one_item() {
    assert_eq!(drag_response(1, false), Some(DragResponse::Move));
    assert_eq!(drag_response(1, true), Some(DragResponse::Copy));
    assert_eq!(drag_response(0, true), None);
    assert_eq!(drag_response(2, false), None);
}

#[test]
fn drop_moves_clones_or_creates() {
    assert_eq!(drop_action(Some(LiveId(4)), false), DropAction::MoveTab { source: LiveId(4) });
    assert_eq!(drop_action(Some(LiveId(4)), true), DropAction::CloneTab { source: LiveId(4) });
    assert_eq!(drop_action(None, true), DropAction::CreateTab);
    assert_eq!(drop_action(None, false), DropAction::CreateTab);
}
