//! The buttons of a desktop window's caption bar: their kinds, sizes, and
//! how they answer pointer input.
use vstd::prelude::*;
use crate::widget::{Cx, Hit, MouseCursor};

verus! {

/// The kinds of caption-bar button.
#[derive(Clone, Copy, Debug, PartialEq, Eq, Structural)]
pub enum DesktopButtonType {
    WindowsMin,
    WindowsMax,
    WindowsMaxToggled,
    WindowsClose,
    XRMode,
    Fullscreen,
}

impl Default for DesktopButtonType {
    /// The kind a button has when the live document names none.
    fn default() -> (r: DesktopButtonType)
        ensures
            r == DesktopButtonType::Fullscreen,
    {
        DesktopButtonType::Fullscreen
    }
}

impl DesktopButtonType {
    /// The number the shader knows the kind by.
    pub fn shader_value(&self) -> (r: u32)
        ensures
            r == match *self {
                DesktopButtonType::WindowsMin => 1u32,
                DesktopButtonType::WindowsMax => 2u32,
                DesktopButtonType::WindowsMaxToggled => 3u32,
                DesktopButtonType::WindowsClose => 4u32,
                DesktopButtonType::XRMode => 5u32,
                DesktopButtonType::Fullscreen => 6u32,
            },
    {
        match self {
            DesktopButtonType::WindowsMin => 1,
            DesktopButtonType::WindowsMax => 2,
            DesktopButtonType::WindowsMaxToggled => 3,
            DesktopButtonType::WindowsClose => 4,
            DesktopButtonType::XRMode => 5,
            DesktopButtonType::Fullscreen => 6,
        }
    }

    /// The button's fixed width and height in logical pixels: 46 by 29 for
    /// the window buttons, 50 by 36 for the others.
    pub fn fixed_size(&self) -> (r: (u32, u32))
        ensures
            r == match *self {
                DesktopButtonType::WindowsMin
                | DesktopButtonType::WindowsMax
                | DesktopButtonType::WindowsMaxToggled
                | DesktopButtonType::WindowsClose => (46u32, 29u32),
                DesktopButtonType::XRMode | DesktopButtonType::Fullscreen => (50u32, 36u32),
            },
    {
        match self {
            DesktopButtonType::WindowsMin
            | DesktopButtonType::WindowsMax
            | DesktopButtonType::WindowsMaxToggled
            | DesktopButtonType::WindowsClose => (46, 29),
            DesktopButtonType::XRMode => (50, 36),
            DesktopButtonType::Fullscreen => (50, 36),
        }
    }
}

/// What a button reports.
#[derive(Clone, Copy, Debug, PartialEq, Eq, Structural)]
pub enum ButtonAction {
    Clicked,
    Pressed,
    Released,
}

/// The state of a button's hover animation track.
#[derive(Clone, Copy, Debug, PartialEq, Eq, Structural)]
pub enum HoverState {
    Off,
    On,
    Pressed,
}

/// A caption-bar button: its kind and where its hover track is heading.
#[derive(Clone, Copy, Debug, PartialEq, Eq, Structural)]
pub struct DesktopButton {
    pub button_type: DesktopButtonType,
    pub hover: HoverState,
}

/// The action a hit makes a button report, and the hover state it heads to;
/// `None` for the parts a hit does not touch.
pub open spec fn button_response(hit: Hit) -> (Option<ButtonAction>, Option<HoverState>) {
    match hit {
        Hit::FingerDown(_) => (Some(ButtonAction::Pressed), Some(HoverState::Pressed)),
        Hit::FingerHoverIn(_) => (None, Some(HoverState::On)),
        Hit::FingerHoverOut(_) => (None, Some(HoverState::Off)),
        Hit::FingerUp(fe) => if fe.is_over {
            (Some(ButtonAction::Clicked), Some(if fe.has_hovers { HoverState::On } else { HoverState::Off }))
        } else {
            (Some(ButtonAction::Released), Some(HoverState::Off))
        },
        _ => (None, None),
    }
}

impl DesktopButton {
    /// A button of the given kind, not hovered.
    pub fn new(button_type: DesktopButtonType) -> (r: DesktopButton)
        ensures
            r.button_type == button_type,
            r.hover == HoverState::Off,
    {
        DesktopButton { button_type, hover: HoverState::Off }
    }

    /// Answers a hit on the button: a press reports `Pressed`; a release
    /// over the button reports `Clicked`, elsewhere `Released`; hovering in
    /// shows the hand cursor.  The hover track follows.
    pub fn handle_hit(&mut self, cx: &mut Cx, hit: Hit) -> (r: Option<ButtonAction>)
        ensures
            r == button_response(hit).0,
            final(self).button_type == old(self).button_type,
            final(self).hover == (match button_response(hit).1 {
                Some(h) => h,
                None => old(self).hover,
            }),
            final(cx).redraws == old(cx).redraws,
            final(cx).key_focus == old(cx).key_focus,
            final(cx).cursor == (if hit is FingerHoverIn { Some(MouseCursor::Hand) } else { old(cx).cursor }),
            hit matches Hit::FingerUp(fe) ==> r == Some(if fe.is_over { ButtonAction::Clicked } else { ButtonAction::Released }),
            r == Some(ButtonAction::Clicked) ==> (hit matches Hit::FingerUp(fe) && fe.is_over),
    {
        match hit {
            Hit::FingerDown(_) => {
                self.hover = HoverState::Pressed;
                Some(ButtonAction::Pressed)
            },
            Hit::FingerHoverIn(_) => {
                cx.cursor = Some(MouseCursor::Hand);
                self.hover = HoverState::On;
                None
            },
            Hit::FingerHoverOut(_) => {
                self.hover = HoverState::Off;
                None
            },
            Hit::FingerUp(fe) => {
                if fe.is_over {
                    if fe.has_hovers {
                        self.hover = HoverState::On;
                    } else {
                        self.hover = HoverState::Off;
                    }
                    Some(ButtonAction::Clicked)
                } else {
                    self.hover = HoverState::Off;
                    Some(ButtonAction::Released)
                }
            },
            _ => None,
        }
    }
}

/// A release clicks the button only over it: a release off the button is
/// `Released` whatever the device (hovering or not), a release over it is
/// `Clicked`, and nothing else clicks.  A press is `Pressed`.
pub proof fn law_click_only_over_button(hit: Hit)
    ensures
        hit matches Hit::FingerUp(fe) ==> button_response(hit).0 == Some(
            if fe.is_over { ButtonAction::Clicked } else { ButtonAction::Released },
        ),
        button_response(hit).0 == Some(ButtonAction::Clicked) ==> (hit matches Hit::FingerUp(fe) && fe.is_over),
        hit is FingerDown ==> button_response(hit).0 == Some(ButtonAction::Pressed),
{
}

} // verus!
