//! Shared widget vocabulary: widget identities, areas, pointers into the live
//! document, input events, actions, and the redraw queue of the context.
use vstd::prelude::*;
use crate::live_id::LiveId;

verus! {

/// The identity of a widget instance.
#[derive(Clone, Copy, Debug, PartialEq, Eq, Structural)]
pub struct WidgetUid(pub u64);

impl WidgetUid {
    /// A fresh identity.  Nothing is promised of its value.
    pub fn fresh() -> WidgetUid {
        WidgetUid(LiveId::unique().0)
    }
}

/// A position in a live document: the file, the node index and the file's
/// generation.
#[derive(Clone, Copy, Debug, PartialEq, Eq, Structural)]
pub struct LivePtr {
    pub file_id: u16,
    pub index: u32,
    pub generation: u16,
}

/// The region a widget drew into, as the draw lists know it.
#[derive(Clone, Copy, Debug, PartialEq, Eq, Structural)]
pub enum Area {
    Empty,
    Instance { draw_list_id: usize, draw_item_id: usize, redraw_id: u64 },
    Rect { draw_list_id: usize, rect_id: usize, redraw_id: u64 },
}

/// A texture handle.
#[derive(Clone, Copy, Debug, PartialEq, Eq, Structural)]
pub struct Texture {
    pub texture_id: usize,
}

/// The pixel layouts a texture can have.
#[derive(Clone, Copy, Debug, PartialEq, Eq, Structural)]
pub enum TextureFormat {
    /// Four bytes per pixel, blue first, as decoded images are stored.
    ImageBGRA,
}

/// What a texture holds: its pixel layout and size.
#[derive(Clone, Copy, Debug, PartialEq, Eq, Structural)]
pub struct TextureDesc {
    pub format: TextureFormat,
    pub width: Option<usize>,
    pub height: Option<usize>,
}

/// The shape of the mouse cursor.
#[derive(Clone, Copy, Debug, PartialEq, Eq, Structural)]
pub enum MouseCursor {
    Hidden,
    Default,
    Crosshair,
    Hand,
    Arrow,
    Move,
    Text,
    Wait,
    Help,
    NotAllowed,
}

/// Whether a state change is animated or applied at once.
#[derive(Clone, Copy, Debug, PartialEq, Eq, Structural)]
pub enum Animate {
    Yes,
    No,
}

/// A finger (mouse button or touch) went down on a widget.
#[derive(Clone, Copy, Debug, PartialEq, Eq, Structural)]
pub struct FingerDownEvent {
    pub digit_id: u64,
    pub tap_count: u32,
}

/// A finger was lifted; `is_over` tells whether it was still over the widget,
/// `has_hovers` whether the device can hover (a mouse, not a touch screen).
#[derive(Clone, Copy, Debug, PartialEq, Eq, Structural)]
pub struct FingerUpEvent {
    pub digit_id: u64,
    pub is_over: bool,
    pub has_hovers: bool,
}

/// A finger moved while down on a widget.
#[derive(Clone, Copy, Debug, PartialEq, Eq, Structural)]
pub struct FingerMoveEvent {
    pub digit_id: u64,
    pub is_over: bool,
}

/// A finger entered or left a widget without being down.
#[derive(Clone, Copy, Debug, PartialEq, Eq, Structural)]
pub struct FingerHoverEvent {
    pub digit_id: u64,
}

/// A key went down or up.
#[derive(Clone, Copy, Debug, PartialEq, Eq, Structural)]
pub struct KeyEvent {
    pub key_code: u32,
    pub is_repeat: bool,
}

/// What an event turned out to mean for one widget's area.
#[derive(Clone, Copy, Debug, PartialEq, Eq, Structural)]
pub enum Hit {
    KeyFocus,
    KeyFocusLost,
    KeyDown(KeyEvent),
    KeyUp(KeyEvent),
    FingerDown(FingerDownEvent),
    FingerMove(FingerMoveEvent),
    FingerHoverIn(FingerHoverEvent),
    FingerHoverOver(FingerHoverEvent),
    FingerHoverOut(FingerHoverEvent),
    FingerUp(FingerUpEvent),
    Nothing,
}

/// A request the context collects to redraw part of the window.
#[derive(Clone, Copy, Debug, PartialEq, Eq, Structural)]
pub enum RedrawRequest {
    Area(Area),
    Widget(WidgetUid),
}

/// The part of the application context that widget logic writes to: redraw
/// requests, the key focus and the cursor.
pub struct Cx {
    pub redraws: Vec<RedrawRequest>,
    pub key_focus: Area,
    pub cursor: Option<MouseCursor>,
}

impl Cx {
    /// A context with no requests, no key focus and no cursor set.
    pub fn new() -> (r: Cx)
        ensures
            r.redraws@ == Seq::<RedrawRequest>::empty(),
            r.key_focus == Area::Empty,
            r.cursor is None,
    {
        Cx { redraws: Vec::new(), key_focus: Area::Empty, cursor: None }
    }

    /// Asks for `area` to be redrawn.
    pub fn redraw_area(&mut self, area: Area)
        ensures
            final(self).redraws@ == old(self).redraws@.push(RedrawRequest::Area(area)),
            final(self).key_focus == old(self).key_focus,
            final(self).cursor == old(self).cursor,
    {
        self.redraws.push(RedrawRequest::Area(area));
    }

    /// Asks for the widget `uid` to be redrawn.
    pub fn redraw_widget(&mut self, uid: WidgetUid)
        ensures
            final(self).redraws@ == old(self).redraws@.push(RedrawRequest::Widget(uid)),
            final(self).key_focus == old(self).key_focus,
            final(self).cursor == old(self).cursor,
    {
        self.redraws.push(RedrawRequest::Widget(uid));
    }
}

/// A handle to a widget instance made from a template in the live document.
#[derive(Clone, Copy, Debug, PartialEq, Eq, Structural)]
pub struct WidgetRef {
    pub uid: WidgetUid,
    pub template: Option<LivePtr>,
}

impl WidgetRef {
    /// A new widget instance of the template `ptr`, with a fresh identity.
    pub fn new_from_ptr(ptr: Option<LivePtr>) -> (r: WidgetRef)
        ensures
            r.template == ptr,
    {
        WidgetRef { uid: WidgetUid::fresh(), template: ptr }
    }
}

} // verus!
