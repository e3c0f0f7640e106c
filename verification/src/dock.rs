//! Decisions of a dock of tabs about dragging and dropping.
use vstd::prelude::*;
use crate::live_id::LiveId;

verus! {

/// How a dock answers an item dragged over it.
#[derive(Clone, Copy, Debug, PartialEq, Eq, Structural)]
pub enum DragResponse {
    Move,
    Copy,
}

/// What a dock does with a dropped item.
#[derive(Clone, Copy, Debug, PartialEq, Eq, Structural)]
pub enum DropAction {
    /// The tab `source` of this dock is cloned into a new tab, whose id is
    /// drawn fresh by the caller.
    CloneTab { source: LiveId },
    /// A tab of this dock is moved.
    MoveTab { source: LiveId },
    /// An item from outside becomes a new tab.
    CreateTab,
}

/// The answer to a drag: accepted only when exactly one item is dragged; as a
/// copy while the logo key is held, else as a move.
pub fn drag_response(item_count: usize, logo: bool) -> (r: Option<DragResponse>)
    ensures
        r == (if item_count == 1 {
            Some(if logo { DragResponse::Copy } else { DragResponse::Move })
        } else {
            None::<DragResponse>
        }),
{
    if item_count == 1 {
        if logo {
            Some(DragResponse::Copy)
        } else {
            Some(DragResponse::Move)
        }
    } else {
        None
    }
}

/// What a drop does: a tab from inside the dock is cloned while the logo key
/// is held and moved otherwise; anything else becomes a new tab.
pub fn drop_action(internal_id: Option<LiveId>, logo: bool) -> (r: DropAction)
    ensures
        r == (match internal_id {
            Some(id) => if logo { DropAction::CloneTab { source: id } } else { DropAction::MoveTab { source: id } },
            None => DropAction::CreateTab,
        }),
{
    match internal_id {
        Some(id) => if logo {
            DropAction::CloneTab { source: id }
        } else {
            DropAction::MoveTab { source: id }
        },
        None => DropAction::CreateTab,
    }
}

} // verus!
