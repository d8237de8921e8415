use vstd::prelude::*;
use crate::events::{AltEvent, AltEventView, FocusEvent};

verus! {

/// The event that a window notice from i3 gives rise to: a focus event for
/// a change of focus to a window that has a name, nothing otherwise.
pub fn focus_event(is_focus_change: bool, window_name: Option<String>) -> (res: Option<AltEvent>)
    ensures
        is_focus_change && window_name is Some <==> res is Some,
        res matches Some(ev) ==> ev@ == AltEventView::Focus(window_name->0@),
{
    if is_focus_change {
        match window_name {
            Some(window) => Some(AltEvent::AltFocusEvent(FocusEvent { window })),
            None => None,
        }
    } else {
        None
    }
}

} // verus!
