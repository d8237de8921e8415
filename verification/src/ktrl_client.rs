use vstd::prelude::*;

verus! {

/// A request to ktrl, in ktrl's own notation (e.g. `TurnOnLayerAlias("ivy")`).
pub type KtrlIpcReq = String;

} // verus!
