use vstd::prelude::*;

verus! {

/// One condition of an aggregator.
#[derive(Clone, Debug, PartialEq, Eq, Hash)]
pub enum Requirement {
    /// The focused window's lower-cased title contains this text.
    RqFocus(String),
    /// The external event of this name is on.
    RqExtEvent(String),
}

/// A requirement, with its text as a character sequence.
pub enum RequirementView {
    Focus(Seq<char>),
    Ext(Seq<char>),
}

impl View for Requirement {
    type V = RequirementView;

    open spec fn view(&self) -> RequirementView {
        match self {
            Requirement::RqFocus(p) => RequirementView::Focus(p@),
            Requirement::RqExtEvent(n) => RequirementView::Ext(n@),
        }
    }
}

/// The set of requirements that a list names (repetitions count once).
pub open spec fn requirement_set(reqs: Seq<Requirement>) -> Set<RequirementView> {
    Set::new(|r: RequirementView| exists|k: int| 0 <= k < reqs.len() && #[trigger] reqs[k]@ == r)
}

/// The configuration of one aggregator: its requirements, and the requests
/// sent to ktrl when all of them become met (`on_ipc`) or one of them stops
/// being met (`off_ipc`).
#[derive(Clone, Debug)]
pub struct Agg {
    pub requirements: Vec<Requirement>,
    pub on_ipc: String,
    pub off_ipc: String,
}

/// The whole configuration: a list of aggregators.
#[derive(Clone, Debug)]
pub struct AltCfg {
    pub aggs: Vec<Agg>,
}

} // verus!
