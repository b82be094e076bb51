use vstd::prelude::*;

verus! {

/// Result of rendering a single block.
pub enum BlockOutcome {
    /// The diagram rendered; holds the SVG text.
    Rendered(String),
    /// Mermaid failed to parse/render. Holds the error message.
    Failed(String),
}

/// The model of a [`BlockOutcome`].
pub enum OutcomeV {
    Rendered(Seq<char>),
    Failed(Seq<char>),
}

impl View for BlockOutcome {
    type V = OutcomeV;

    open spec fn view(&self) -> OutcomeV {
        match self {
            BlockOutcome::Rendered(s) => OutcomeV::Rendered(s@),
            BlockOutcome::Failed(e) => OutcomeV::Failed(e@),
        }
    }
}

/// The views of a sequence of outcomes.
pub open spec fn outcome_views(s: Seq<BlockOutcome>) -> Seq<OutcomeV> {
    Seq::new(s.len(), |i: int| s[i]@)
}

} // verus!
