//! What can go wrong, and at whom it stops.

use vstd::prelude::*;

verus! {

/// Why a request was turned down. A request that is turned down changes
/// nothing.
#[derive(Clone, Copy, Debug, PartialEq, Eq, Structural)]
pub enum ValidationError {
    /// An entity of that kind with that id is registered already.
    DuplicateId,
    /// The request refers to an entity that is not registered.
    UnknownEntity,
    /// The scene is no graph that can be rendered.
    InvalidGraph,
    /// A parameter is out of its range.
    InvalidParams,
    /// The pipeline is in no state to take the request.
    InvalidState,
    /// There is no entity of that kind with that id.
    NotFound,
}

impl ValidationError {
    /// What is said of each error.
    pub open spec fn spec_message(self) -> Seq<char> {
        match self {
            ValidationError::DuplicateId => "an entity with this id is already registered"@,
            ValidationError::UnknownEntity => "the request refers to an entity that is not registered"@,
            ValidationError::InvalidGraph => "the scene is not a valid graph"@,
            ValidationError::InvalidParams => "a parameter is out of range"@,
            ValidationError::InvalidState => "the pipeline cannot take this request in its current state"@,
            ValidationError::NotFound => "no such entity is registered"@,
        }
    }

    /// The text shown to the one who sent the request.
    pub fn message(&self) -> (text: String)
        ensures
            text@ == self.spec_message(),
    {
        match self {
            ValidationError::DuplicateId => "an entity with this id is already registered".to_owned(),
            ValidationError::UnknownEntity => "the request refers to an entity that is not registered".to_owned(),
            ValidationError::InvalidGraph => "the scene is not a valid graph".to_owned(),
            ValidationError::InvalidParams => "a parameter is out of range".to_owned(),
            ValidationError::InvalidState => "the pipeline cannot take this request in its current state".to_owned(),
            ValidationError::NotFound => "no such entity is registered".to_owned(),
        }
    }
}

/// Why no tick was made for an output.
#[derive(Clone, Copy, Debug, PartialEq, Eq, Structural)]
pub enum TickError {
    /// The pipeline does not run.
    NotRunning,
    /// No output with that id is registered.
    UnknownOutput,
    /// The device that the output renders on is lost. This ends the
    /// output, and only this output.
    DeviceLost,
}

/// Why a node could not produce its texture. Such a failure stays with the
/// node: a blank texture stands in for what it would have produced.
#[derive(Clone, Copy, Debug, PartialEq, Eq, Structural)]
pub enum RenderError {
    /// The node needs a capability that this build does not have.
    CapabilityUnavailable,
    /// The entity that the node shows is gone and has left nothing to show.
    SourceGone,
}

} // verus!
