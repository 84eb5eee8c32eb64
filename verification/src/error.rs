//! The ways a run can fail on what the library decides.

use vstd::prelude::*;

verus! {

/// A failure found by one of the stages. Each one ends the run.
#[derive(Debug, PartialEq, Eq)]
pub enum StageError {
    /// The server answered the download with a status outside 200..=299.
    HttpStatus(u16),
    /// Flattening the wrapper directory would put an entry of this name where
    /// one already is.
    NameCollision(String),
    /// Neither a Maven build file nor a Gradle wrapper script is present.
    NoBuildSystem,
    /// The build left no artifact to publish.
    NoArtifact,
}

/// The mathematical value of a [`StageError`].
pub enum StageErrorView {
    HttpStatus(u16),
    NameCollision(Seq<char>),
    NoBuildSystem,
    NoArtifact,
}

impl View for StageError {
    type V = StageErrorView;

    open spec fn view(&self) -> StageErrorView {
        match self {
            StageError::HttpStatus(code) => StageErrorView::HttpStatus(*code),
            StageError::NameCollision(name) => StageErrorView::NameCollision(name@),
            StageError::NoBuildSystem => StageErrorView::NoBuildSystem,
            StageError::NoArtifact => StageErrorView::NoArtifact,
        }
    }
}

} // verus!
