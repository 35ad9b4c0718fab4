//! The failure of fetching a manual page.

use crate::render::RenderError;
use vstd::prelude::*;

verus! {

/// Why a manual page could not be rendered.
pub enum TlDrError {
    /// The request for the page failed.
    Http(reqwest::Error),
    /// The page holds a construct that the renderer does not support.
    Render(RenderError),
}

impl From<reqwest::Error> for TlDrError {
    fn from(error: reqwest::Error) -> (r: TlDrError)
        ensures
            r == TlDrError::Http(error),
    {
        TlDrError::Http(error)
    }
}

impl vstd::std_specs::convert::FromSpecImpl<reqwest::Error> for TlDrError {
    open spec fn obeys_from_spec() -> bool {
        true
    }

    open spec fn from_spec(error: reqwest::Error) -> TlDrError {
        TlDrError::Http(error)
    }
}

impl From<RenderError> for TlDrError {
    fn from(error: RenderError) -> (r: TlDrError)
        ensures
            r == TlDrError::Render(error),
    {
        TlDrError::Render(error)
    }
}

impl vstd::std_specs::convert::FromSpecImpl<RenderError> for TlDrError {
    open spec fn obeys_from_spec() -> bool {
        true
    }

    open spec fn from_spec(error: RenderError) -> TlDrError {
        TlDrError::Render(error)
    }
}

} // verus!
