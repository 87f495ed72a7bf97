//! Error taxonomy of the library.

use vstd::prelude::*;

verus! {

/// How a single tile fetch attempt failed.
#[derive(Debug, Clone, Copy, PartialEq, Eq, Structural)]
pub enum FailureKind {
    /// The transport refused the request or the connection broke.
    Transport,
    /// The response body could not be read.
    BodyRead,
    /// Bytes arrived but were not a valid image.
    Decode,
    /// Bytes decoded to a raster of the wrong tile size.
    WrongDimensions,
}

/// Errors surfaced by the library.
#[derive(Debug, Clone)]
pub enum StreetViewError {
    /// A tile kept failing until the retry ceiling was reached; `attempts`
    /// fetch attempts were made and the last one failed as `last` says.
    RetryExhausted { attempts: u32, last: FailureKind },
    /// A decoded tile had the wrong pixel size when the panorama was
    /// assembled; structural, never retried.
    DimensionMismatch { x: u32, y: u32, width: u32, height: u32 },
    /// A zoom level, view configuration or tile address outside its domain.
    InvalidParameter(String),
    /// Encoding a raster to an output format failed.
    EncodeFailure,
    /// A textual response could not be parsed.
    ParseError(String),
    /// A response was structurally unexpected.
    InvalidResponse(String),
    /// The operation needs an API key and none was set.
    MissingApiKey,
    /// A search returned zero usable panoramas.
    NoPanoramasFound,
    /// A maps URL held no recognisable coordinates.
    InvalidUrl,
}

/// Result type alias for the library's operations.
pub type SvResult<T> = Result<T, StreetViewError>;

} // verus!
