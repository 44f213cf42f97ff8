//! The failures that end a pipeline run.
use vstd::prelude::*;

verus! {

/// Every way a run of the pipeline can fail.
#[derive(Debug, Clone, Copy, PartialEq, Eq, Structural)]
pub enum PipelineError {
    /// The portal rejected the login.
    AuthFailure,
    /// The series metadata says the session is not entitled to it.
    UnauthorizedSeries,
    /// No rendition of an episode has the required media type.
    NoMatchingRendition,
    /// The encoder's report has no readable stream duration.
    DurationParseFailure,
    /// A silence line of the encoder's report is not well formed.
    MalformedSilenceEvent,
    /// The encoder's report holds no silence at all.
    SilenceDetectionEmpty,
    /// The chosen cut does not lie strictly inside the recording.
    SplitPointOutOfRange,
    /// The encoder exited unsuccessfully, with this exit code.
    EncodeProcessFailure(i32),
    /// The speech-recognition engine failed.
    TranscriptionEngineFailure,
    /// Reading or writing the artifact store or an output failed.
    PersistenceFailure,
}

} // verus!
