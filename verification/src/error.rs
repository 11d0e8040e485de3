use vstd::prelude::*;

verus! {

/// The failure taxonomy of the pipeline.  Every stage reports one of these;
/// no stage performs partial recovery, so a failure aborts the whole request
/// and no partial output buffer is ever surfaced.
#[derive(Clone, Copy, Debug, PartialEq, Eq, Structural)]
pub enum FailureKind {
    /// Unrecognized or corrupt input, or no usable stream was found.
    DecodeFailure,
    /// Encoder or scaler construction, configuration or flush failed.
    EncodeFailure,
    /// No compositing, crop or conversion path applies to the input.
    UnsupportedMedia,
    /// A size or duration ceiling was exceeded.
    ResourceExhaustion,
    /// An internal invariant was violated; always a bug, never user-caused.
    Internal,
}

/// A typed failure carrying a human-readable detail string.
#[derive(Debug)]
pub struct ErrorMessage {
    pub kind: FailureKind,
    pub detail: String,
}

impl ErrorMessage {
    pub fn new(kind: FailureKind, detail: &str) -> (r: ErrorMessage)
        ensures
            r.kind == kind,
            r.detail@ == detail@,
    {
        ErrorMessage { kind, detail: detail.to_owned() }
    }

    /// The human-readable detail of this failure.
    pub fn message(&self) -> (r: &str)
        ensures
            r@ == self.detail@,
    {
        self.detail.as_str()
    }
}

} // verus!
