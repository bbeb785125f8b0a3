use vstd::prelude::*;

verus! {

/// Error taxonomy of the decoding pipeline.
///
/// The core itself performs no I/O; the host program maps failures of
/// its WAV, PNG and logging collaborators into these variants, each
/// carrying a diagnostic message as plain text.
#[derive(Debug)]
pub enum Error {
    /// Input/output failure, with its message.
    Io(String),
    /// WAV decoding or opening failure.
    WavOpen(String),
    /// PNG encoding or writing failure.
    PngWrite(String),
    /// Internal invariant violation.
    Internal(String),
    /// Functionality compiled out of the program: the missing features.
    FeatureNotAvailable(Vec<String>),
}

} // verus!
