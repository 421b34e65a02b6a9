//! Local speech transcription: the model catalog and its download
//! bookkeeping, the decisions of the audio decoding loop, and the assembly
//! of a transcript from recognised segments.
pub mod audio;
pub mod model;
pub mod text;
pub mod transcribe;
