//! Verified core of a push-to-talk dictation tool: the recorder and session
//! state machines, sample conversions, the transcript clean-up and the
//! line protocol spoken with the speech recogniser.

pub mod text;
pub mod audio;
pub mod recorder;
pub mod cloud;
pub mod session;
pub mod whisper;
