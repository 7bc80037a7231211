//! Bee: the verified core of a push-to-talk dictation tool.
//!
//! The library holds the rules of the application: the model catalog, the
//! persistent data and its edits, transcript cleanup and dictionary
//! substitution, shortcut parsing, and the decisions taken while recording.
//! Audio capture, windows, the network and the file system live outside it.

pub mod text;
pub mod pattern;
pub mod storage;
pub mod models;
pub mod shortcuts;
pub mod audio;
pub mod transcription;
pub mod updates;
pub mod session;
pub mod interface;

