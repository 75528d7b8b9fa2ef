//! A verified playback-controller core for a small music player.
//!
//! The library owns the ordered playlist, the current selection and the
//! play/pause flag, and drives an audio output sink through the
//! `AudioSink` collaborator trait. Directory traversal, audio decoding
//! and the user interface live outside the library and only hand plain
//! values in and out.

use vstd::prelude::*;

pub mod player;
pub mod scan;
pub mod text;

verus! {

/// One playable audio file together with its position in the playlist.
pub struct Track {
    /// Position of the track in the current playlist; positions are
    /// contiguous from zero.
    pub ord: usize,
    /// Absolute path of the audio file.
    pub path: String,
}

} // verus!
