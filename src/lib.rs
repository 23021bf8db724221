//! Chord audio for a pairs-matching card game: exact chord pitches, the
//! oscillator bank that voices them, rendered stereo buffers, a cache of
//! rendered chords, and the game board.

pub mod audio;
pub mod board;
pub mod samples;
pub mod sound;
