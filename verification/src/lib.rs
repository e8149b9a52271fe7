//! The chord model of a stenographic keyboard.
//!
//! A [`Stroke`] is the set of steno keys of one chord, held as a bit vector
//! in steno order. An [`Outline`] is a sequence of strokes. Both can be
//! written in steno notation and read back from it, and an outline has a
//! byte encoding under which a dictionary can store it in a prefix trie.

pub mod error;
pub mod hotkey;
pub mod key;
pub mod notation;
pub mod outline;
pub mod stroke;
pub mod trie_key;

pub use error::Error;
pub use hotkey::KeyPress;
pub use key::Key;
pub use outline::Outline;
pub use stroke::Stroke;
