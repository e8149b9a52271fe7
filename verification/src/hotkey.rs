//! The keys of the ordinary keyboard on which chords are typed, and what each
//! of them adds to a chord.

use crate::key::Key;
use vstd::prelude::*;

verus! {

/// A key of the ordinary keyboard, as the key capture reports it.
#[derive(Clone, Copy, Debug, PartialEq, Eq, Structural, Hash)]
pub enum KeyPress {
    KeyEsc,
    KeyA,
    KeyB,
    KeyC,
    KeyD,
    KeyE,
    KeyF,
    KeyG,
    KeyH,
    KeyI,
    KeyJ,
    KeyK,
    KeyL,
    KeyM,
    KeyN,
    KeyO,
    KeyP,
    KeyQ,
    KeyR,
    KeyS,
    KeyT,
    KeyU,
    KeyV,
    KeyW,
    KeyX,
    KeyY,
    KeyZ,
    Key1,
    Key2,
    Key3,
    Key4,
    Key5,
    Key6,
    Key7,
    Key8,
    Key9,
    Key0,
    KeySpace,
    KeyBracketLeft,
    KeySemicolon,
    KeyBackslash,
}

impl KeyPress {
    /// The steno keys that this key stands for: one, or none for a key that
    /// has no part in a chord. Several keys may stand for the same steno key:
    /// every digit stands for the number bar.
    pub open spec fn steno_keys(self) -> Set<Key> {
        match self {
            KeyPress::KeyEsc => Set::empty(),
            KeyPress::KeyA => set![Key::S],
            KeyPress::KeyB => Set::empty(),
            KeyPress::KeyC => set![Key::A],
            KeyPress::KeyD => set![Key::W],
            KeyPress::KeyE => set![Key::P],
            KeyPress::KeyF => set![Key::R],
            KeyPress::KeyG => set![Key::Star],
            KeyPress::KeyH => set![Key::Star],
            KeyPress::KeyI => set![Key::RP],
            KeyPress::KeyJ => set![Key::RR],
            KeyPress::KeyK => set![Key::B],
            KeyPress::KeyL => set![Key::G],
            KeyPress::KeyM => set![Key::U],
            KeyPress::KeyN => set![Key::E],
            KeyPress::KeyO => set![Key::L],
            KeyPress::KeyP => set![Key::RT],
            KeyPress::KeyQ => set![Key::S],
            KeyPress::KeyR => set![Key::H],
            KeyPress::KeyS => set![Key::K],
            KeyPress::KeyT => set![Key::Star],
            KeyPress::KeyU => set![Key::F],
            KeyPress::KeyV => set![Key::O],
            KeyPress::KeyW => set![Key::T],
            KeyPress::KeyX => Set::empty(),
            KeyPress::KeyY => set![Key::Star],
            KeyPress::KeyZ => Set::empty(),
            KeyPress::Key1 => set![Key::Hash],
            KeyPress::Key2 => set![Key::Hash],
            KeyPress::Key3 => set![Key::Hash],
            KeyPress::Key4 => set![Key::Hash],
            KeyPress::Key5 => set![Key::Hash],
            KeyPress::Key6 => set![Key::Hash],
            KeyPress::Key7 => set![Key::Hash],
            KeyPress::Key8 => set![Key::Hash],
            KeyPress::Key9 => set![Key::Hash],
            KeyPress::Key0 => set![Key::Hash],
            KeyPress::KeySpace => Set::empty(),
            KeyPress::KeyBracketLeft => set![Key::D],
            KeyPress::KeySemicolon => set![Key::RS],
            KeyPress::KeyBackslash => set![Key::Z],
        }
    }
}

} // verus!
