//! A stroke: the keys of one chord.

use crate::hotkey::KeyPress;
use crate::key::{
    bit_value, digit_keys, keys_of, left_bank, lemma_bit_value_of_keys, lemma_keys_of_and,
    lemma_keys_of_bit_value, lemma_keys_of_diff, lemma_keys_of_injective, lemma_keys_of_or,
    lemma_ops_within_layout, number_keys, right_bank, Key, A, ALL, B, D, E, F, G, H, HASH, K, L,
    LEFT, NUM, NUM0, NUM1, NUM2, NUM3, NUM4, NUM5, NUM6, NUM7, NUM8, NUM9, O, P, R, RGHT, RP, RR,
    RS, RT, S, STAR, T, U, W, Z,
};
use vstd::prelude::*;

verus! {

/// The keys pressed together in one chord.
///
/// A stroke is held as a bit vector with one bit for each key, in steno order.
/// Its view is the set of its keys, and two strokes are equal when they hold
/// the same keys. A stroke does not know which key of the keyboard gave it a
/// key.
#[derive(Clone, Copy, Debug, Hash)]
pub struct Stroke {
    bits: u32,
}

impl View for Stroke {
    type V = Set<Key>;

    closed spec fn view(&self) -> Set<Key> {
        keys_of(self.bits)
    }
}

impl Stroke {
    /// No stroke holds a bit beyond the 23 that stand for a key.
    #[verifier::type_invariant]
    spec fn within_layout(self) -> bool {
        self.bits <= ALL
    }

    fn of_keys(bits: u32, Ghost(keys): Ghost<Set<Key>>) -> (r: Stroke)
        requires
            bits == bit_value(keys),
        ensures
            r@ == keys,
    {
        proof {
            lemma_keys_of_bit_value(keys);
        }
        Stroke { bits }
    }

    /// The stroke with no key.
    pub fn empty() -> (r: Stroke)
        ensures
            r@ == Set::<Key>::empty(),
    {
        Stroke::of_keys(0, Ghost(Set::empty()))
    }

    /// The stroke with every key.
    pub fn all() -> (r: Stroke)
        ensures
            r@ == Set::<Key>::full(),
    {
        Stroke::of_keys(ALL, Ghost(Set::full()))
    }

    /// The number bar.
    #[allow(non_snake_case)]
    pub fn HASH() -> (r: Stroke)
        ensures
            r@ == set![Key::Hash],
    {
        Stroke::of_keys(HASH, Ghost(Set::empty().insert(Key::Hash)))
    }

    /// The left-bank `S`.
    #[allow(non_snake_case)]
    pub fn S() -> (r: Stroke)
        ensures
            r@ == set![Key::S],
    {
        Stroke::of_keys(S, Ghost(Set::empty().insert(Key::S)))
    }

    /// The left-bank `T`.
    #[allow(non_snake_case)]
    pub fn T() -> (r: Stroke)
        ensures
            r@ == set![Key::T],
    {
        Stroke::of_keys(T, Ghost(Set::empty().insert(Key::T)))
    }

    /// `K`.
    #[allow(non_snake_case)]
    pub fn K() -> (r: Stroke)
        ensures
            r@ == set![Key::K],
    {
        Stroke::of_keys(K, Ghost(Set::empty().insert(Key::K)))
    }

    /// The left-bank `P`.
    #[allow(non_snake_case)]
    pub fn P() -> (r: Stroke)
        ensures
            r@ == set![Key::P],
    {
        Stroke::of_keys(P, Ghost(Set::empty().insert(Key::P)))
    }

    /// `W`.
    #[allow(non_snake_case)]
    pub fn W() -> (r: Stroke)
        ensures
            r@ == set![Key::W],
    {
        Stroke::of_keys(W, Ghost(Set::empty().insert(Key::W)))
    }

    /// `H`.
    #[allow(non_snake_case)]
    pub fn H() -> (r: Stroke)
        ensures
            r@ == set![Key::H],
    {
        Stroke::of_keys(H, Ghost(Set::empty().insert(Key::H)))
    }

    /// The left-bank `R`.
    #[allow(non_snake_case)]
    pub fn R() -> (r: Stroke)
        ensures
            r@ == set![Key::R],
    {
        Stroke::of_keys(R, Ghost(Set::empty().insert(Key::R)))
    }

    /// `A`.
    #[allow(non_snake_case)]
    pub fn A() -> (r: Stroke)
        ensures
            r@ == set![Key::A],
    {
        Stroke::of_keys(A, Ghost(Set::empty().insert(Key::A)))
    }

    /// `O`.
    #[allow(non_snake_case)]
    pub fn O() -> (r: Stroke)
        ensures
            r@ == set![Key::O],
    {
        Stroke::of_keys(O, Ghost(Set::empty().insert(Key::O)))
    }

    /// The star.
    #[allow(non_snake_case)]
    pub fn STAR() -> (r: Stroke)
        ensures
            r@ == set![Key::Star],
    {
        Stroke::of_keys(STAR, Ghost(Set::empty().insert(Key::Star)))
    }

    /// `E`.
    #[allow(non_snake_case)]
    pub fn E() -> (r: Stroke)
        ensures
            r@ == set![Key::E],
    {
        Stroke::of_keys(E, Ghost(Set::empty().insert(Key::E)))
    }

    /// `U`.
    #[allow(non_snake_case)]
    pub fn U() -> (r: Stroke)
        ensures
            r@ == set![Key::U],
    {
        Stroke::of_keys(U, Ghost(Set::empty().insert(Key::U)))
    }

    /// `F`.
    #[allow(non_snake_case)]
    pub fn F() -> (r: Stroke)
        ensures
            r@ == set![Key::F],
    {
        Stroke::of_keys(F, Ghost(Set::empty().insert(Key::F)))
    }

    /// The right-bank `R`.
    #[allow(non_snake_case)]
    pub fn RR() -> (r: Stroke)
        ensures
            r@ == set![Key::RR],
    {
        Stroke::of_keys(RR, Ghost(Set::empty().insert(Key::RR)))
    }

    /// The right-bank `P`.
    #[allow(non_snake_case)]
    pub fn RP() -> (r: Stroke)
        ensures
            r@ == set![Key::RP],
    {
        Stroke::of_keys(RP, Ghost(Set::empty().insert(Key::RP)))
    }

    /// `B`.
    #[allow(non_snake_case)]
    pub fn B() -> (r: Stroke)
        ensures
            r@ == set![Key::B],
    {
        Stroke::of_keys(B, Ghost(Set::empty().insert(Key::B)))
    }

    /// `L`.
    #[allow(non_snake_case)]
    pub fn L() -> (r: Stroke)
        ensures
            r@ == set![Key::L],
    {
        Stroke::of_keys(L, Ghost(Set::empty().insert(Key::L)))
    }

    /// `G`.
    #[allow(non_snake_case)]
    pub fn G() -> (r: Stroke)
        ensures
            r@ == set![Key::G],
    {
        Stroke::of_keys(G, Ghost(Set::empty().insert(Key::G)))
    }

    /// The right-bank `T`.
    #[allow(non_snake_case)]
    pub fn RT() -> (r: Stroke)
        ensures
            r@ == set![Key::RT],
    {
        Stroke::of_keys(RT, Ghost(Set::empty().insert(Key::RT)))
    }

    /// The right-bank `S`.
    #[allow(non_snake_case)]
    pub fn RS() -> (r: Stroke)
        ensures
            r@ == set![Key::RS],
    {
        Stroke::of_keys(RS, Ghost(Set::empty().insert(Key::RS)))
    }

    /// `D`.
    #[allow(non_snake_case)]
    pub fn D() -> (r: Stroke)
        ensures
            r@ == set![Key::D],
    {
        Stroke::of_keys(D, Ghost(Set::empty().insert(Key::D)))
    }

    /// `Z`.
    #[allow(non_snake_case)]
    pub fn Z() -> (r: Stroke)
        ensures
            r@ == set![Key::Z],
    {
        Stroke::of_keys(Z, Ghost(Set::empty().insert(Key::Z)))
    }

    /// Every key of the left bank.
    #[allow(non_snake_case)]
    pub fn LEFT() -> (r: Stroke)
        ensures
            r@ == left_bank(),
    {
        Stroke::of_keys(LEFT, Ghost(left_bank()))
    }

    /// Every key from the star to the right-bank `Z`.
    #[allow(non_snake_case)]
    pub fn RGHT() -> (r: Stroke)
        ensures
            r@ == right_bank(),
    {
        Stroke::of_keys(RGHT, Ghost(right_bank()))
    }

    /// The digit 1: the number bar and `S`.
    #[allow(non_snake_case)]
    pub fn NUM1() -> (r: Stroke)
        ensures
            r@ == digit_keys(1),
    {
        Stroke::of_keys(NUM1, Ghost(digit_keys(1)))
    }

    /// The digit 2: the number bar and `T`.
    #[allow(non_snake_case)]
    pub fn NUM2() -> (r: Stroke)
        ensures
            r@ == digit_keys(2),
    {
        Stroke::of_keys(NUM2, Ghost(digit_keys(2)))
    }

    /// The digit 3: the number bar and `P`.
    #[allow(non_snake_case)]
    pub fn NUM3() -> (r: Stroke)
        ensures
            r@ == digit_keys(3),
    {
        Stroke::of_keys(NUM3, Ghost(digit_keys(3)))
    }

    /// The digit 4: the number bar and `H`.
    #[allow(non_snake_case)]
    pub fn NUM4() -> (r: Stroke)
        ensures
            r@ == digit_keys(4),
    {
        Stroke::of_keys(NUM4, Ghost(digit_keys(4)))
    }

    /// The digit 5: the number bar and `A`.
    #[allow(non_snake_case)]
    pub fn NUM5() -> (r: Stroke)
        ensures
            r@ == digit_keys(5),
    {
        Stroke::of_keys(NUM5, Ghost(digit_keys(5)))
    }

    /// The digit 0: the number bar and `O`.
    #[allow(non_snake_case)]
    pub fn NUM0() -> (r: Stroke)
        ensures
            r@ == digit_keys(0),
    {
        Stroke::of_keys(NUM0, Ghost(digit_keys(0)))
    }

    /// The digit 6: the number bar and `F`.
    #[allow(non_snake_case)]
    pub fn NUM6() -> (r: Stroke)
        ensures
            r@ == digit_keys(6),
    {
        Stroke::of_keys(NUM6, Ghost(digit_keys(6)))
    }

    /// The digit 7: the number bar and the right-bank `P`.
    #[allow(non_snake_case)]
    pub fn NUM7() -> (r: Stroke)
        ensures
            r@ == digit_keys(7),
    {
        Stroke::of_keys(NUM7, Ghost(digit_keys(7)))
    }

    /// The digit 8: the number bar and `L`.
    #[allow(non_snake_case)]
    pub fn NUM8() -> (r: Stroke)
        ensures
            r@ == digit_keys(8),
    {
        Stroke::of_keys(NUM8, Ghost(digit_keys(8)))
    }

    /// The digit 9: the number bar and the right-bank `T`.
    #[allow(non_snake_case)]
    pub fn NUM9() -> (r: Stroke)
        ensures
            r@ == digit_keys(9),
    {
        Stroke::of_keys(NUM9, Ghost(digit_keys(9)))
    }

    /// The keys of all ten digits.
    #[allow(non_snake_case)]
    pub fn NUM() -> (r: Stroke)
        ensures
            r@ == number_keys(),
    {
        Stroke::of_keys(NUM, Ghost(number_keys()))
    }

    /// The bit vector of the stroke. It holds no bit beyond the 23 that stand
    /// for a key.
    pub fn bits(self) -> (r: u32)
        ensures
            r == bit_value(self@),
            r <= ALL,
    {
        proof {
            use_type_invariant(&self);
            lemma_bit_value_of_keys(self.bits);
        }
        self.bits
    }

    /// The stroke with the given bit vector, if all its bits stand for keys.
    pub fn from_bits(bits: u32) -> (r: Option<Stroke>)
        ensures
            r is Some <==> bits <= ALL,
            r matches Some(stroke) ==> stroke@ == keys_of(bits) && bit_value(stroke@) == bits,
    {
        if bits <= ALL {
            proof {
                lemma_bit_value_of_keys(bits);
            }
            Some(Stroke { bits })
        } else {
            None
        }
    }

    /// Whether the stroke has no key.
    pub fn is_empty(self) -> (r: bool)
        ensures
            r == (self@ == Set::<Key>::empty()),
    {
        let none = Stroke::empty();
        self == none
    }

    /// Whether the stroke has every key of `other`.
    pub fn contains(self, other: Stroke) -> (r: bool)
        ensures
            r == other@.subset_of(self@),
    {
        let common = self & other;
        proof {
            if other@.subset_of(self@) {
                assert(common@ =~= other@);
            }
        }
        common == other
    }

    /// Adds the keys of `other`.
    pub fn insert(&mut self, other: Stroke)
        ensures
            final(self)@ == old(self)@.union(other@),
    {
        *self = *self | other;
    }

    /// Takes the keys of `other` away.
    pub fn remove(&mut self, other: Stroke)
        ensures
            final(self)@ == old(self)@.difference(other@),
    {
        *self = *self - other;
    }

    /// Adds the keys of `other` if `value` holds, and takes them away if not.
    pub fn set(&mut self, other: Stroke, value: bool)
        ensures
            value ==> final(self)@ == old(self)@.union(other@),
            !value ==> final(self)@ == old(self)@.difference(other@),
    {
        if value {
            self.insert(other);
        } else {
            self.remove(other);
        }
    }

    /// Adds to the chord what a key of the keyboard stands for. A key only
    /// ever adds to the chord, and a key without a part in chords leaves it
    /// as it is.
    pub fn set_keypress(&mut self, keysym: &KeyPress)
        ensures
            final(self)@ == old(self)@.union(keysym.steno_keys()),
            old(self)@.subset_of(final(self)@),
    {
        match keysym {
            KeyPress::KeyEsc => (),
            KeyPress::KeyA => self.set(Stroke::S(), true),
            KeyPress::KeyB => (),
            KeyPress::KeyC => self.set(Stroke::A(), true),
            KeyPress::KeyD => self.set(Stroke::W(), true),
            KeyPress::KeyE => self.set(Stroke::P(), true),
            KeyPress::KeyF => self.set(Stroke::R(), true),
            KeyPress::KeyG => self.set(Stroke::STAR(), true),
            KeyPress::KeyH => self.set(Stroke::STAR(), true),
            KeyPress::KeyI => self.set(Stroke::RP(), true),
            KeyPress::KeyJ => self.set(Stroke::RR(), true),
            KeyPress::KeyK => self.set(Stroke::B(), true),
            KeyPress::KeyL => self.set(Stroke::G(), true),
            KeyPress::KeyM => self.set(Stroke::U(), true),
            KeyPress::KeyN => self.set(Stroke::E(), true),
            KeyPress::KeyO => self.set(Stroke::L(), true),
            KeyPress::KeyP => self.set(Stroke::RT(), true),
            KeyPress::KeyQ => self.set(Stroke::S(), true),
            KeyPress::KeyR => self.set(Stroke::H(), true),
            KeyPress::KeyS => self.set(Stroke::K(), true),
            KeyPress::KeyT => self.set(Stroke::STAR(), true),
            KeyPress::KeyU => self.set(Stroke::F(), true),
            KeyPress::KeyV => self.set(Stroke::O(), true),
            KeyPress::KeyW => self.set(Stroke::T(), true),
            KeyPress::KeyX => (),
            KeyPress::KeyY => self.set(Stroke::STAR(), true),
            KeyPress::KeyZ => (),
            KeyPress::Key1 => self.set(Stroke::HASH(), true),
            KeyPress::Key2 => self.set(Stroke::HASH(), true),
            KeyPress::Key3 => self.set(Stroke::HASH(), true),
            KeyPress::Key4 => self.set(Stroke::HASH(), true),
            KeyPress::Key5 => self.set(Stroke::HASH(), true),
            KeyPress::Key6 => self.set(Stroke::HASH(), true),
            KeyPress::Key7 => self.set(Stroke::HASH(), true),
            KeyPress::Key8 => self.set(Stroke::HASH(), true),
            KeyPress::Key9 => self.set(Stroke::HASH(), true),
            KeyPress::Key0 => self.set(Stroke::HASH(), true),
            KeyPress::KeySpace => (),
            KeyPress::KeyBracketLeft => self.set(Stroke::D(), true),
            KeyPress::KeySemicolon => self.set(Stroke::RS(), true),
            KeyPress::KeyBackslash => self.set(Stroke::Z(), true),
        }
        assert(self@ =~= old(self)@.union(keysym.steno_keys()));
    }

    /// Whether the stroke is the star alone.
    pub fn is_star(self) -> (r: bool)
        ensures
            r == (self@ == set![Key::Star]),
    {
        let star = Stroke::STAR();
        self == star
    }

    /// Whether the stroke is made of digits only: whether each of its keys
    /// is a key of one of the ten digits.
    pub fn is_number(self) -> (r: bool)
        ensures
            r == self@.subset_of(number_keys()),
    {
        let digits = Stroke::NUM();
        let both = self | digits;
        proof {
            if self@.subset_of(number_keys()) {
                assert(both@ =~= digits@);
            }
        }
        both == digits
    }
}

impl PartialEq for Stroke {
    fn eq(&self, other: &Stroke) -> (r: bool) {
        proof {
            use_type_invariant(self);
            use_type_invariant(other);
            if self@ == other@ {
                lemma_keys_of_injective(self.bits, other.bits);
            }
        }
        self.bits == other.bits
    }
}

impl vstd::std_specs::cmp::PartialEqSpecImpl for Stroke {
    open spec fn obeys_eq_spec() -> bool {
        true
    }

    open spec fn eq_spec(&self, other: &Stroke) -> bool {
        self@ == other@
    }
}

impl Eq for Stroke {
}

impl core::ops::BitOr for Stroke {
    type Output = Stroke;

    /// The keys of either stroke.
    fn bitor(self, rhs: Stroke) -> (r: Stroke)
        ensures
            r@ == self@.union(rhs@),
    {
        proof {
            use_type_invariant(&self);
            use_type_invariant(&rhs);
            lemma_keys_of_or(self.bits, rhs.bits);
            lemma_ops_within_layout(self.bits, rhs.bits);
        }
        Stroke { bits: self.bits | rhs.bits }
    }
}

impl vstd::std_specs::ops::BitOrSpecImpl for Stroke {
    open spec fn obeys_bitor_spec() -> bool {
        true
    }

    open spec fn bitor_req(self, rhs: Stroke) -> bool {
        true
    }

    closed spec fn bitor_spec(self, rhs: Stroke) -> Stroke {
        Stroke { bits: self.bits | rhs.bits }
    }
}

impl core::ops::BitAnd for Stroke {
    type Output = Stroke;

    /// The keys that both strokes have.
    fn bitand(self, rhs: Stroke) -> (r: Stroke)
        ensures
            r@ == self@.intersect(rhs@),
    {
        proof {
            use_type_invariant(&self);
            use_type_invariant(&rhs);
            lemma_keys_of_and(self.bits, rhs.bits);
            lemma_ops_within_layout(self.bits, rhs.bits);
        }
        Stroke { bits: self.bits & rhs.bits }
    }
}

impl vstd::std_specs::ops::BitAndSpecImpl for Stroke {
    open spec fn obeys_bitand_spec() -> bool {
        true
    }

    open spec fn bitand_req(self, rhs: Stroke) -> bool {
        true
    }

    closed spec fn bitand_spec(self, rhs: Stroke) -> Stroke {
        Stroke { bits: self.bits & rhs.bits }
    }
}

impl core::ops::Sub for Stroke {
    type Output = Stroke;

    /// The keys of this stroke that `rhs` lacks.
    fn sub(self, rhs: Stroke) -> (r: Stroke)
        ensures
            r@ == self@.difference(rhs@),
    {
        proof {
            use_type_invariant(&self);
            use_type_invariant(&rhs);
            lemma_keys_of_diff(self.bits, rhs.bits);
            lemma_ops_within_layout(self.bits, rhs.bits);
        }
        Stroke { bits: self.bits & !rhs.bits }
    }
}

impl vstd::std_specs::ops::SubSpecImpl for Stroke {
    open spec fn obeys_sub_spec() -> bool {
        true
    }

    open spec fn sub_req(self, rhs: Stroke) -> bool {
        true
    }

    closed spec fn sub_spec(self, rhs: Stroke) -> Stroke {
        Stroke { bits: self.bits & !rhs.bits }
    }
}

} // verus!
