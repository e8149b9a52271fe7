//! The steno keys and their fixed place in a chord's bit vector.
//!
//! A chord is a set of keys. Its bit vector gives every key one bit, in the
//! canonical steno order `# S T K P W H R A O * E U -F -R -P -B -L -G -T -S -D -Z`,
//! the number bar at bit 0 and the right-bank `Z` at bit 22. The layout is
//! fixed: dictionaries store the bit vectors.

use vstd::prelude::*;

verus! {

pub const HASH: u32 = 0b00000000000000000000001;
pub const S: u32    = 0b00000000000000000000010;
pub const T: u32    = 0b00000000000000000000100;
pub const K: u32    = 0b00000000000000000001000;
pub const P: u32    = 0b00000000000000000010000;
pub const W: u32    = 0b00000000000000000100000;
pub const H: u32    = 0b00000000000000001000000;
pub const R: u32    = 0b00000000000000010000000;
pub const A: u32    = 0b00000000000000100000000;
pub const O: u32    = 0b00000000000001000000000;
pub const STAR: u32 = 0b00000000000010000000000;
pub const E: u32    = 0b00000000000100000000000;
pub const U: u32    = 0b00000000001000000000000;
pub const F: u32    = 0b00000000010000000000000;
pub const RR: u32   = 0b00000000100000000000000;
pub const RP: u32   = 0b00000001000000000000000;
pub const B: u32    = 0b00000010000000000000000;
pub const L: u32    = 0b00000100000000000000000;
pub const G: u32    = 0b00001000000000000000000;
pub const RT: u32   = 0b00010000000000000000000;
pub const RS: u32   = 0b00100000000000000000000;
pub const D: u32    = 0b01000000000000000000000;
pub const Z: u32    = 0b10000000000000000000000;

/// Every key of the left bank, the vowels `A` and `O` included.
pub const LEFT: u32 = 0b00000000000001111111110;
/// Every key from the star to the right-bank `Z`.
pub const RGHT: u32 = 0b11111111111110000000000;
pub const NUM1: u32 = 0b00000000000000000000011;
pub const NUM2: u32 = 0b00000000000000000000101;
pub const NUM3: u32 = 0b00000000000000000010001;
pub const NUM4: u32 = 0b00000000000000001000001;
pub const NUM5: u32 = 0b00000000000000100000001;
pub const NUM0: u32 = 0b00000000000001000000001;
pub const NUM6: u32 = 0b00000000010000000000001;
pub const NUM7: u32 = 0b00000001000000000000001;
pub const NUM8: u32 = 0b00000100000000000000001;
pub const NUM9: u32 = 0b00010000000000000000001;
/// The union of the ten digit masks.
pub const NUM: u32  = 0b00010101010001101010111;
/// All 23 keys.
pub const ALL: u32  = 0b11111111111111111111111;

/// One key of the steno keyboard. `S`, `T`, `P` and `R` exist on both banks;
/// the right-bank ones are `RS`, `RT`, `RP` and `RR`.
#[derive(Clone, Copy, Debug, PartialEq, Eq, Structural, Hash)]
pub enum Key {
    Hash,
    S,
    T,
    K,
    P,
    W,
    H,
    R,
    A,
    O,
    Star,
    E,
    U,
    F,
    RR,
    RP,
    B,
    L,
    G,
    RT,
    RS,
    D,
    Z,
}

impl Key {
    /// The bit that stands for this key.
    pub open spec fn mask(self) -> u32 {
        match self {
            Key::Hash => HASH,
            Key::S => S,
            Key::T => T,
            Key::K => K,
            Key::P => P,
            Key::W => W,
            Key::H => H,
            Key::R => R,
            Key::A => A,
            Key::O => O,
            Key::Star => STAR,
            Key::E => E,
            Key::U => U,
            Key::F => F,
            Key::RR => RR,
            Key::RP => RP,
            Key::B => B,
            Key::L => L,
            Key::G => G,
            Key::RT => RT,
            Key::RS => RS,
            Key::D => D,
            Key::Z => Z,
        }
    }

    /// The character that stands for this key in steno notation. A right-bank
    /// key is written with the letter of its left-bank twin.
    pub open spec fn letter(self) -> char {
        match self {
            Key::Hash => '#',
            Key::S => 'S',
            Key::T => 'T',
            Key::K => 'K',
            Key::P => 'P',
            Key::W => 'W',
            Key::H => 'H',
            Key::R => 'R',
            Key::A => 'A',
            Key::O => 'O',
            Key::Star => '*',
            Key::E => 'E',
            Key::U => 'U',
            Key::F => 'F',
            Key::RR => 'R',
            Key::RP => 'P',
            Key::B => 'B',
            Key::L => 'L',
            Key::G => 'G',
            Key::RT => 'T',
            Key::RS => 'S',
            Key::D => 'D',
            Key::Z => 'Z',
        }
    }
}

/// The keys of the left bank, the vowels `A` and `O` included.
pub open spec fn left_bank() -> Set<Key> {
    set![Key::S, Key::T, Key::K, Key::P, Key::W, Key::H, Key::R, Key::A, Key::O]
}

/// The star, the vowels `E` and `U`, and the keys of the right bank.
pub open spec fn right_bank() -> Set<Key> {
    set![
        Key::Star,
        Key::E,
        Key::U,
        Key::F,
        Key::RR,
        Key::RP,
        Key::B,
        Key::L,
        Key::G,
        Key::RT,
        Key::RS,
        Key::D,
        Key::Z,
    ]
}

/// The keys that stand for a digit of the number row: the number bar and
/// one letter. Empty for a number above 9.
pub open spec fn digit_keys(digit: nat) -> Set<Key> {
    if digit == 0 {
        set![Key::Hash, Key::O]
    } else if digit == 1 {
        set![Key::Hash, Key::S]
    } else if digit == 2 {
        set![Key::Hash, Key::T]
    } else if digit == 3 {
        set![Key::Hash, Key::P]
    } else if digit == 4 {
        set![Key::Hash, Key::H]
    } else if digit == 5 {
        set![Key::Hash, Key::A]
    } else if digit == 6 {
        set![Key::Hash, Key::F]
    } else if digit == 7 {
        set![Key::Hash, Key::RP]
    } else if digit == 8 {
        set![Key::Hash, Key::L]
    } else if digit == 9 {
        set![Key::Hash, Key::RT]
    } else {
        Set::empty()
    }
}

/// The keys of all ten digits together.
pub open spec fn number_keys() -> Set<Key> {
    digit_keys(0).union(digit_keys(1)).union(digit_keys(2)).union(digit_keys(3)).union(
        digit_keys(4),
    ).union(digit_keys(5)).union(digit_keys(6)).union(digit_keys(7)).union(digit_keys(8)).union(
        digit_keys(9),
    )
}

/// What `key` adds to the bit vector of `keys`: its bit if it is among them,
/// else nothing.
pub open spec fn weight(keys: Set<Key>, key: Key) -> u32 {
    if keys.contains(key) {
        key.mask()
    } else {
        0
    }
}

/// The bit vector of a set of keys, as a number: the sum of the bits of its
/// keys.
pub open spec fn bit_value(keys: Set<Key>) -> nat {
    (weight(keys, Key::Hash)
        + weight(keys, Key::S)
        + weight(keys, Key::T)
        + weight(keys, Key::K)
        + weight(keys, Key::P)
        + weight(keys, Key::W)
        + weight(keys, Key::H)
        + weight(keys, Key::R)
        + weight(keys, Key::A)
        + weight(keys, Key::O)
        + weight(keys, Key::Star)
        + weight(keys, Key::E)
        + weight(keys, Key::U)
        + weight(keys, Key::F)
        + weight(keys, Key::RR)
        + weight(keys, Key::RP)
        + weight(keys, Key::B)
        + weight(keys, Key::L)
        + weight(keys, Key::G)
        + weight(keys, Key::RT)
        + weight(keys, Key::RS)
        + weight(keys, Key::D)
        + weight(keys, Key::Z)) as nat
}

/// The keys whose bits are set in `bits`. Bits above the 23 that stand for a
/// key count for nothing.
pub open spec fn keys_of(bits: u32) -> Set<Key> {
    Set::new(|key: Key| bits & key.mask() == key.mask())
}

/// A mask that holds exactly one bit.
pub open spec fn single_bit(mask: u32) -> bool {
    mask != 0 && mask & ((mask - 1) as u32) == 0
}

proof fn lemma_layout_bits()
    by (bit_vector)
    ensures
        single_bit(HASH) && HASH & ALL == HASH,
        single_bit(S) && S & ALL == S,
        single_bit(T) && T & ALL == T,
        single_bit(K) && K & ALL == K,
        single_bit(P) && P & ALL == P,
        single_bit(W) && W & ALL == W,
        single_bit(H) && H & ALL == H,
        single_bit(R) && R & ALL == R,
        single_bit(A) && A & ALL == A,
        single_bit(O) && O & ALL == O,
        single_bit(STAR) && STAR & ALL == STAR,
        single_bit(E) && E & ALL == E,
        single_bit(U) && U & ALL == U,
        single_bit(F) && F & ALL == F,
        single_bit(RR) && RR & ALL == RR,
        single_bit(RP) && RP & ALL == RP,
        single_bit(B) && B & ALL == B,
        single_bit(L) && L & ALL == L,
        single_bit(G) && G & ALL == G,
        single_bit(RT) && RT & ALL == RT,
        single_bit(RS) && RS & ALL == RS,
        single_bit(D) && D & ALL == D,
        single_bit(Z) && Z & ALL == Z,
{
}

/// Each key has one bit of its own among the 23.
pub proof fn lemma_mask_single_bit(key: Key)
    ensures
        single_bit(key.mask()),
        key.mask() & ALL == key.mask(),
{
    lemma_layout_bits();
}

proof fn lemma_bit_or(a: u32, b: u32, m: u32)
    by (bit_vector)
    requires
        single_bit(m),
    ensures
        ((a | b) & m == m) == (a & m == m || b & m == m),
{
}

proof fn lemma_bit_and(a: u32, b: u32, m: u32)
    by (bit_vector)
    ensures
        ((a & b) & m == m) == (a & m == m && b & m == m),
{
}

proof fn lemma_bit_diff(a: u32, b: u32, m: u32)
    by (bit_vector)
    requires
        single_bit(m),
    ensures
        ((a & !b) & m == m) == (a & m == m && !(b & m == m)),
{
}

proof fn lemma_bit_alone(a: u32, m: u32)
    by (bit_vector)
    requires
        single_bit(m),
    ensures
        a & m == m || a & m == 0,
{
}

proof fn lemma_bits_sum(a: u32)
    by (bit_vector)
    requires
        a <= ALL,
    ensures
        a == (a & HASH) + (a & S) + (a & T) + (a & K) + (a & P) + (a & W) + (a & H) + (a & R)
            + (a & A) + (a & O) + (a & STAR) + (a & E) + (a & U) + (a & F) + (a & RR) + (a & RP)
            + (a & B) + (a & L) + (a & G) + (a & RT) + (a & RS) + (a & D) + (a & Z),
{
}

proof fn lemma_sum_bits(
    w0: u32,
    w1: u32,
    w2: u32,
    w3: u32,
    w4: u32,
    w5: u32,
    w6: u32,
    w7: u32,
    w8: u32,
    w9: u32,
    w10: u32,
    w11: u32,
    w12: u32,
    w13: u32,
    w14: u32,
    w15: u32,
    w16: u32,
    w17: u32,
    w18: u32,
    w19: u32,
    w20: u32,
    w21: u32,
    w22: u32,
    mask: u32,
    w: u32,
)
    by (bit_vector)
    requires
        w0 == 0 || w0 == HASH,
        w1 == 0 || w1 == S,
        w2 == 0 || w2 == T,
        w3 == 0 || w3 == K,
        w4 == 0 || w4 == P,
        w5 == 0 || w5 == W,
        w6 == 0 || w6 == H,
        w7 == 0 || w7 == R,
        w8 == 0 || w8 == A,
        w9 == 0 || w9 == O,
        w10 == 0 || w10 == STAR,
        w11 == 0 || w11 == E,
        w12 == 0 || w12 == U,
        w13 == 0 || w13 == F,
        w14 == 0 || w14 == RR,
        w15 == 0 || w15 == RP,
        w16 == 0 || w16 == B,
        w17 == 0 || w17 == L,
        w18 == 0 || w18 == G,
        w19 == 0 || w19 == RT,
        w20 == 0 || w20 == RS,
        w21 == 0 || w21 == D,
        w22 == 0 || w22 == Z,
        mask == HASH && w == w0
            || mask == S && w == w1
            || mask == T && w == w2
            || mask == K && w == w3
            || mask == P && w == w4
            || mask == W && w == w5
            || mask == H && w == w6
            || mask == R && w == w7
            || mask == A && w == w8
            || mask == O && w == w9
            || mask == STAR && w == w10
            || mask == E && w == w11
            || mask == U && w == w12
            || mask == F && w == w13
            || mask == RR && w == w14
            || mask == RP && w == w15
            || mask == B && w == w16
            || mask == L && w == w17
            || mask == G && w == w18
            || mask == RT && w == w19
            || mask == RS && w == w20
            || mask == D && w == w21
            || mask == Z && w == w22,
    ensures
        w0 + w1 + w2 + w3 + w4 + w5 + w6 + w7 + w8 + w9 + w10 + w11 + w12 + w13 + w14 + w15
            + w16 + w17 + w18 + w19 + w20 + w21 + w22 <= ALL,
        (((w0 + w1 + w2 + w3 + w4 + w5 + w6 + w7 + w8 + w9 + w10 + w11 + w12 + w13 + w14 + w15
            + w16 + w17 + w18 + w19 + w20 + w21 + w22) as u32) & mask == mask) == (w == mask),
{
}

/// The bits of a union are those of either side.
pub proof fn lemma_keys_of_or(a: u32, b: u32)
    ensures
        keys_of(a | b) == keys_of(a).union(keys_of(b)),
{
    assert forall|key: Key| keys_of(a | b).contains(key) == keys_of(a).union(keys_of(b)).contains(
        key,
    ) by {
        lemma_mask_single_bit(key);
        lemma_bit_or(a, b, key.mask());
    }
    assert(keys_of(a | b) =~= keys_of(a).union(keys_of(b)));
}

/// The bits of an intersection are those of both sides.
pub proof fn lemma_keys_of_and(a: u32, b: u32)
    ensures
        keys_of(a & b) == keys_of(a).intersect(keys_of(b)),
{
    assert forall|key: Key| keys_of(a & b).contains(key) == keys_of(a).intersect(
        keys_of(b),
    ).contains(key) by {
        lemma_bit_and(a, b, key.mask());
    }
    assert(keys_of(a & b) =~= keys_of(a).intersect(keys_of(b)));
}

/// The bits of a difference are those of the left side that the right side
/// lacks.
pub proof fn lemma_keys_of_diff(a: u32, b: u32)
    ensures
        keys_of(a & !b) == keys_of(a).difference(keys_of(b)),
{
    assert forall|key: Key| keys_of(a & !b).contains(key) == keys_of(a).difference(
        keys_of(b),
    ).contains(key) by {
        lemma_mask_single_bit(key);
        lemma_bit_diff(a, b, key.mask());
    }
    assert(keys_of(a & !b) =~= keys_of(a).difference(keys_of(b)));
}

/// A bit vector within the 23 bits is the value of the keys it holds.
pub proof fn lemma_bit_value_of_keys(bits: u32)
    requires
        bits <= ALL,
    ensures
        bit_value(keys_of(bits)) == bits,
{
    assert forall|key: Key| weight(keys_of(bits), key) == bits & key.mask() by {
        lemma_mask_single_bit(key);
        lemma_bit_alone(bits, key.mask());
    }
    lemma_bits_sum(bits);
}

proof fn lemma_mask_of_value(keys: Set<Key>, mask: u32, w: u32)
    requires
        mask == HASH && w == weight(keys, Key::Hash)
            || mask == S && w == weight(keys, Key::S)
            || mask == T && w == weight(keys, Key::T)
            || mask == K && w == weight(keys, Key::K)
            || mask == P && w == weight(keys, Key::P)
            || mask == W && w == weight(keys, Key::W)
            || mask == H && w == weight(keys, Key::H)
            || mask == R && w == weight(keys, Key::R)
            || mask == A && w == weight(keys, Key::A)
            || mask == O && w == weight(keys, Key::O)
            || mask == STAR && w == weight(keys, Key::Star)
            || mask == E && w == weight(keys, Key::E)
            || mask == U && w == weight(keys, Key::U)
            || mask == F && w == weight(keys, Key::F)
            || mask == RR && w == weight(keys, Key::RR)
            || mask == RP && w == weight(keys, Key::RP)
            || mask == B && w == weight(keys, Key::B)
            || mask == L && w == weight(keys, Key::L)
            || mask == G && w == weight(keys, Key::G)
            || mask == RT && w == weight(keys, Key::RT)
            || mask == RS && w == weight(keys, Key::RS)
            || mask == D && w == weight(keys, Key::D)
            || mask == Z && w == weight(keys, Key::Z),
    ensures
        bit_value(keys) <= ALL,
        ((bit_value(keys) as u32) & mask == mask) == (w == mask),
{
    lemma_sum_bits(
        weight(keys, Key::Hash),
        weight(keys, Key::S),
        weight(keys, Key::T),
        weight(keys, Key::K),
        weight(keys, Key::P),
        weight(keys, Key::W),
        weight(keys, Key::H),
        weight(keys, Key::R),
        weight(keys, Key::A),
        weight(keys, Key::O),
        weight(keys, Key::Star),
        weight(keys, Key::E),
        weight(keys, Key::U),
        weight(keys, Key::F),
        weight(keys, Key::RR),
        weight(keys, Key::RP),
        weight(keys, Key::B),
        weight(keys, Key::L),
        weight(keys, Key::G),
        weight(keys, Key::RT),
        weight(keys, Key::RS),
        weight(keys, Key::D),
        weight(keys, Key::Z),
        mask,
        w,
    );
}

proof fn lemma_key_of_value(keys: Set<Key>, key: Key)
    ensures
        bit_value(keys) <= ALL,
        ((bit_value(keys) as u32) & key.mask() == key.mask()) == keys.contains(key),
{
    match key {
        Key::Hash => lemma_mask_of_value(keys, HASH, weight(keys, Key::Hash)),
        Key::S => lemma_mask_of_value(keys, S, weight(keys, Key::S)),
        Key::T => lemma_mask_of_value(keys, T, weight(keys, Key::T)),
        Key::K => lemma_mask_of_value(keys, K, weight(keys, Key::K)),
        Key::P => lemma_mask_of_value(keys, P, weight(keys, Key::P)),
        Key::W => lemma_mask_of_value(keys, W, weight(keys, Key::W)),
        Key::H => lemma_mask_of_value(keys, H, weight(keys, Key::H)),
        Key::R => lemma_mask_of_value(keys, R, weight(keys, Key::R)),
        Key::A => lemma_mask_of_value(keys, A, weight(keys, Key::A)),
        Key::O => lemma_mask_of_value(keys, O, weight(keys, Key::O)),
        Key::Star => lemma_mask_of_value(keys, STAR, weight(keys, Key::Star)),
        Key::E => lemma_mask_of_value(keys, E, weight(keys, Key::E)),
        Key::U => lemma_mask_of_value(keys, U, weight(keys, Key::U)),
        Key::F => lemma_mask_of_value(keys, F, weight(keys, Key::F)),
        Key::RR => lemma_mask_of_value(keys, RR, weight(keys, Key::RR)),
        Key::RP => lemma_mask_of_value(keys, RP, weight(keys, Key::RP)),
        Key::B => lemma_mask_of_value(keys, B, weight(keys, Key::B)),
        Key::L => lemma_mask_of_value(keys, L, weight(keys, Key::L)),
        Key::G => lemma_mask_of_value(keys, G, weight(keys, Key::G)),
        Key::RT => lemma_mask_of_value(keys, RT, weight(keys, Key::RT)),
        Key::RS => lemma_mask_of_value(keys, RS, weight(keys, Key::RS)),
        Key::D => lemma_mask_of_value(keys, D, weight(keys, Key::D)),
        Key::Z => lemma_mask_of_value(keys, Z, weight(keys, Key::Z)),
    }
}

/// The value of a set of keys fits in the 23 bits, and holds exactly the
/// bits of those keys.
pub proof fn lemma_keys_of_bit_value(keys: Set<Key>)
    ensures
        bit_value(keys) <= ALL,
        keys_of(bit_value(keys) as u32) == keys,
{
    let bits = bit_value(keys) as u32;
    assert forall|key: Key| keys_of(bits).contains(key) == keys.contains(key) by {
        lemma_key_of_value(keys, key);
    }
    assert(keys_of(bits) =~= keys);
    lemma_key_of_value(keys, Key::Hash);
}

/// Two sets of keys with one value are one set.
pub proof fn lemma_bit_value_injective(a: Set<Key>, b: Set<Key>)
    requires
        bit_value(a) == bit_value(b),
    ensures
        a == b,
{
    lemma_keys_of_bit_value(a);
    lemma_keys_of_bit_value(b);
}

proof fn lemma_bits_stay_within(a: u32, b: u32)
    by (bit_vector)
    requires
        a <= ALL,
    ensures
        a & b <= ALL,
        a & !b <= ALL,
        b <= ALL ==> a | b <= ALL,
{
}

/// Union, intersection and difference of bit vectors within the 23 bits stay
/// within them.
pub proof fn lemma_ops_within_layout(a: u32, b: u32)
    requires
        a <= ALL,
        b <= ALL,
    ensures
        a | b <= ALL,
        a & b <= ALL,
        a & !b <= ALL,
{
    lemma_bits_stay_within(a, b);
}

/// Two bit vectors within the 23 bits that hold the same keys are equal.
pub proof fn lemma_keys_of_injective(a: u32, b: u32)
    requires
        a <= ALL,
        b <= ALL,
        keys_of(a) == keys_of(b),
    ensures
        a == b,
{
    lemma_bit_value_of_keys(a);
    lemma_bit_value_of_keys(b);
}

/// The two banks share no key, and with the number bar they are all the
/// keys there are. The masks of the groups hold the bits of their keys.
pub proof fn lemma_layout()
    ensures
        left_bank().disjoint(right_bank()),
        !left_bank().contains(Key::Hash),
        !right_bank().contains(Key::Hash),
        left_bank().union(right_bank()).insert(Key::Hash) == Set::<Key>::full(),
        bit_value(left_bank()) == LEFT,
        bit_value(right_bank()) == RGHT,
        bit_value(number_keys()) == NUM,
        bit_value(Set::<Key>::full()) == ALL,
{
    assert(left_bank().union(right_bank()).insert(Key::Hash) =~= Set::<Key>::full());
}

} // verus!
