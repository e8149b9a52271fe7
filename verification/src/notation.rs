//! Steno notation: how a stroke is written, and how the writing is read.
//!
//! A stroke is written with the letters of its keys in steno order. A
//! right-bank key is written with the letter of its left-bank twin, so `S`,
//! `T`, `P` and `R` each stand for two keys. The reader tells them apart by
//! place: by a dash, which opens the right bank, or by what it has read
//! already.

use crate::error::Error;
use crate::key::{bit_value, digit_keys, Key};
use crate::stroke::Stroke;
use vstd::prelude::*;
use vstd::string::StringExecFns;

verus! {

/// The letter of `key` if `keys` holds it, and nothing if not.
pub open spec fn glyph(keys: Set<Key>, key: Key) -> Seq<char> {
    if keys.contains(key) {
        seq![key.letter()]
    } else {
        Seq::empty()
    }
}

/// Whether the writing of `keys` needs a dash: it does when one of the
/// right-bank `S`, `T`, `P`, `R` is among them and no vowel and no star is.
/// With a vowel or the star present, what follows it is of the right bank by
/// its place alone.
pub open spec fn needs_dash(keys: Set<Key>) -> bool {
    &&& keys.contains(Key::RS) || keys.contains(Key::RT) || keys.contains(Key::RP)
        || keys.contains(Key::RR)
    &&& !keys.contains(Key::A)
    &&& !keys.contains(Key::O)
    &&& !keys.contains(Key::Star)
    &&& !keys.contains(Key::E)
    &&& !keys.contains(Key::U)
}

/// The dash, where the writing of `keys` needs one.
pub open spec fn dash(keys: Set<Key>) -> Seq<char> {
    if needs_dash(keys) {
        seq!['-']
    } else {
        Seq::empty()
    }
}

/// The writing of a set of keys: the letters of its keys in steno order, with
/// the dash, if it is needed, between the place of the star and that of `E`.
pub open spec fn render_keys(keys: Set<Key>) -> Seq<char> {
    glyph(keys, Key::Hash)
        + glyph(keys, Key::S)
        + glyph(keys, Key::T)
        + glyph(keys, Key::K)
        + glyph(keys, Key::P)
        + glyph(keys, Key::W)
        + glyph(keys, Key::H)
        + glyph(keys, Key::R)
        + glyph(keys, Key::A)
        + glyph(keys, Key::O)
        + glyph(keys, Key::Star)
        + dash(keys)
        + glyph(keys, Key::E)
        + glyph(keys, Key::U)
        + glyph(keys, Key::F)
        + glyph(keys, Key::RR)
        + glyph(keys, Key::RP)
        + glyph(keys, Key::B)
        + glyph(keys, Key::L)
        + glyph(keys, Key::G)
        + glyph(keys, Key::RT)
        + glyph(keys, Key::RS)
        + glyph(keys, Key::D)
        + glyph(keys, Key::Z)
}

/// What the reader knows in the middle of a text: the keys read so far, and
/// whether a dash has been passed.
pub struct Scan {
    pub keys: Set<Key>,
    pub right: bool,
}

/// The key that one of the letters `S`, `T`, `P`, `R` stands for, `left` or
/// `right`. It is the right-bank key after a dash, and also once the keys
/// read so far hold the left-bank key or any key after it in steno order:
/// that is, once their bit vector is no less than the bit of `left`.
pub open spec fn bank_key(scan: Scan, left: Key, right: Key) -> Key {
    if scan.right || bit_value(scan.keys) >= left.mask() {
        right
    } else {
        left
    }
}

/// The keys that a character stands for, for a reader that knows `scan`. A
/// digit stands for the keys of that digit. A dash stands for no key, and so
/// does every character that is not named here.
pub open spec fn keys_named(scan: Scan, c: char) -> Set<Key> {
    match c {
        '#' => set![Key::Hash],
        'S' => set![bank_key(scan, Key::S, Key::RS)],
        'T' => set![bank_key(scan, Key::T, Key::RT)],
        'K' => set![Key::K],
        'P' => set![bank_key(scan, Key::P, Key::RP)],
        'W' => set![Key::W],
        'H' => set![Key::H],
        'R' => set![bank_key(scan, Key::R, Key::RR)],
        'A' => set![Key::A],
        'O' => set![Key::O],
        '*' => set![Key::Star],
        'E' => set![Key::E],
        'U' => set![Key::U],
        'F' => set![Key::F],
        'B' => set![Key::B],
        'L' => set![Key::L],
        'G' => set![Key::G],
        'D' => set![Key::D],
        'Z' => set![Key::Z],
        '0' => digit_keys(0),
        '1' => digit_keys(1),
        '2' => digit_keys(2),
        '3' => digit_keys(3),
        '4' => digit_keys(4),
        '5' => digit_keys(5),
        '6' => digit_keys(6),
        '7' => digit_keys(7),
        '8' => digit_keys(8),
        '9' => digit_keys(9),
        _ => Set::empty(),
    }
}

/// What the reader knows after one more character: the keys that the
/// character stands for are added, and a dash opens the right bank.
pub open spec fn scan_char(scan: Scan, c: char) -> Scan {
    Scan { keys: scan.keys.union(keys_named(scan, c)), right: scan.right || c == '-' }
}

/// What the reader knows at the end of `text`, read from left to right.
pub open spec fn scan_text(text: Seq<char>) -> Scan
    decreases text.len(),
{
    if text.len() == 0 {
        Scan { keys: Set::empty(), right: false }
    } else {
        scan_char(scan_text(text.drop_last()), text.last())
    }
}

/// The keys that `text` is read as.
pub open spec fn parse_keys(text: Seq<char>) -> Set<Key> {
    scan_text(text).keys
}

fn maybe_set_right(
    stroke: &mut Stroke,
    left: Stroke,
    right: Stroke,
    is_right: bool,
    Ghost(left_key): Ghost<Key>,
    Ghost(right_key): Ghost<Key>,
)
    requires
        left@ == set![left_key],
        right@ == set![right_key],
        bit_value(left@) == left_key.mask(),
    ensures
        final(stroke)@ == old(stroke)@.insert(
            bank_key((Scan { keys: old(stroke)@, right: is_right }), left_key, right_key),
        ),
{
    if is_right || stroke.bits() >= left.bits() {
        stroke.set(right, true);
        assert(stroke@ =~= old(stroke)@.insert(right_key));
    } else {
        stroke.set(left, true);
        assert(stroke@ =~= old(stroke)@.insert(left_key));
    }
}

/// Reads one character into the stroke that is being read.
pub(crate) fn read_char(stroke: &mut Stroke, right: &mut bool, c: char)
    ensures
        (Scan { keys: final(stroke)@, right: *final(right) }) == scan_char(
            (Scan { keys: old(stroke)@, right: *old(right) }),
            c,
        ),
{
    match c {
        '-' => *right = true,
        '#' => stroke.set(Stroke::HASH(), true),
        'S' => {
            maybe_set_right(stroke, Stroke::S(), Stroke::RS(), *right, Ghost(Key::S), Ghost(Key::RS));
        },
        'T' => {
            maybe_set_right(stroke, Stroke::T(), Stroke::RT(), *right, Ghost(Key::T), Ghost(Key::RT));
        },
        'K' => stroke.set(Stroke::K(), true),
        'P' => {
            maybe_set_right(stroke, Stroke::P(), Stroke::RP(), *right, Ghost(Key::P), Ghost(Key::RP));
        },
        'W' => stroke.set(Stroke::W(), true),
        'H' => stroke.set(Stroke::H(), true),
        'R' => {
            maybe_set_right(stroke, Stroke::R(), Stroke::RR(), *right, Ghost(Key::R), Ghost(Key::RR));
        },
        'A' => stroke.set(Stroke::A(), true),
        'O' => stroke.set(Stroke::O(), true),
        '*' => stroke.set(Stroke::STAR(), true),
        'E' => stroke.set(Stroke::E(), true),
        'U' => stroke.set(Stroke::U(), true),
        'F' => stroke.set(Stroke::F(), true),
        'B' => stroke.set(Stroke::B(), true),
        'L' => stroke.set(Stroke::L(), true),
        'G' => stroke.set(Stroke::G(), true),
        'D' => stroke.set(Stroke::D(), true),
        'Z' => stroke.set(Stroke::Z(), true),
        '0' => stroke.set(Stroke::NUM0(), true),
        '1' => stroke.set(Stroke::NUM1(), true),
        '2' => stroke.set(Stroke::NUM2(), true),
        '3' => stroke.set(Stroke::NUM3(), true),
        '4' => stroke.set(Stroke::NUM4(), true),
        '5' => stroke.set(Stroke::NUM5(), true),
        '6' => stroke.set(Stroke::NUM6(), true),
        '7' => stroke.set(Stroke::NUM7(), true),
        '8' => stroke.set(Stroke::NUM8(), true),
        '9' => stroke.set(Stroke::NUM9(), true),
        _ => (),
    }
    assert(stroke@ =~= scan_char((Scan { keys: old(stroke)@, right: *old(right) }), c).keys);
}

impl Stroke {
    fn requires_disambiguation(self) -> (r: bool)
        ensures
            r == needs_dash(self@),
    {
        let ambiguous_right_keys = Stroke::RS() | Stroke::RT() | Stroke::RP() | Stroke::RR();
        let vowels_and_star = Stroke::A() | Stroke::O() | Stroke::STAR() | Stroke::E()
            | Stroke::U();
        let ambiguous = self & ambiguous_right_keys;
        let anchors = self & vowels_and_star;
        let r = !ambiguous.is_empty() && anchors.is_empty();
        proof {
            if needs_dash(self@) {
                assert(anchors@ =~= Set::<Key>::empty());
                assert(ambiguous@.contains(Key::RS) || ambiguous@.contains(Key::RT)
                    || ambiguous@.contains(Key::RP) || ambiguous@.contains(Key::RR));
            }
            if r {
                assert(!anchors@.contains(Key::A));
                assert(!anchors@.contains(Key::O));
                assert(!anchors@.contains(Key::Star));
                assert(!anchors@.contains(Key::E));
                assert(!anchors@.contains(Key::U));
                assert(!(ambiguous@ =~= Set::<Key>::empty()));
            }
        }
        r
    }

    fn put_key(self, raw: &mut String, key: Stroke, letter: &str, Ghost(k): Ghost<Key>)
        requires
            key@ == set![k],
            letter@.len() == 1,
            letter@[0] == k.letter(),
        ensures
            final(raw)@ == old(raw)@ + glyph(self@, k),
    {
        if self & key == key {
            raw.append(letter);
            assert(letter@ =~= seq![k.letter()]);
            assert(self@.intersect(key@).contains(k));
        } else {
            proof {
                assert(raw@ =~= old(raw)@ + Seq::<char>::empty());
                if self@.contains(k) {
                    assert(self@.intersect(key@) =~= key@);
                }
            }
        }
    }

    fn put_dash(self, raw: &mut String)
        ensures
            final(raw)@ == old(raw)@ + dash(self@),
    {
        if self.requires_disambiguation() {
            proof {
                reveal_strlit("-");
            }
            raw.append("-");
            assert("-"@ =~= seq!['-']);
        } else {
            assert(raw@ =~= old(raw)@ + Seq::<char>::empty());
        }
    }

    /// The stroke in steno notation. Read back, the notation gives the stroke
    /// again.
    pub fn raw_steno(self) -> (r: String)
        ensures
            r@ == render_keys(self@),
            parse_keys(r@) == self@,
    {
        let mut raw = String::new();
        proof {
            reveal_strlit("#");
            reveal_strlit("*");
            reveal_strlit("A");
            reveal_strlit("B");
            reveal_strlit("D");
            reveal_strlit("E");
            reveal_strlit("F");
            reveal_strlit("G");
            reveal_strlit("H");
            reveal_strlit("K");
            reveal_strlit("L");
            reveal_strlit("O");
            reveal_strlit("P");
            reveal_strlit("R");
            reveal_strlit("S");
            reveal_strlit("T");
            reveal_strlit("U");
            reveal_strlit("W");
            reveal_strlit("Z");
        }
        self.put_key(&mut raw, Stroke::HASH(), "#", Ghost(Key::Hash));
        self.put_key(&mut raw, Stroke::S(), "S", Ghost(Key::S));
        self.put_key(&mut raw, Stroke::T(), "T", Ghost(Key::T));
        self.put_key(&mut raw, Stroke::K(), "K", Ghost(Key::K));
        self.put_key(&mut raw, Stroke::P(), "P", Ghost(Key::P));
        self.put_key(&mut raw, Stroke::W(), "W", Ghost(Key::W));
        self.put_key(&mut raw, Stroke::H(), "H", Ghost(Key::H));
        self.put_key(&mut raw, Stroke::R(), "R", Ghost(Key::R));
        self.put_key(&mut raw, Stroke::A(), "A", Ghost(Key::A));
        self.put_key(&mut raw, Stroke::O(), "O", Ghost(Key::O));
        self.put_key(&mut raw, Stroke::STAR(), "*", Ghost(Key::Star));
        self.put_dash(&mut raw);
        self.put_key(&mut raw, Stroke::E(), "E", Ghost(Key::E));
        self.put_key(&mut raw, Stroke::U(), "U", Ghost(Key::U));
        self.put_key(&mut raw, Stroke::F(), "F", Ghost(Key::F));
        self.put_key(&mut raw, Stroke::RR(), "R", Ghost(Key::RR));
        self.put_key(&mut raw, Stroke::RP(), "P", Ghost(Key::RP));
        self.put_key(&mut raw, Stroke::B(), "B", Ghost(Key::B));
        self.put_key(&mut raw, Stroke::L(), "L", Ghost(Key::L));
        self.put_key(&mut raw, Stroke::G(), "G", Ghost(Key::G));
        self.put_key(&mut raw, Stroke::RT(), "T", Ghost(Key::RT));
        self.put_key(&mut raw, Stroke::RS(), "S", Ghost(Key::RS));
        self.put_key(&mut raw, Stroke::D(), "D", Ghost(Key::D));
        self.put_key(&mut raw, Stroke::Z(), "Z", Ghost(Key::Z));
        proof {
            assert(Seq::<char>::empty() + glyph(self@, Key::Hash) =~= glyph(self@, Key::Hash));
            lemma_parse_render_round_trip(self@);
        }
        raw
    }
}

impl core::str::FromStr for Stroke {
    type Err = Error;

    /// Reads a stroke from steno notation. The letters are taken to stand in
    /// steno order. No text is refused: what names no key is passed over.
    fn from_str(s: &str) -> (r: Result<Stroke, Error>)
        ensures
            r matches Ok(stroke) && stroke@ == parse_keys(s@),
    {
        let mut stroke = Stroke::empty();
        let mut right = false;

        for c in it: s.chars()
            invariant
                it.seq() == s@,
                stroke@ == scan_text(s@.take(it.index())).keys,
                right == scan_text(s@.take(it.index())).right,
        {
            assert(s@.take(it.index() + 1).drop_last() =~= s@.take(it.index()));
            read_char(&mut stroke, &mut right, c);
        }
        assert(s@.take(s@.len() as int) =~= s@);
        Ok(stroke)
    }
}

// Why reading gives back what was written.
//
// The writing of `keys` names its keys in steno order, that is, by rising
// bit. So when the reader comes to the place of a key, it holds exactly the
// keys of `keys` that stand before that place, and their bit vector is below
// the key's bit. A letter of the left bank is then taken for the left-bank
// key. At a letter of the right bank the reader has passed either the dash or
// a vowel or the star, whose bits are all above those of the left-bank `S`,
// `T`, `P` and `R`; so the letter is taken for the right-bank key.

/// The keys of `keys` whose bit is below `bound`: those that stand before a
/// place in steno order.
spec fn keys_below(keys: Set<Key>, bound: int) -> Set<Key> {
    Set::new(|key: Key| keys.contains(key) && key.mask() < bound)
}

/// The keys that are written with a letter of their own.
spec fn is_plain(key: Key) -> bool {
    !(key == Key::S || key == Key::T || key == Key::P || key == Key::R || key == Key::RS || key
        == Key::RT || key == Key::RP || key == Key::RR)
}

/// At the place of a key the reader finds the key's letter, if the key is
/// written, and nothing if it is not.
proof fn lemma_scan_glyph(keys: Set<Key>, text: Seq<char>, key: Key)
    ensures
        scan_text(text + glyph(keys, key)) == if keys.contains(key) {
            scan_char(scan_text(text), key.letter())
        } else {
            scan_text(text)
        },
{
    if keys.contains(key) {
        assert((text + glyph(keys, key)).drop_last() =~= text);
    } else {
        assert(text + glyph(keys, key) =~= text);
    }
}

/// The next place in steno order has twice the bit: the keys before it are
/// the keys before this place, and the key of this place.
proof fn lemma_below_next(keys: Set<Key>, key: Key)
    ensures
        keys_below(keys, 2 * key.mask()) == if keys.contains(key) {
            keys_below(keys, key.mask() as int).insert(key)
        } else {
            keys_below(keys, key.mask() as int)
        },
{
    let next = if keys.contains(key) {
        keys_below(keys, key.mask() as int).insert(key)
    } else {
        keys_below(keys, key.mask() as int)
    };
    assert forall|other: Key| keys_below(keys, 2 * key.mask()).contains(other) == next.contains(
        other,
    ) by {
        assert(other.mask() < 2 * key.mask() <==> other.mask() < key.mask() || other == key);
    }
    assert(keys_below(keys, 2 * key.mask()) =~= next);
}

/// The reader passes the place of a key with a letter of its own.
proof fn lemma_scan_plain_key(keys: Set<Key>, text: Seq<char>, key: Key, dashed: bool)
    requires
        is_plain(key),
        scan_text(text).keys == keys_below(keys, key.mask() as int),
        scan_text(text).right == dashed,
    ensures
        scan_text(text + glyph(keys, key)).keys == keys_below(keys, 2 * key.mask()),
        scan_text(text + glyph(keys, key)).right == dashed,
{
    lemma_scan_glyph(keys, text, key);
    lemma_below_next(keys, key);
}

/// The reader passes the place of a left-bank key that shares its letter.
proof fn lemma_scan_left_key(keys: Set<Key>, text: Seq<char>, left: Key, right: Key)
    requires
        left == Key::S && right == Key::RS || left == Key::T && right == Key::RT || left == Key::P
            && right == Key::RP || left == Key::R && right == Key::RR,
        scan_text(text).keys == keys_below(keys, left.mask() as int),
        !scan_text(text).right,
    ensures
        scan_text(text + glyph(keys, left)).keys == keys_below(keys, 2 * left.mask()),
        !scan_text(text + glyph(keys, left)).right,
{
    lemma_scan_glyph(keys, text, left);
    lemma_below_next(keys, left);
    assert(bit_value(keys_below(keys, left.mask() as int)) < left.mask());
}

/// The reader passes the place of a right-bank key that shares its letter.
proof fn lemma_scan_right_key(keys: Set<Key>, text: Seq<char>, left: Key, right: Key)
    requires
        left == Key::S && right == Key::RS || left == Key::T && right == Key::RT || left == Key::P
            && right == Key::RP || left == Key::R && right == Key::RR,
        scan_text(text).keys == keys_below(keys, right.mask() as int),
        scan_text(text).right == needs_dash(keys),
    ensures
        scan_text(text + glyph(keys, right)).keys == keys_below(keys, 2 * right.mask()),
        scan_text(text + glyph(keys, right)).right == needs_dash(keys),
{
    lemma_scan_glyph(keys, text, right);
    lemma_below_next(keys, right);
    if keys.contains(right) && !needs_dash(keys) {
        let read = keys_below(keys, right.mask() as int);
        assert(read.contains(Key::A) || read.contains(Key::O) || read.contains(Key::Star)
            || read.contains(Key::E) || read.contains(Key::U));
        assert(bit_value(read) >= left.mask());
    }
}

/// The reader passes the place of the dash.
proof fn lemma_scan_dash(keys: Set<Key>, text: Seq<char>)
    requires
        !scan_text(text).right,
    ensures
        scan_text(text + dash(keys)).keys == scan_text(text).keys,
        scan_text(text + dash(keys)).right == needs_dash(keys),
{
    if needs_dash(keys) {
        assert((text + dash(keys)).drop_last() =~= text);
    } else {
        assert(text + dash(keys) =~= text);
    }
}

/// The writing of the keys from the number bar to `W`.
spec fn first_text(keys: Set<Key>) -> Seq<char> {
    glyph(keys, Key::Hash)
        + glyph(keys, Key::S)
        + glyph(keys, Key::T)
        + glyph(keys, Key::K)
        + glyph(keys, Key::P)
        + glyph(keys, Key::W)
}

/// The writing of the keys that stand before the dash's place.
spec fn left_text(keys: Set<Key>) -> Seq<char> {
    first_text(keys)
        + glyph(keys, Key::H)
        + glyph(keys, Key::R)
        + glyph(keys, Key::A)
        + glyph(keys, Key::O)
        + glyph(keys, Key::Star)
}

/// `text`, and after it the writing of the keys from `E` to the right-bank `G`.
spec fn with_middle_text(keys: Set<Key>, text: Seq<char>) -> Seq<char> {
    text
        + glyph(keys, Key::E)
        + glyph(keys, Key::U)
        + glyph(keys, Key::F)
        + glyph(keys, Key::RR)
        + glyph(keys, Key::RP)
        + glyph(keys, Key::B)
        + glyph(keys, Key::L)
        + glyph(keys, Key::G)
}

/// `text`, and after it the writing of the keys from the right-bank `T` on.
spec fn with_last_text(keys: Set<Key>, text: Seq<char>) -> Seq<char> {
    text
        + glyph(keys, Key::RT)
        + glyph(keys, Key::RS)
        + glyph(keys, Key::D)
        + glyph(keys, Key::Z)
}

proof fn lemma_scan_first_keys(keys: Set<Key>)
    ensures
        scan_text(first_text(keys)).keys == keys_below(keys, Key::H.mask() as int),
        !scan_text(first_text(keys)).right,
{
    let t = Seq::<char>::empty();
    assert(scan_text(t).keys =~= keys_below(keys, Key::Hash.mask() as int));
    assert(t + glyph(keys, Key::Hash) =~= glyph(keys, Key::Hash));
    lemma_scan_plain_key(keys, t, Key::Hash, false);
    let t = t + glyph(keys, Key::Hash);
    lemma_scan_left_key(keys, t, Key::S, Key::RS);
    let t = t + glyph(keys, Key::S);
    lemma_scan_left_key(keys, t, Key::T, Key::RT);
    let t = t + glyph(keys, Key::T);
    lemma_scan_plain_key(keys, t, Key::K, false);
    let t = t + glyph(keys, Key::K);
    lemma_scan_left_key(keys, t, Key::P, Key::RP);
    let t = t + glyph(keys, Key::P);
    lemma_scan_plain_key(keys, t, Key::W, false);
    let t = t + glyph(keys, Key::W);
}

proof fn lemma_scan_left_text(keys: Set<Key>)
    ensures
        scan_text(left_text(keys)).keys == keys_below(keys, Key::E.mask() as int),
        !scan_text(left_text(keys)).right,
{
    lemma_scan_first_keys(keys);
    let t = first_text(keys);
    lemma_scan_plain_key(keys, t, Key::H, false);
    let t = t + glyph(keys, Key::H);
    lemma_scan_left_key(keys, t, Key::R, Key::RR);
    let t = t + glyph(keys, Key::R);
    lemma_scan_plain_key(keys, t, Key::A, false);
    let t = t + glyph(keys, Key::A);
    lemma_scan_plain_key(keys, t, Key::O, false);
    let t = t + glyph(keys, Key::O);
    lemma_scan_plain_key(keys, t, Key::Star, false);
    let t = t + glyph(keys, Key::Star);
}

proof fn lemma_scan_middle_text(keys: Set<Key>, text: Seq<char>)
    requires
        scan_text(text).keys == keys_below(keys, Key::E.mask() as int),
        scan_text(text).right == needs_dash(keys),
    ensures
        scan_text(with_middle_text(keys, text)).keys == keys_below(keys, Key::RT.mask() as int),
        scan_text(with_middle_text(keys, text)).right == needs_dash(keys),
{
    let t = text;
    lemma_scan_plain_key(keys, t, Key::E, needs_dash(keys));
    let t = t + glyph(keys, Key::E);
    lemma_scan_plain_key(keys, t, Key::U, needs_dash(keys));
    let t = t + glyph(keys, Key::U);
    lemma_scan_plain_key(keys, t, Key::F, needs_dash(keys));
    let t = t + glyph(keys, Key::F);
    lemma_scan_right_key(keys, t, Key::R, Key::RR);
    let t = t + glyph(keys, Key::RR);
    lemma_scan_right_key(keys, t, Key::P, Key::RP);
    let t = t + glyph(keys, Key::RP);
    lemma_scan_plain_key(keys, t, Key::B, needs_dash(keys));
    let t = t + glyph(keys, Key::B);
    lemma_scan_plain_key(keys, t, Key::L, needs_dash(keys));
    let t = t + glyph(keys, Key::L);
    lemma_scan_plain_key(keys, t, Key::G, needs_dash(keys));
    let t = t + glyph(keys, Key::G);
}

proof fn lemma_scan_last_text(keys: Set<Key>, text: Seq<char>)
    requires
        scan_text(text).keys == keys_below(keys, Key::RT.mask() as int),
        scan_text(text).right == needs_dash(keys),
    ensures
        scan_text(with_last_text(keys, text)).keys == keys,
{
    let t = text;
    lemma_scan_right_key(keys, t, Key::T, Key::RT);
    let t = t + glyph(keys, Key::RT);
    lemma_scan_right_key(keys, t, Key::S, Key::RS);
    let t = t + glyph(keys, Key::RS);
    lemma_scan_plain_key(keys, t, Key::D, needs_dash(keys));
    let t = t + glyph(keys, Key::D);
    lemma_scan_plain_key(keys, t, Key::Z, needs_dash(keys));
    let t = t + glyph(keys, Key::Z);
    assert(keys_below(keys, 2 * Key::Z.mask()) =~= keys);
}

/// Reading what was written gives back the keys: for every set of keys, the
/// reader takes its writing for exactly that set.
pub proof fn lemma_parse_render_round_trip(keys: Set<Key>)
    ensures
        parse_keys(render_keys(keys)) == keys,
{
    lemma_scan_left_text(keys);
    lemma_scan_dash(keys, left_text(keys));
    let dashed = left_text(keys) + dash(keys);
    lemma_scan_middle_text(keys, dashed);
    lemma_scan_last_text(keys, with_middle_text(keys, dashed));
    assert(render_keys(keys) == with_last_text(keys, with_middle_text(keys, dashed)));
}

/// Whether `text` holds no slash, the mark that stands between the strokes of
/// an outline.
pub open spec fn has_no_slash(text: Seq<char>) -> bool {
    forall|i: int| 0 <= i < text.len() ==> text[i] != '/'
}

proof fn lemma_no_slash_after(text: Seq<char>, piece: Seq<char>)
    requires
        has_no_slash(text),
        piece.len() <= 1,
        piece.len() == 1 ==> piece[0] != '/',
    ensures
        has_no_slash(text + piece),
{
}

proof fn lemma_no_slash_in_left_text(keys: Set<Key>)
    ensures
        has_no_slash(first_text(keys)),
        has_no_slash(left_text(keys)),
{
    let t = glyph(keys, Key::Hash);
    lemma_no_slash_after(t, glyph(keys, Key::S));
    let t = t + glyph(keys, Key::S);
    lemma_no_slash_after(t, glyph(keys, Key::T));
    let t = t + glyph(keys, Key::T);
    lemma_no_slash_after(t, glyph(keys, Key::K));
    let t = t + glyph(keys, Key::K);
    lemma_no_slash_after(t, glyph(keys, Key::P));
    let t = t + glyph(keys, Key::P);
    lemma_no_slash_after(t, glyph(keys, Key::W));
    let t = t + glyph(keys, Key::W);
    assert(t == first_text(keys));
    lemma_no_slash_after(t, glyph(keys, Key::H));
    let t = t + glyph(keys, Key::H);
    lemma_no_slash_after(t, glyph(keys, Key::R));
    let t = t + glyph(keys, Key::R);
    lemma_no_slash_after(t, glyph(keys, Key::A));
    let t = t + glyph(keys, Key::A);
    lemma_no_slash_after(t, glyph(keys, Key::O));
    let t = t + glyph(keys, Key::O);
    lemma_no_slash_after(t, glyph(keys, Key::Star));
    let t = t + glyph(keys, Key::Star);
}

proof fn lemma_no_slash_in_middle_text(keys: Set<Key>, text: Seq<char>)
    requires
        has_no_slash(text),
    ensures
        has_no_slash(with_middle_text(keys, text)),
{
    let t = text;
    lemma_no_slash_after(t, glyph(keys, Key::E));
    let t = t + glyph(keys, Key::E);
    lemma_no_slash_after(t, glyph(keys, Key::U));
    let t = t + glyph(keys, Key::U);
    lemma_no_slash_after(t, glyph(keys, Key::F));
    let t = t + glyph(keys, Key::F);
    lemma_no_slash_after(t, glyph(keys, Key::RR));
    let t = t + glyph(keys, Key::RR);
    lemma_no_slash_after(t, glyph(keys, Key::RP));
    let t = t + glyph(keys, Key::RP);
    lemma_no_slash_after(t, glyph(keys, Key::B));
    let t = t + glyph(keys, Key::B);
    lemma_no_slash_after(t, glyph(keys, Key::L));
    let t = t + glyph(keys, Key::L);
    lemma_no_slash_after(t, glyph(keys, Key::G));
    let t = t + glyph(keys, Key::G);
}

proof fn lemma_no_slash_in_last_text(keys: Set<Key>, text: Seq<char>)
    requires
        has_no_slash(text),
    ensures
        has_no_slash(with_last_text(keys, text)),
{
    let t = text;
    lemma_no_slash_after(t, glyph(keys, Key::RT));
    let t = t + glyph(keys, Key::RT);
    lemma_no_slash_after(t, glyph(keys, Key::RS));
    let t = t + glyph(keys, Key::RS);
    lemma_no_slash_after(t, glyph(keys, Key::D));
    let t = t + glyph(keys, Key::D);
    lemma_no_slash_after(t, glyph(keys, Key::Z));
    let t = t + glyph(keys, Key::Z);
}

/// The writing of a stroke holds no slash.
pub proof fn lemma_writing_has_no_slash(keys: Set<Key>)
    ensures
        has_no_slash(render_keys(keys)),
{
    lemma_no_slash_in_left_text(keys);
    lemma_no_slash_after(left_text(keys), dash(keys));
    let dashed = left_text(keys) + dash(keys);
    lemma_no_slash_in_middle_text(keys, dashed);
    lemma_no_slash_in_last_text(keys, with_middle_text(keys, dashed));
    assert(render_keys(keys) == with_last_text(keys, with_middle_text(keys, dashed)));
}

} // verus!
