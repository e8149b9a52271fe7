//! The bytes under which a dictionary stores an outline in a prefix trie.
//!
//! Each stroke gives four bytes, so a stroke never ends within a byte run of
//! another: one encoding is the start of another exactly when the one outline
//! is the start of the other.

use crate::key::{bit_value, lemma_bit_value_injective, lemma_keys_of_bit_value, Key};
use crate::outline::{key_sets, Outline};
use vstd::prelude::*;

verus! {

/// The four bytes of a 32-bit number, the most significant first.
pub open spec fn be_bytes(value: u32) -> Seq<u8> {
    seq![
        (value / 0x100_0000) as u8,
        (value / 0x1_0000 % 0x100) as u8,
        (value / 0x100 % 0x100) as u8,
        (value % 0x100) as u8,
    ]
}

/// The bytes of one stroke: those of its bit vector.
pub open spec fn encode_stroke(keys: Set<Key>) -> Seq<u8> {
    be_bytes(bit_value(keys) as u32)
}

/// The pieces one after the other.
pub open spec fn join_bytes(pieces: Seq<Seq<u8>>) -> Seq<u8>
    decreases pieces.len(),
{
    if pieces.len() == 0 {
        Seq::empty()
    } else {
        join_bytes(pieces.drop_last()) + pieces.last()
    }
}

/// The bytes of an outline: those of its strokes, one after the other.
pub open spec fn encode_outline(strokes: Seq<Set<Key>>) -> Seq<u8> {
    join_bytes(strokes.map_values(|keys: Set<Key>| encode_stroke(keys)))
}

/// The bytes under which `radix_trie` files a `u32`.
///
/// This calls `TrieKey::encode_bytes`, which `radix_trie` implements for
/// `u32`. That the result is the number's four bytes in big-endian order is
/// taken from that crate and not proved here.
#[verifier::external_body]
fn u32_key_bytes(value: u32) -> (r: Vec<u8>)
    ensures
        r@ == be_bytes(value),
{
    radix_trie::TrieKey::encode_bytes(&value)
}

impl Outline {
    /// The bytes under which a trie stores the outline: four for each stroke.
    pub fn encode_bytes(&self) -> (r: Vec<u8>)
        ensures
            r@ == encode_outline(self@),
            r@.len() == 4 * self@.len(),
    {
        let strokes = self.strokes();
        let mut bytes: Vec<u8> = Vec::new();
        let mut i: usize = 0;
        while i < strokes.len()
            invariant
                i <= strokes.len(),
                key_sets(strokes@) == self@,
                bytes@ == encode_outline(self@.take(i as int)),
            decreases strokes.len() - i,
        {
            let mut piece = u32_key_bytes(strokes[i].bits());
            proof {
                let upto = self@.take(i + 1);
                assert(upto.drop_last() =~= self@.take(i as int));
                assert(upto.last() == strokes[i as int]@);
                assert(piece@ == encode_stroke(upto.last()));
                lemma_encode_push(upto.drop_last(), upto.last());
                assert(upto.drop_last().push(upto.last()) =~= upto);
            }
            bytes.append(&mut piece);
            i += 1;
        }
        proof {
            assert(self@.take(i as int) =~= self@);
            lemma_encoding_is_aligned(self@);
        }
        bytes
    }
}

/// Whether each piece has four bytes.
spec fn four_wide(pieces: Seq<Seq<u8>>) -> bool {
    forall|j: int| 0 <= j < pieces.len() ==> (#[trigger] pieces[j]).len() == 4
}

proof fn lemma_join_is_aligned(pieces: Seq<Seq<u8>>)
    requires
        four_wide(pieces),
    ensures
        join_bytes(pieces).len() == 4 * pieces.len(),
        forall|i: int|
            0 <= i < 4 * pieces.len() ==> #[trigger] join_bytes(pieces)[i] == pieces[i / 4][i % 4],
    decreases pieces.len(),
{
    if pieces.len() > 0 {
        let front = pieces.drop_last();
        assert(four_wide(front)) by {
            assert forall|j: int| 0 <= j < front.len() implies (#[trigger] front[j]).len()
                == 4 by {
                assert(front[j] == pieces[j]);
            }
        }
        lemma_join_is_aligned(front);
        assert(pieces.last().len() == 4);
        assert forall|i: int| 0 <= i < 4 * pieces.len() implies #[trigger] join_bytes(pieces)[i]
            == pieces[i / 4][i % 4] by {
            if i < 4 * front.len() {
                assert(front[i / 4] == pieces[i / 4]);
            } else {
                assert(i / 4 == pieces.len() - 1);
                assert(i % 4 == i - 4 * front.len());
            }
        }
    }
}

proof fn lemma_join_prefix(p: Seq<Seq<u8>>, q: Seq<Seq<u8>>)
    requires
        four_wide(p),
        four_wide(q),
    ensures
        p.is_prefix_of(q) <==> join_bytes(p).is_prefix_of(join_bytes(q)),
{
    let jp = join_bytes(p);
    let jq = join_bytes(q);
    lemma_join_is_aligned(p);
    lemma_join_is_aligned(q);
    if p.is_prefix_of(q) {
        assert forall|i: int| 0 <= i < jp.len() implies jp[i] == jq[i] by {
            assert(p[i / 4] == q.subrange(0, p.len() as int)[i / 4]);
        }
        assert(jp =~= jq.subrange(0, jp.len() as int));
    }
    if jp.is_prefix_of(jq) {
        assert forall|j: int| 0 <= j < p.len() implies p[j] == q[j] by {
            assert forall|m: int| 0 <= m < 4 implies p[j][m] == q[j][m] by {
                let i = 4 * j + m;
                assert(i / 4 == j && i % 4 == m);
                assert(jp[i] == jq.subrange(0, jp.len() as int)[i]);
            }
            assert(p[j].len() == 4 && q[j].len() == 4);
            assert(p[j] =~= q[j]);
        }
        assert(p =~= q.subrange(0, p.len() as int));
    }
}

proof fn lemma_bytes_give_number(a: u32, b: u32)
    by (bit_vector)
    requires
        a / 0x100_0000u32 == b / 0x100_0000u32,
        a / 0x1_0000u32 % 0x100u32 == b / 0x1_0000u32 % 0x100u32,
        a / 0x100u32 % 0x100u32 == b / 0x100u32 % 0x100u32,
        a % 0x100u32 == b % 0x100u32,
    ensures
        a == b,
{
}

proof fn lemma_be_bytes_injective(a: u32, b: u32)
    requires
        be_bytes(a) == be_bytes(b),
    ensures
        a == b,
{
    assert(be_bytes(a)[0] == be_bytes(b)[0]);
    assert(be_bytes(a)[1] == be_bytes(b)[1]);
    assert(be_bytes(a)[2] == be_bytes(b)[2]);
    assert(be_bytes(a)[3] == be_bytes(b)[3]);
    assert(a / 0x100_0000u32 < 0x100 && b / 0x100_0000u32 < 0x100);
    lemma_bytes_give_number(a, b);
}

/// Two strokes with the same bytes hold the same keys.
pub proof fn lemma_encode_stroke_injective(a: Set<Key>, b: Set<Key>)
    requires
        encode_stroke(a) == encode_stroke(b),
    ensures
        a == b,
{
    lemma_keys_of_bit_value(a);
    lemma_keys_of_bit_value(b);
    lemma_be_bytes_injective(bit_value(a) as u32, bit_value(b) as u32);
    lemma_bit_value_injective(a, b);
}

spec fn pieces(strokes: Seq<Set<Key>>) -> Seq<Seq<u8>> {
    strokes.map_values(|keys: Set<Key>| encode_stroke(keys))
}

proof fn lemma_be_bytes_len(value: u32)
    ensures
        be_bytes(value).len() == 4,
{
}

proof fn lemma_stroke_width(keys: Set<Key>)
    ensures
        encode_stroke(keys).len() == 4,
{
    lemma_be_bytes_len(bit_value(keys) as u32);
}

proof fn lemma_pieces(strokes: Seq<Set<Key>>)
    ensures
        four_wide(pieces(strokes)),
{
    assert forall|j: int| 0 <= j < strokes.len() implies (#[trigger] pieces(strokes)[j]).len()
        == 4 by {
        lemma_stroke_width(strokes[j]);
    }
}

proof fn lemma_encode_push(strokes: Seq<Set<Key>>, keys: Set<Key>)
    ensures
        encode_outline(strokes.push(keys)) == encode_outline(strokes) + encode_stroke(keys),
{
    assert(pieces(strokes.push(keys)).drop_last() =~= pieces(strokes));
}

/// An outline of `n` strokes has `4 * n` bytes, and the byte at `i` is byte
/// `i % 4` of stroke `i / 4`.
pub proof fn lemma_encoding_is_aligned(strokes: Seq<Set<Key>>)
    ensures
        encode_outline(strokes).len() == 4 * strokes.len(),
        forall|i: int|
            0 <= i < 4 * strokes.len() ==> #[trigger] encode_outline(strokes)[i] == encode_stroke(
                strokes[i / 4],
            )[i % 4],
{
    lemma_pieces(strokes);
    lemma_join_is_aligned(pieces(strokes));
    assert forall|i: int| 0 <= i < 4 * strokes.len() implies #[trigger] encode_outline(
        strokes,
    )[i] == encode_stroke(strokes[i / 4])[i % 4] by {
        assert(pieces(strokes)[i / 4] == encode_stroke(strokes[i / 4]));
    }
}

/// One outline is the start of another exactly when its encoding is the
/// start of the other's encoding, and two outlines are the same exactly when
/// their encodings are. So the encoding of a proper start of an outline is a
/// proper start of that outline's encoding, and of two outlines of which
/// neither is the start of the other, neither encoding is the start of the
/// other.
pub proof fn lemma_prefix_iff_encoded_prefix(a: Seq<Set<Key>>, b: Seq<Set<Key>>)
    ensures
        a.is_prefix_of(b) <==> encode_outline(a).is_prefix_of(encode_outline(b)),
        a == b <==> encode_outline(a) == encode_outline(b),
{
    lemma_pieces(a);
    lemma_pieces(b);
    lemma_join_prefix(pieces(a), pieces(b));
    lemma_join_is_aligned(pieces(a));
    lemma_join_is_aligned(pieces(b));
    if a.is_prefix_of(b) {
        assert(pieces(a) =~= pieces(b).subrange(0, a.len() as int)) by {
            assert forall|j: int| 0 <= j < a.len() implies pieces(a)[j] == pieces(b)[j] by {
                assert(a[j] == b.subrange(0, a.len() as int)[j]);
            }
        }
    }
    if pieces(a).is_prefix_of(pieces(b)) {
        assert forall|j: int| 0 <= j < a.len() implies a[j] == b[j] by {
            assert(pieces(a)[j] == pieces(b).subrange(0, a.len() as int)[j]);
            lemma_encode_stroke_injective(a[j], b[j]);
        }
        assert(a =~= b.subrange(0, a.len() as int));
    }
    if encode_outline(a) == encode_outline(b) {
        assert(encode_outline(a).is_prefix_of(encode_outline(b)));
        assert(a =~= b);
    }
}

} // verus!
