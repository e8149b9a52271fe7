//! An outline: the strokes that spell one dictionary entry, in the order in
//! which they are struck.

use crate::error::Error;
use crate::key::Key;
use crate::notation::{
    has_no_slash, lemma_parse_render_round_trip, lemma_writing_has_no_slash, parse_keys, read_char,
    render_keys, scan_text,
};
use crate::stroke::Stroke;
use vstd::prelude::*;
use vstd::string::StringExecFns;

verus! {

/// The key sets of a sequence of strokes.
pub open spec fn key_sets(strokes: Seq<Stroke>) -> Seq<Set<Key>> {
    strokes.map_values(|stroke: Stroke| stroke@)
}

/// The writing of an outline: the writings of its strokes in order, with a
/// slash between one and the next.
pub open spec fn render_outline(strokes: Seq<Set<Key>>) -> Seq<char>
    decreases strokes.len(),
{
    if strokes.len() == 0 {
        Seq::empty()
    } else if strokes.len() == 1 {
        render_keys(strokes[0])
    } else {
        render_outline(strokes.drop_last()) + seq!['/'] + render_keys(strokes.last())
    }
}

/// The pieces of `text` between its slashes: one more than it has slashes,
/// so a text without a slash is one piece, and so is the empty text.
pub open spec fn segments(text: Seq<char>) -> Seq<Seq<char>>
    decreases text.len(),
{
    if text.len() == 0 {
        seq![Seq::empty()]
    } else {
        let before = segments(text.drop_last());
        if text.last() == '/' {
            before.push(Seq::empty())
        } else {
            before.update(before.len() - 1, before.last().push(text.last()))
        }
    }
}

/// The outline that `text` is read as: each piece between slashes read as a
/// stroke.
pub open spec fn parse_outline(text: Seq<char>) -> Seq<Set<Key>> {
    segments(text).map_values(|piece: Seq<char>| parse_keys(piece))
}

proof fn lemma_segments_of_piece(text: Seq<char>)
    requires
        has_no_slash(text),
    ensures
        segments(text) == seq![text],
    decreases text.len(),
{
    if text.len() > 0 {
        lemma_segments_of_piece(text.drop_last());
        assert(text.drop_last().push(text.last()) =~= text);
        assert(segments(text) =~= seq![text]);
    } else {
        assert(text =~= Seq::<char>::empty());
    }
}

proof fn lemma_segments_after_slash(head: Seq<char>, piece: Seq<char>)
    requires
        has_no_slash(piece),
    ensures
        segments(head + seq!['/'] + piece) == segments(head).push(piece),
    decreases piece.len(),
{
    let text = head + seq!['/'] + piece;
    if piece.len() == 0 {
        assert(text.drop_last() =~= head);
        assert(piece =~= Seq::<char>::empty());
    } else {
        lemma_segments_after_slash(head, piece.drop_last());
        assert(text.drop_last() =~= head + seq!['/'] + piece.drop_last());
        assert(piece.drop_last().push(piece.last()) =~= piece);
        assert(segments(text) =~= segments(head).push(piece));
    }
}

/// Reading what was written gives back the outline, if it has a stroke. (The
/// outline without a stroke is written as the empty text, which is read as
/// one stroke without a key.)
pub proof fn lemma_parse_render_outline_round_trip(strokes: Seq<Set<Key>>)
    requires
        strokes.len() >= 1,
    ensures
        parse_outline(render_outline(strokes)) == strokes,
    decreases strokes.len(),
{
    let last = render_keys(strokes.last());
    lemma_writing_has_no_slash(strokes.last());
    lemma_parse_render_round_trip(strokes.last());
    if strokes.len() == 1 {
        lemma_segments_of_piece(last);
        assert(parse_outline(render_outline(strokes)) =~= strokes);
    } else {
        let front = strokes.drop_last();
        lemma_parse_render_outline_round_trip(front);
        lemma_segments_after_slash(render_outline(front), last);
        assert(parse_outline(render_outline(strokes)) =~= parse_outline(
            render_outline(front),
        ).push(parse_keys(last)));
        assert(front.push(strokes.last()) =~= strokes);
    }
}

/// A sequence of strokes. The same stroke may stand in it more than once, and
/// two outlines are equal when they hold the same strokes in the same order.
#[derive(Debug, Hash)]
pub struct Outline(Vec<Stroke>);

impl View for Outline {
    type V = Seq<Set<Key>>;

    closed spec fn view(&self) -> Seq<Set<Key>> {
        key_sets(self.0@)
    }
}

impl Outline {
    /// The outline without a stroke.
    pub fn new() -> (r: Outline)
        ensures
            r@ == Seq::<Set<Key>>::empty(),
    {
        let r = Outline(Vec::new());
        assert(r@ =~= Seq::<Set<Key>>::empty());
        r
    }

    /// Puts a stroke at the end.
    pub fn push(&mut self, stroke: Stroke)
        ensures
            final(self)@ == old(self)@.push(stroke@),
    {
        self.0.push(stroke);
        assert(self@ =~= old(self)@.push(stroke@));
    }

    /// Takes the last stroke off and returns it. An outline without a stroke
    /// stays as it is, and nothing is returned.
    pub fn pop(&mut self) -> (r: Option<Stroke>)
        ensures
            old(self)@.len() == 0 ==> r is None && final(self)@ == old(self)@,
            old(self)@.len() > 0 ==> final(self)@ == old(self)@.drop_last() && (r matches Some(
                stroke,
            ) && stroke@ == old(self)@.last()),
    {
        let r = self.0.pop();
        assert(old(self)@.len() > 0 ==> self@ =~= old(self)@.drop_last());
        r
    }

    /// Takes the last stroke off and returns it as an outline of its own. What
    /// stood before it stays; of an outline of one stroke nothing stays.
    pub fn split(&mut self) -> (r: Outline)
        requires
            old(self)@.len() >= 1,
        ensures
            r@ == seq![old(self)@.last()],
            final(self)@ == old(self)@.drop_last(),
    {
        let split_at = self.0.len() - 1;
        let new = self.0.split_off(split_at);
        assert(self@ =~= old(self)@.drop_last());
        assert(key_sets(new@) =~= seq![old(self)@.last()]);
        Outline::from(new)
    }

    /// Drops every stroke but the last.
    pub fn compact(&mut self)
        requires
            old(self)@.len() >= 1,
        ensures
            final(self)@ == seq![old(self)@.last()],
    {
        let split_at = self.0.len() - 1;
        let last = self.0.split_off(split_at);
        self.0 = last;
        assert(self@ =~= seq![old(self)@.last()]);
    }

    /// Whether the outline has more than one stroke.
    pub fn is_multistroke(&self) -> (r: bool)
        ensures
            r == (self@.len() > 1),
    {
        self.0.len() > 1
    }

    /// Whether the outline has no stroke.
    pub fn is_empty(&self) -> (r: bool)
        ensures
            r == (self@.len() == 0),
    {
        self.0.is_empty()
    }

    /// The outline in steno notation. Read back, the notation of an outline
    /// that has a stroke gives the outline again.
    pub fn raw_steno(&self) -> (r: String)
        ensures
            r@ == render_outline(self@),
            self@.len() >= 1 ==> parse_outline(r@) == self@,
    {
        let mut raw = String::new();
        let mut i: usize = 0;
        while i < self.0.len()
            invariant
                i <= self.0.len(),
                raw@ == render_outline(self@.take(i as int)),
            decreases self.0.len() - i,
        {
            let written = self.0[i].raw_steno();
            proof {
                let upto = self@.take(i + 1);
                assert(upto.drop_last() =~= self@.take(i as int));
                assert(upto.last() == self@[i as int]);
                reveal_strlit("/");
                assert("/"@ =~= seq!['/']);
                if i == 0 {
                    assert(Seq::<char>::empty() + written@ =~= written@);
                }
            }
            if i > 0 {
                raw.append("/");
            }
            raw.append(written.as_str());
            i += 1;
        }
        proof {
            assert(self@.take(i as int) =~= self@);
            if self@.len() >= 1 {
                lemma_parse_render_outline_round_trip(self@);
            }
        }
        raw
    }

    /// The strokes of the outline.
    pub fn strokes(&self) -> (r: &[Stroke])
        ensures
            key_sets(r@) == self@,
    {
        self.0.as_slice()
    }
}

impl From<Vec<Stroke>> for Outline {
    /// The outline of the given strokes.
    fn from(strokes: Vec<Stroke>) -> (r: Outline)
        ensures
            r@ == key_sets(strokes@),
    {
        Outline(strokes)
    }
}

impl vstd::std_specs::convert::FromSpecImpl<Vec<Stroke>> for Outline {
    open spec fn obeys_from_spec() -> bool {
        true
    }

    closed spec fn from_spec(strokes: Vec<Stroke>) -> Outline {
        Outline(strokes)
    }
}

impl core::str::FromStr for Outline {
    type Err = Error;

    /// Reads an outline from steno notation: strokes with slashes between
    /// them. No text is refused.
    fn from_str(s: &str) -> (r: Result<Outline, Error>)
        ensures
            r matches Ok(outline) && outline@ == parse_outline(s@),
    {
        let mut strokes: Vec<Stroke> = Vec::new();
        let mut stroke = Stroke::empty();
        let mut right = false;

        for c in it: s.chars()
            invariant
                it.seq() == s@,
                key_sets(strokes@) == parse_outline(s@.take(it.index())).drop_last(),
                stroke@ == scan_text(segments(s@.take(it.index())).last()).keys,
                right == scan_text(segments(s@.take(it.index())).last()).right,
                segments(s@.take(it.index())).len() >= 1,
        {
            let ghost read = s@.take(it.index());
            let ghost next = s@.take(it.index() + 1);
            assert(next.drop_last() =~= read);
            assert(next.last() == c);
            if c == '/' {
                let ghost old_stroke = stroke;
                strokes.push(stroke);
                stroke = Stroke::empty();
                right = false;
                assert(parse_outline(next).drop_last() =~= parse_outline(read));
                assert(parse_outline(read) =~= parse_outline(read).drop_last().push(
                    old_stroke@,
                ));
                assert(key_sets(strokes@) =~= parse_outline(read).drop_last().push(old_stroke@));
            } else {
                read_char(&mut stroke, &mut right, c);
                assert(segments(next).last().drop_last() =~= segments(read).last());
                assert(parse_outline(next).drop_last() =~= parse_outline(read).drop_last());
            }
        }
        assert(s@.take(s@.len() as int) =~= s@);
        strokes.push(stroke);
        assert(parse_outline(s@) =~= parse_outline(s@).drop_last().push(stroke@));
        assert(key_sets(strokes@) =~= parse_outline(s@).drop_last().push(stroke@));
        Ok(Outline::from(strokes))
    }
}

impl Default for Outline {
    /// The outline without a stroke.
    fn default() -> (r: Outline)
        ensures
            r@ == Seq::<Set<Key>>::empty(),
    {
        Outline::new()
    }
}

impl Clone for Outline {
    fn clone(&self) -> (r: Outline)
        ensures
            r@ == self@,
    {
        let strokes = self.0.clone();
        assert(key_sets(strokes@) =~= self@);
        Outline(strokes)
    }
}

impl PartialEq for Outline {
    fn eq(&self, other: &Outline) -> (r: bool) {
        if self.0.len() != other.0.len() {
            assert(self@.len() != other@.len());
            return false;
        }
        let mut i: usize = 0;
        while i < self.0.len()
            invariant
                i <= self.0.len(),
                self.0.len() == other.0.len(),
                forall|j: int| 0 <= j < i ==> self@[j] == other@[j],
            decreases self.0.len() - i,
        {
            if !(self.0[i] == other.0[i]) {
                assert(self@[i as int] != other@[i as int]);
                return false;
            }
            i += 1;
        }
        assert(self@ =~= other@);
        true
    }
}

impl vstd::std_specs::cmp::PartialEqSpecImpl for Outline {
    open spec fn obeys_eq_spec() -> bool {
        true
    }

    open spec fn eq_spec(&self, other: &Outline) -> bool {
        self@ == other@
    }
}

impl Eq for Outline {
}

} // verus!
