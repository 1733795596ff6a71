//! Reading the tones of a word back out of its annotated characters.

use crate::annotate::fragments;
use crate::dict::{tone_at, Pronunciation, Tone};
use crate::hanzi::all_hanzi;
use crate::markup::{lemma_span_open_shape, SPAN_CLOSE, SPAN_MID, SPAN_OPEN};
use vstd::prelude::*;
use vstd::string::*;

verus! {

/// The tones that the spans in `markup` name, in order: one for each digit
/// of a tone that stands directly behind the opening of a span.
pub open spec fn span_tones(markup: Seq<char>) -> Seq<Tone>
    decreases markup.len(),
{
    if markup.len() == 0 {
        Seq::empty()
    } else {
        let before = span_tones(markup.drop_last());
        match Tone::of_digit(markup.last()) {
            Some(t) => if SPAN_OPEN@.is_suffix_of(markup.drop_last()) {
                before.push(t)
            } else {
                before
            },
            None => before,
        }
    }
}

/// No character of `s` is the digit of a tone.
pub open spec fn no_tone_digit(s: Seq<char>) -> bool {
    forall|i: int| 0 <= i < s.len() ==> Tone::of_digit(#[trigger] s[i]) is None
}

/// Whether the characters read so far end with `suffix`.
fn ends_with(seen: &Vec<char>, suffix: &str) -> (r: bool)
    ensures
        r == suffix@.is_suffix_of(seen@),
{
    let n: usize = suffix.unicode_len();
    let len: usize = seen.len();
    if len < n {
        return false;
    }
    let start: usize = len - n;
    let mut i: usize = 0;
    while i < n
        invariant
            i <= n,
            n == suffix@.len(),
            len == seen@.len(),
            start == len - n,
            forall|j: int| 0 <= j < i ==> seen@[start + j] == suffix@[j],
        decreases n - i,
    {
        if seen[start + i] != suffix.get_char(i) {
            return false;
        }
        i += 1;
    }
    true
}

/// Reads the tones that the spans in `markup` name: for each
/// `<span class="toneN"` with a class N from 1 to 5 the tone of that class,
/// in the order of the spans.
pub fn read_tones(markup: &str) -> (p: Pronunciation)
    ensures
        p@ == span_tones(markup@),
{
    let mut seen: Vec<char> = Vec::new();
    let mut tones: Vec<Tone> = Vec::new();
    for c in it: markup.chars()
        invariant
            it.seq() == markup@,
            seen@ == it.seq().take(it.index() as int),
            tones@ == span_tones(seen@),
    {
        let ghost before = seen@;
        match Tone::from_digit(c) {
            Some(t) => {
                if ends_with(&seen, SPAN_OPEN) {
                    tones.push(t);
                }
            },
            None => {},
        }
        seen.push(c);
        assert(seen@.drop_last() =~= before);
    }
    assert(markup@.take(markup@.len() as int) =~= markup@);
    Pronunciation::new(tones)
}

/// Characters without the digit of a tone name no tone.
pub proof fn lemma_span_tones_skip(a: Seq<char>, b: Seq<char>)
    requires
        no_tone_digit(b),
    ensures
        span_tones(a + b) == span_tones(a),
    decreases b.len(),
{
    if b.len() > 0 {
        assert((a + b).drop_last() =~= a + b.drop_last());
        lemma_span_tones_skip(a, b.drop_last());
    }
}

/// The opening of a span with the digit of a tone behind it names that
/// tone.
pub proof fn lemma_span_tones_open(a: Seq<char>, t: Tone)
    ensures
        span_tones(a + SPAN_OPEN@ + seq![t.digit()]) == span_tones(a).push(t),
{
    lemma_span_open_shape();
    assert((a + SPAN_OPEN@ + seq![t.digit()]).drop_last() =~= a + SPAN_OPEN@);
    lemma_span_tones_skip(a, SPAN_OPEN@);
}

/// Reading gives back what the annotator wrote: from the annotated
/// characters of a Chinese word, the tones by which they were coloured.
pub proof fn lemma_read_back(word: Seq<char>, tones: Seq<Tone>)
    requires
        all_hanzi(word),
    ensures
        span_tones(fragments(word, tones)) == tones.take(
            if word.len() <= tones.len() {
                word.len() as int
            } else {
                tones.len() as int
            },
        ),
    decreases word.len(),
{
    if word.len() > 0 {
        let shorter = word.drop_last();
        let c = word.last();
        let before = fragments(shorter, tones);
        lemma_read_back(shorter, tones);
        match tone_at(tones, word.len() - 1) {
            Some(t) => {
                let behind = SPAN_MID@ + seq![c] + SPAN_CLOSE@;
                assert(no_tone_digit(behind)) by {
                    reveal_strlit("\">");
                    reveal_strlit("</span>");
                }
                assert(fragments(word, tones) =~= (before + SPAN_OPEN@ + seq![t.digit()]) + behind);
                lemma_span_tones_skip(before + SPAN_OPEN@ + seq![t.digit()], behind);
                lemma_span_tones_open(before, t);
            },
            None => {
                lemma_span_tones_skip(before, seq![c]);
            },
        }
    }
}

} // verus!
