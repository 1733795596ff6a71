//! The annotator: renders one Chinese run as a lookup link with tone colours.

use crate::dict::{tone_at, Pronunciation, Tone};
use crate::markup::{LINK_CLOSE, LINK_MID, LINK_OPEN, SPAN_CLOSE, SPAN_MID, SPAN_OPEN};
use vstd::prelude::*;
use vstd::string::*;

verus! {

/// One character as the annotation shows it: inside a span of its tone's
/// class if it has a tone, bare otherwise.
pub open spec fn fragment(c: char, tone: Option<Tone>) -> Seq<char> {
    match tone {
        Some(t) => SPAN_OPEN@ + seq![t.digit()] + SPAN_MID@ + seq![c] + SPAN_CLOSE@,
        None => seq![c],
    }
}

/// The characters of `word` as the annotation shows them: the character at
/// each position with the tone that `tones` has for that position.
pub open spec fn fragments(word: Seq<char>, tones: Seq<Tone>) -> Seq<char>
    decreases word.len(),
{
    if word.len() == 0 {
        Seq::empty()
    } else {
        fragments(word.drop_last(), tones) + fragment(
            word.last(),
            tone_at(tones, word.len() - 1),
        )
    }
}

/// The tones by which a word is coloured: those of its first sense, none if
/// it has no sense.
pub open spec fn first_sense(senses: Seq<Seq<Tone>>) -> Seq<Tone> {
    if senses.len() > 0 {
        senses[0]
    } else {
        Seq::empty()
    }
}

/// The annotation of `word`: a link that looks the word up, around the
/// characters of the word in the colours of its first sense.
pub open spec fn annotation(word: Seq<char>, senses: Seq<Seq<Tone>>) -> Seq<char> {
    LINK_OPEN@ + word + LINK_MID@ + fragments(word, first_sense(senses)) + LINK_CLOSE@
}

/// The senses in a lookup result: none where the lookup found nothing.
pub open spec fn found_senses(found: Option<&Vec<Pronunciation>>) -> Seq<Seq<Tone>> {
    match found {
        Some(senses) => senses.deep_view(),
        None => Seq::empty(),
    }
}

/// Renders `word` as `<a href="plecoapi://x-callback-url/s?q={word}"
/// style="text-decoration:none">{characters}</a>`. `found` is what the
/// dictionary has for the word. Only its first sense counts: a character for
/// whose position that sense has a tone of class N is written as
/// `<span class="toneN">{character}</span>`, any other character as it is.
pub fn annotate(word: &str, found: Option<&Vec<Pronunciation>>) -> (markup: String)
    ensures
        markup@ == annotation(word@, found_senses(found)),
{
    let ghost tones = first_sense(found_senses(found));
    let mut out = String::new();
    out.append(LINK_OPEN);
    out.append(word);
    out.append(LINK_MID);
    let ghost head = out@;
    let limit: usize = match found {
        Some(senses) => if senses.len() > 0 {
            senses[0].len()
        } else {
            0
        },
        None => 0,
    };
    let mut j: usize = 0;
    for c in it: word.chars()
        invariant
            it.seq() == word@,
            tones == first_sense(found_senses(found)),
            limit == tones.len(),
            j <= limit,
            j == it.index() || (j == limit && j < it.index()),
            out@ == head + fragments(word@.take(it.index() as int), tones),
    {
        let tone = match found {
            Some(senses) => if senses.len() > 0 {
                senses[0].tone_at(j)
            } else {
                None
            },
            None => None,
        };
        match tone {
            Some(t) => {
                out.append(SPAN_OPEN);
                out.push(t.to_digit());
                out.append(SPAN_MID);
                out.push(c);
                out.append(SPAN_CLOSE);
                j += 1;
            },
            None => {
                out.push(c);
            },
        }
        assert(word@.take(it.index() + 1).drop_last() =~= word@.take(it.index() as int));
    }
    out.append(LINK_CLOSE);
    assert(word@.take(word@.len() as int) =~= word@);
    out
}

} // verus!
