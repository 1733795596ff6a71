//! The transformed text taken apart: which of its characters were there
//! before, and which the transformation added.

use crate::annotate::{annotation, first_sense, fragment, fragments};
use crate::dict::{senses_of, tone_at, Lexicon, Tone};
use crate::filter::demoted;
use crate::markup::{LINK_CLOSE, LINK_MID, LINK_OPEN, SPAN_CLOSE, SPAN_MID, SPAN_OPEN};
use crate::run::{concat, segments_of, RunView};
use crate::transform::render;
use vstd::prelude::*;

verus! {

/// A piece of the transformed text.
pub enum Piece {
    /// Characters of the text that was transformed.
    Source(Seq<char>),
    /// Markup that the transformation added.
    Markup(Seq<char>),
}

impl Piece {
    /// The characters of the piece.
    pub open spec fn chars(self) -> Seq<char> {
        match self {
            Piece::Source(s) => s,
            Piece::Markup(s) => s,
        }
    }

    /// The characters of the piece that come from the source.
    pub open spec fn source_chars(self) -> Seq<char> {
        match self {
            Piece::Source(s) => s,
            Piece::Markup(_) => Seq::empty(),
        }
    }
}

/// All characters of the pieces, in order.
pub open spec fn spelled(pieces: Seq<Piece>) -> Seq<char>
    decreases pieces.len(),
{
    if pieces.len() == 0 {
        Seq::empty()
    } else {
        spelled(pieces.drop_last()) + pieces.last().chars()
    }
}

/// What is left of the pieces when the markup is stripped.
pub open spec fn stripped(pieces: Seq<Piece>) -> Seq<char>
    decreases pieces.len(),
{
    if pieces.len() == 0 {
        Seq::empty()
    } else {
        stripped(pieces.drop_last()) + pieces.last().source_chars()
    }
}

/// The pieces of one character of an annotation: the character itself, and
/// around it the span of its tone if it has one.
pub open spec fn fragment_pieces(c: char, tone: Option<Tone>) -> Seq<Piece> {
    match tone {
        Some(t) => seq![
            Piece::Markup(SPAN_OPEN@ + seq![t.digit()] + SPAN_MID@),
            Piece::Source(seq![c]),
            Piece::Markup(SPAN_CLOSE@),
        ],
        None => seq![Piece::Source(seq![c])],
    }
}

/// The pieces of the characters of an annotation.
pub open spec fn fragments_pieces(word: Seq<char>, tones: Seq<Tone>) -> Seq<Piece>
    decreases word.len(),
{
    if word.len() == 0 {
        Seq::empty()
    } else {
        fragments_pieces(word.drop_last(), tones) + fragment_pieces(
            word.last(),
            tone_at(tones, word.len() - 1),
        )
    }
}

/// The pieces of an annotation: the opening of the link with the lookup
/// query, the characters of the word with their spans, and the end of the
/// link.
pub open spec fn annotation_pieces(word: Seq<char>, senses: Seq<Seq<Tone>>) -> Seq<Piece> {
    seq![Piece::Markup(LINK_OPEN@ + word + LINK_MID@)] + fragments_pieces(
        word,
        first_sense(senses),
    ) + seq![Piece::Markup(LINK_CLOSE@)]
}

/// The pieces that a run becomes.
pub open spec fn run_pieces(run: RunView, lexicon: Lexicon) -> Seq<Piece> {
    if run.chinese {
        annotation_pieces(run.text, senses_of(lexicon, run.text))
    } else {
        seq![Piece::Source(run.text)]
    }
}

/// The pieces that the runs become.
pub open spec fn runs_pieces(runs: Seq<RunView>, lexicon: Lexicon) -> Seq<Piece>
    decreases runs.len(),
{
    if runs.len() == 0 {
        Seq::empty()
    } else {
        run_pieces(runs.first(), lexicon) + runs_pieces(runs.drop_first(), lexicon)
    }
}

/// The pieces of the transformed text.
pub open spec fn transform_pieces(text: Seq<char>, lexicon: Lexicon) -> Seq<Piece> {
    runs_pieces(demoted(segments_of(text)), lexicon)
}

/// Pieces one after the other spell their characters one after the other,
/// and leave behind what each leaves behind.
pub proof fn lemma_pieces_append(a: Seq<Piece>, b: Seq<Piece>)
    ensures
        spelled(a + b) == spelled(a) + spelled(b),
        stripped(a + b) == stripped(a) + stripped(b),
    decreases b.len(),
{
    if b.len() > 0 {
        lemma_pieces_append(a, b.drop_last());
        assert((a + b).drop_last() =~= a + b.drop_last());
    }
}

/// The pieces of one character spell what the annotation shows of it, and
/// leave the character behind.
pub proof fn lemma_fragment_pieces(c: char, tone: Option<Tone>)
    ensures
        spelled(fragment_pieces(c, tone)) == fragment(c, tone),
        stripped(fragment_pieces(c, tone)) == seq![c],
{
    reveal_with_fuel(spelled, 4);
    reveal_with_fuel(stripped, 4);
}

/// The pieces of the characters of an annotation spell them, and leave the
/// word behind.
pub proof fn lemma_fragments_pieces(word: Seq<char>, tones: Seq<Tone>)
    ensures
        spelled(fragments_pieces(word, tones)) == fragments(word, tones),
        stripped(fragments_pieces(word, tones)) == word,
    decreases word.len(),
{
    if word.len() > 0 {
        let tone = tone_at(tones, word.len() - 1);
        lemma_fragments_pieces(word.drop_last(), tones);
        lemma_fragment_pieces(word.last(), tone);
        lemma_pieces_append(
            fragments_pieces(word.drop_last(), tones),
            fragment_pieces(word.last(), tone),
        );
    }
}

/// The pieces of an annotation spell it, and leave the word behind.
pub proof fn lemma_annotation_pieces(word: Seq<char>, senses: Seq<Seq<Tone>>)
    ensures
        spelled(annotation_pieces(word, senses)) == annotation(word, senses),
        stripped(annotation_pieces(word, senses)) == word,
{
    reveal_with_fuel(spelled, 2);
    reveal_with_fuel(stripped, 2);
    let tones = first_sense(senses);
    let head = seq![Piece::Markup(LINK_OPEN@ + word + LINK_MID@)];
    let body = fragments_pieces(word, tones);
    let foot = seq![Piece::Markup(LINK_CLOSE@)];
    lemma_fragments_pieces(word, tones);
    lemma_pieces_append(head, body);
    lemma_pieces_append(head + body, foot);
}

/// The pieces of runs spell what the runs become, and leave their text
/// behind.
pub proof fn lemma_runs_pieces(runs: Seq<RunView>, lexicon: Lexicon)
    ensures
        spelled(runs_pieces(runs, lexicon)) == render(runs, lexicon),
        stripped(runs_pieces(runs, lexicon)) == concat(runs),
    decreases runs.len(),
{
    if runs.len() > 0 {
        let first = runs.first();
        lemma_runs_pieces(runs.drop_first(), lexicon);
        lemma_pieces_append(run_pieces(first, lexicon), runs_pieces(runs.drop_first(), lexicon));
        if first.chinese {
            lemma_annotation_pieces(first.text, senses_of(lexicon, first.text));
        } else {
            reveal_with_fuel(spelled, 2);
            reveal_with_fuel(stripped, 2);
        }
    }
}

} // verus!
