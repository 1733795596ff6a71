//! Sealed text: text in which every stretch of Chinese is followed by a
//! boundary signature. It is what the transformation writes, and what it
//! leaves alone.

use crate::annotate::{annotation, first_sense, fragment, fragments};
use crate::dict::{senses_of, tone_at, Lexicon, Tone};
use crate::filter::{annotated_at, demoted};
use crate::hanzi::{all_hanzi, is_hanzi, no_hanzi};
use crate::markup::{
    boundary_signatures, has_boundary_prefix, lemma_markup_shape, LINK_CLOSE, LINK_MID, LINK_OPEN,
    SPAN_CLOSE, SPAN_MID, SPAN_OPEN,
};
use crate::run::{
    concat, is_segmentation, lemma_segmentation_rest, lemma_segments_of, maximal, segments_of,
    RunView,
};
use crate::transform::{render, rendered, transform};
use vstd::prelude::*;

verus! {

/// Position `i` of `s` holds the last character of a stretch of Chinese.
pub open spec fn stretch_end(s: Seq<char>, i: int) -> bool {
    &&& 0 <= i < s.len()
    &&& is_hanzi(s[i])
    &&& (i + 1 == s.len() || !is_hanzi(s[i + 1]))
}

/// Every stretch of Chinese in `s` is directly followed by a boundary
/// signature.
pub open spec fn sealed(s: Seq<char>) -> bool {
    forall|i: int| #[trigger] stretch_end(s, i) ==> has_boundary_prefix(s.skip(i + 1))
}

/// `s` seals Chinese that stands directly before it: it begins with a
/// boundary signature, or goes on with Chinese.
pub open spec fn may_follow_hanzi(s: Seq<char>) -> bool {
    has_boundary_prefix(s) || (s.len() > 0 && is_hanzi(s[0]))
}

/// A text that begins with a boundary signature begins with at least four
/// characters that are not Chinese. The lemma names the signature.
pub proof fn lemma_boundary_prefix(s: Seq<char>) -> (k: int)
    requires
        has_boundary_prefix(s),
    ensures
        0 <= k < boundary_signatures().len(),
        boundary_signatures()[k].is_prefix_of(s),
        boundary_signatures()[k].len() >= 4,
        no_hanzi(boundary_signatures()[k]),
{
    let k = choose|k: int|
        0 <= k < boundary_signatures().len() && (#[trigger] boundary_signatures()[k]).is_prefix_of(
            s,
        );
    lemma_markup_shape();
    k
}

/// Sealed text behind sealed text is sealed.
pub proof fn lemma_sealed_concat(a: Seq<char>, b: Seq<char>)
    requires
        sealed(a),
        sealed(b),
    ensures
        sealed(a + b),
{
    let s = a + b;
    assert forall|i: int| #[trigger] stretch_end(s, i) implies has_boundary_prefix(
        s.skip(i + 1),
    ) by {
        if i < a.len() {
            assert(stretch_end(a, i));
        } else {
            assert(stretch_end(b, i - a.len()));
        }
    }
}

/// Chinese before sealed text that seals it gives sealed text.
pub proof fn lemma_sealed_behind_hanzi(h: Seq<char>, rest: Seq<char>)
    requires
        all_hanzi(h),
        sealed(rest),
        may_follow_hanzi(rest),
    ensures
        sealed(h + rest),
{
    let s = h + rest;
    assert forall|i: int| #[trigger] stretch_end(s, i) implies has_boundary_prefix(
        s.skip(i + 1),
    ) by {
        if i >= h.len() {
            assert(stretch_end(rest, i - h.len()));
        }
    }
}

/// What is left of sealed text behind any of its positions is sealed.
pub proof fn lemma_sealed_suffix(s: Seq<char>, n: int)
    requires
        sealed(s),
        0 <= n <= s.len(),
    ensures
        sealed(s.skip(n)),
{
    let t = s.skip(n);
    assert forall|j: int| #[trigger] stretch_end(t, j) implies has_boundary_prefix(
        t.skip(j + 1),
    ) by {
        assert(stretch_end(s, j + n));
    }
}

/// The characters of a Chinese word, as an annotation shows them, are sealed
/// by sealed text behind them; where the last of them is bare, that text
/// has to seal it.
pub proof fn lemma_fragments_sealed(word: Seq<char>, tones: Seq<Tone>, rest: Seq<char>)
    requires
        all_hanzi(word),
        sealed(rest),
        word.len() > tones.len() ==> may_follow_hanzi(rest),
    ensures
        sealed(fragments(word, tones) + rest),
    decreases word.len(),
{
    if word.len() > 0 {
        let c = word.last();
        let tone = tone_at(tones, word.len() - 1);
        let behind = fragment(c, tone) + rest;
        match tone {
            Some(t) => {
                lemma_markup_shape();
                let close = SPAN_CLOSE@ + rest;
                let open = SPAN_OPEN@ + seq![t.digit()] + SPAN_MID@;
                lemma_sealed_concat(SPAN_CLOSE@, rest);
                lemma_sealed_behind_hanzi(seq![c], close);
                lemma_sealed_concat(open, seq![c] + close);
                assert(behind =~= open + (seq![c] + close));
            },
            None => {
                lemma_sealed_behind_hanzi(seq![c], rest);
            },
        }
        lemma_fragments_sealed(word.drop_last(), tones, behind);
        assert(fragments(word, tones) + rest =~= fragments(word.drop_last(), tones) + behind);
    }
}

/// The annotation of a Chinese word is sealed.
pub proof fn lemma_annotation_sealed(word: Seq<char>, senses: Seq<Seq<Tone>>)
    requires
        all_hanzi(word),
    ensures
        sealed(annotation(word, senses)),
{
    lemma_markup_shape();
    let tones = first_sense(senses);
    lemma_fragments_sealed(word, tones, LINK_CLOSE@);
    let inner = fragments(word, tones) + LINK_CLOSE@;
    lemma_sealed_concat(LINK_MID@, inner);
    let behind = LINK_MID@ + inner;
    lemma_sealed_behind_hanzi(word, behind);
    lemma_sealed_concat(LINK_OPEN@, word + behind);
    assert(annotation(word, senses) =~= LINK_OPEN@ + (word + behind));
}

/// The filter looks one run ahead and no further: it treats the runs behind
/// the first as it would treat them alone.
pub proof fn lemma_demoted_rest(runs: Seq<RunView>)
    requires
        runs.len() > 0,
    ensures
        demoted(runs).drop_first() == demoted(runs.drop_first()),
{
}

/// What the filter and the annotator make of maximal runs is sealed, and
/// begins with the text of the first run if that is not Chinese.
pub proof fn lemma_render_sealed(runs: Seq<RunView>, lexicon: Lexicon)
    requires
        maximal(runs),
    ensures
        sealed(render(demoted(runs), lexicon)),
        runs.len() > 0 && !runs[0].chinese ==> runs[0].text.is_prefix_of(
            render(demoted(runs), lexicon),
        ),
    decreases runs.len(),
{
    if runs.len() > 0 {
        let tail = runs.drop_first();
        lemma_demoted_rest(runs);
        lemma_render_sealed(tail, lexicon);
        let rest = render(demoted(tail), lexicon);
        let piece = rendered(demoted(runs)[0], lexicon);
        if !runs[0].chinese {
            lemma_sealed_concat(piece, rest);
        } else if annotated_at(runs, 0) {
            lemma_sealed_behind_hanzi(piece, rest);
        } else {
            lemma_annotation_sealed(runs[0].text, senses_of(lexicon, runs[0].text));
            lemma_sealed_concat(piece, rest);
        }
    }
}

/// The first run of sealed text, if it is Chinese, is inside an earlier
/// annotation.
proof fn lemma_first_run_annotated(runs: Seq<RunView>, text: Seq<char>)
    requires
        is_segmentation(runs, text),
        sealed(text),
        runs.len() > 0,
        runs[0].chinese,
    ensures
        annotated_at(runs, 0),
{
    let n = runs[0].text.len() as int;
    let rest = text.skip(n);
    lemma_segmentation_rest(runs, text);
    assert(stretch_end(text, n - 1));
    let k = lemma_boundary_prefix(rest);
    if runs.len() > 1 {
        let sig = boundary_signatures()[k];
        let m = runs[1].text.len() as int;
        if m < sig.len() {
            assert(concat(runs.drop_first().drop_first()).len() > 0);
            assert(rest[m] == sig[m]);
        }
    }
}

/// In the segmentation of sealed text every Chinese run is inside an
/// earlier annotation.
pub proof fn lemma_sealed_runs(runs: Seq<RunView>, text: Seq<char>)
    requires
        is_segmentation(runs, text),
        sealed(text),
    ensures
        forall|i: int|
            0 <= i < runs.len() && (#[trigger] runs[i]).chinese ==> annotated_at(runs, i),
    decreases runs.len(),
{
    if runs.len() > 0 {
        let n = runs[0].text.len() as int;
        let tail = runs.drop_first();
        lemma_segmentation_rest(runs, text);
        lemma_sealed_suffix(text, n);
        lemma_sealed_runs(tail, text.skip(n));
        assert forall|i: int|
            0 <= i < runs.len() && (#[trigger] runs[i]).chinese implies annotated_at(runs, i) by {
            if i == 0 {
                lemma_first_run_annotated(runs, text);
            } else {
                assert(tail[i - 1] == runs[i]);
            }
        }
    }
}

/// Runs of which none is Chinese are written out as they are.
pub proof fn lemma_render_others(runs: Seq<RunView>, lexicon: Lexicon)
    requires
        forall|i: int| 0 <= i < runs.len() ==> !(#[trigger] runs[i]).chinese,
    ensures
        render(runs, lexicon) == concat(runs),
    decreases runs.len(),
{
    if runs.len() > 0 {
        lemma_render_others(runs.drop_first(), lexicon);
    }
}

/// The filter changes no text.
pub proof fn lemma_concat_demoted(runs: Seq<RunView>)
    ensures
        concat(demoted(runs)) == concat(runs),
    decreases runs.len(),
{
    if runs.len() > 0 {
        lemma_demoted_rest(runs);
        lemma_concat_demoted(runs.drop_first());
    }
}

/// What the transformation writes is sealed.
pub proof fn lemma_transform_sealed(text: Seq<char>, lexicon: Lexicon)
    ensures
        sealed(transform(text, lexicon)),
{
    lemma_segments_of(text);
    lemma_render_sealed(segments_of(text), lexicon);
}

/// The transformation leaves sealed text as it is.
pub proof fn lemma_sealed_unchanged(text: Seq<char>, lexicon: Lexicon)
    requires
        sealed(text),
    ensures
        transform(text, lexicon) == text,
{
    let runs = segments_of(text);
    lemma_segments_of(text);
    lemma_sealed_runs(runs, text);
    lemma_render_others(demoted(runs), lexicon);
    lemma_concat_demoted(runs);
}

} // verus!
