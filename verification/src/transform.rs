//! The field transformer: segmenter, filter and annotator, one after the
//! other.

use crate::annotate::{annotate, annotation};
use crate::content::{spelled, stripped, transform_pieces};
use crate::dict::{senses_of, Dictionary, Lexicon};
use crate::filter::{demote_annotated, demoted};
use crate::hanzi::no_hanzi;
use crate::laws::{
    lemma_content_preserved, lemma_plain_text_unchanged, lemma_transform_idempotent,
    lemma_unchanged_texts,
};
use crate::run::{segments_of, Run, RunView};
use crate::sealed::sealed;
use crate::segment::segment;
use vstd::prelude::*;
use vstd::string::*;

verus! {

/// What a run becomes in the output: a Chinese run its annotation, any other
/// run its own text.
pub open spec fn rendered(run: RunView, lexicon: Lexicon) -> Seq<char> {
    if run.chinese {
        annotation(run.text, senses_of(lexicon, run.text))
    } else {
        run.text
    }
}

/// What the runs become in the output, one after the other.
pub open spec fn render(runs: Seq<RunView>, lexicon: Lexicon) -> Seq<char>
    decreases runs.len(),
{
    if runs.len() == 0 {
        Seq::empty()
    } else {
        rendered(runs.first(), lexicon) + render(runs.drop_first(), lexicon)
    }
}

/// The transformed text: `text` is cut into its runs, the runs inside an
/// earlier annotation are set aside, and the Chinese runs that are left are
/// annotated.
pub open spec fn transform(text: Seq<char>, lexicon: Lexicon) -> Seq<char> {
    render(demoted(segments_of(text)), lexicon)
}

/// A run added at the end adds what it becomes at the end.
pub proof fn lemma_render_push(runs: Seq<RunView>, run: RunView, lexicon: Lexicon)
    ensures
        render(runs.push(run), lexicon) == render(runs, lexicon) + rendered(run, lexicon),
    decreases runs.len(),
{
    if runs.len() == 0 {
        assert(runs.push(run).drop_first() =~= Seq::<RunView>::empty());
        assert(render(Seq::<RunView>::empty(), lexicon) =~= Seq::<char>::empty());
    } else {
        assert(runs.push(run).drop_first() =~= runs.drop_first().push(run));
        lemma_render_push(runs.drop_first(), run, lexicon);
    }
}

/// Writes the runs out in their order: the text of a run that is not
/// Chinese as it is, and in place of a Chinese run its annotation, with the
/// senses that `dict` has for the text of the run.
pub fn render_runs(runs: &Vec<Run>, dict: &Dictionary) -> (out: String)
    ensures
        out@ == render(runs.deep_view(), dict@),
{
    let mut out = String::new();
    let n: usize = runs.len();
    let mut i: usize = 0;
    while i < n
        invariant
            i <= n,
            n == runs.len(),
            out@ == render(runs.deep_view().take(i as int), dict@),
        decreases n - i,
    {
        if runs[i].is_chinese() {
            let word = runs[i].text();
            let markup = annotate(word, dict.lookup(word));
            out.append(markup.as_str());
        } else {
            out.append(runs[i].text());
        }
        proof {
            let done = runs.deep_view().take(i as int);
            lemma_render_push(done, runs[i as int]@, dict@);
            assert(runs.deep_view().take(i + 1) =~= done.push(runs[i as int]@));
        }
        i += 1;
    }
    assert(runs.deep_view().take(n as int) =~= runs.deep_view());
    out
}

/// Replaces the Chinese in `text` with Pleco links. Each stretch of Chinese
/// characters that is not yet inside a link becomes one link that looks the
/// stretch up, with its characters in the tone colours of the first sense
/// that `dict` has for the stretch. All other text stays as it is.
///
/// The result is not changed by another call. A text comes back as it is
/// if and only if each of its stretches of Chinese is directly followed by
/// a boundary signature; so does a text without Chinese. And the result is
/// the text with markup put in: with the markup stripped, the text is left.
pub fn plecoise(text: &str, dict: &Dictionary) -> (out: String)
    ensures
        out@ == transform(text@, dict@),
        transform(out@, dict@) == out@,
        out@ == text@ <==> sealed(text@),
        no_hanzi(text@) ==> out@ == text@,
        spelled(transform_pieces(text@, dict@)) == out@,
        stripped(transform_pieces(text@, dict@)) == text@,
{
    let mut runs = segment(text);
    demote_annotated(&mut runs);
    proof {
        lemma_transform_idempotent(text@, dict@);
        lemma_unchanged_texts(text@, dict@);
        if no_hanzi(text@) {
            lemma_plain_text_unchanged(text@, dict@);
        }
        lemma_content_preserved(text@, dict@);
    }
    render_runs(&runs, dict)
}

} // verus!
