//! What holds of the transformation whatever the text and the dictionary.

use crate::annotate::{annotation, first_sense, fragments};
use crate::content::{lemma_runs_pieces, spelled, stripped, transform_pieces};
use crate::dict::{senses_of, Lexicon, Tone};
use crate::field::{
    delimiter_free, delimiters, lemma_join_count, lemma_split_fields, lemma_split_join,
    split_fields, transform_each, transform_fields, FIELD_SPLIT_CHAR,
};
use crate::filter::demoted;
use crate::hanzi::no_hanzi;
use crate::markup::lemma_markup_shape;
use crate::run::{concat, lemma_segments_of, segments_of, RunView};
use crate::sealed::{
    lemma_concat_demoted, lemma_sealed_unchanged, lemma_transform_sealed, sealed,
};
use crate::transform::{render, transform};
use vstd::prelude::*;

verus! {

/// Idempotence: transforming a transformed text changes nothing.
pub proof fn lemma_transform_idempotent(text: Seq<char>, lexicon: Lexicon)
    ensures
        transform(transform(text, lexicon), lexicon) == transform(text, lexicon),
{
    lemma_transform_sealed(text, lexicon);
    lemma_sealed_unchanged(transform(text, lexicon), lexicon);
}

/// The texts that the transformation leaves as they are are the sealed
/// texts: those in which every stretch of Chinese is directly followed by a
/// boundary signature.
pub proof fn lemma_unchanged_texts(text: Seq<char>, lexicon: Lexicon)
    ensures
        transform(text, lexicon) == text <==> sealed(text),
{
    lemma_transform_sealed(text, lexicon);
    if sealed(text) {
        lemma_sealed_unchanged(text, lexicon);
    }
}

/// A text without Chinese is not changed.
pub proof fn lemma_plain_text_unchanged(text: Seq<char>, lexicon: Lexicon)
    requires
        no_hanzi(text),
    ensures
        transform(text, lexicon) == text,
{
    lemma_sealed_unchanged(text, lexicon);
}

/// Content preservation: the transformed text is made of pieces that come
/// from the source and pieces of markup, and with the markup stripped the
/// source is left: no character is added, dropped or moved.
pub proof fn lemma_content_preserved(text: Seq<char>, lexicon: Lexicon)
    ensures
        spelled(transform_pieces(text, lexicon)) == transform(text, lexicon),
        stripped(transform_pieces(text, lexicon)) == text,
{
    let runs = demoted(segments_of(text));
    lemma_runs_pieces(runs, lexicon);
    lemma_concat_demoted(segments_of(text));
    lemma_segments_of(text);
}

/// The characters of an annotation hold no delimiter if the word holds
/// none.
proof fn lemma_fragments_delimiter_free(word: Seq<char>, tones: Seq<Tone>)
    requires
        delimiter_free(word),
    ensures
        delimiter_free(fragments(word, tones)),
    decreases word.len(),
{
    if word.len() > 0 {
        lemma_markup_shape();
        lemma_fragments_delimiter_free(word.drop_last(), tones);
    }
}

/// An annotation holds no delimiter if the word holds none.
proof fn lemma_annotation_delimiter_free(word: Seq<char>, senses: Seq<Seq<Tone>>)
    requires
        delimiter_free(word),
    ensures
        delimiter_free(annotation(word, senses)),
{
    lemma_markup_shape();
    lemma_fragments_delimiter_free(word, first_sense(senses));
}

/// What runs become holds no delimiter if their text holds none.
proof fn lemma_render_delimiter_free(runs: Seq<RunView>, lexicon: Lexicon)
    requires
        delimiter_free(concat(runs)),
    ensures
        delimiter_free(render(runs, lexicon)),
    decreases runs.len(),
{
    if runs.len() > 0 {
        let first = runs.first();
        let rest = concat(runs.drop_first());
        assert forall|i: int| 0 <= i < first.text.len() implies #[trigger] first.text[i]
            != FIELD_SPLIT_CHAR by {
            assert(first.text[i] == concat(runs)[i]);
        }
        assert forall|i: int| 0 <= i < rest.len() implies #[trigger] rest[i]
            != FIELD_SPLIT_CHAR by {
            assert(rest[i] == concat(runs)[first.text.len() + i]);
        }
        lemma_render_delimiter_free(runs.drop_first(), lexicon);
        if first.chinese {
            lemma_annotation_delimiter_free(first.text, senses_of(lexicon, first.text));
        }
    }
}

/// The transformation brings no delimiter into a text that holds none.
pub proof fn lemma_transform_delimiter_free(text: Seq<char>, lexicon: Lexicon)
    requires
        delimiter_free(text),
    ensures
        delimiter_free(transform(text, lexicon)),
{
    lemma_segments_of(text);
    lemma_concat_demoted(segments_of(text));
    lemma_render_delimiter_free(demoted(segments_of(text)), lexicon);
}

/// Delimiter count: a text whose fields were transformed one by one holds
/// as many delimiters as before.
pub proof fn lemma_delimiter_count_preserved(text: Seq<char>, lexicon: Lexicon)
    ensures
        delimiters(transform_fields(text, lexicon)) == delimiters(text),
{
    let fields = split_fields(text);
    let done = transform_each(fields, lexicon);
    lemma_split_fields(text);
    assert forall|i: int| 0 <= i < done.len() implies delimiter_free(#[trigger] done[i]) by {
        lemma_transform_delimiter_free(fields[i], lexicon);
    }
    lemma_join_count(done);
}

/// The fields of a text whose fields were transformed are the transformed
/// fields of the text, as many and in their order.
pub proof fn lemma_fields_kept(text: Seq<char>, lexicon: Lexicon)
    ensures
        split_fields(transform_fields(text, lexicon)) == transform_each(
            split_fields(text),
            lexicon,
        ),
{
    let fields = split_fields(text);
    let done = transform_each(fields, lexicon);
    lemma_split_fields(text);
    assert forall|i: int| 0 <= i < done.len() implies delimiter_free(#[trigger] done[i]) by {
        lemma_transform_delimiter_free(fields[i], lexicon);
    }
    lemma_split_join(done);
}

/// Transforming the fields of a text whose fields were transformed changes
/// nothing.
pub proof fn lemma_transform_fields_idempotent(text: Seq<char>, lexicon: Lexicon)
    ensures
        transform_fields(transform_fields(text, lexicon), lexicon) == transform_fields(
            text,
            lexicon,
        ),
{
    let fields = split_fields(text);
    let done = transform_each(fields, lexicon);
    lemma_fields_kept(text, lexicon);
    assert forall|i: int| 0 <= i < done.len() implies transform(#[trigger] done[i], lexicon)
        == done[i] by {
        lemma_transform_idempotent(fields[i], lexicon);
    }
    assert(transform_each(done, lexicon) =~= done);
}

} // verus!
