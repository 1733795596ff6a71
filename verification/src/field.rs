//! Fields: the parts of a note's text, held apart by a delimiter.

use crate::dict::{Dictionary, Lexicon};
use crate::laws::{
    lemma_delimiter_count_preserved, lemma_fields_kept, lemma_transform_fields_idempotent,
};
use crate::transform::{plecoise, transform};
use vstd::prelude::*;
use vstd::string::*;

verus! {

/// The character that holds the fields of a note apart.
pub const FIELD_SPLIT_CHAR: char = '\x1f';

/// The fields of `text`: the stretches between its delimiters. A text with
/// n delimiters has n + 1 fields, some of which may be empty.
pub open spec fn split_fields(text: Seq<char>) -> Seq<Seq<char>>
    decreases text.len(),
{
    if text.len() == 0 {
        seq![Seq::empty()]
    } else {
        let fields = split_fields(text.drop_last());
        if text.last() == FIELD_SPLIT_CHAR {
            fields.push(Seq::empty())
        } else {
            fields.drop_last().push(fields.last().push(text.last()))
        }
    }
}

/// The fields one after the other, a delimiter behind each.
pub open spec fn terminated(fields: Seq<Seq<char>>) -> Seq<char>
    decreases fields.len(),
{
    if fields.len() == 0 {
        Seq::empty()
    } else {
        terminated(fields.drop_last()) + fields.last() + seq![FIELD_SPLIT_CHAR]
    }
}

/// The fields one after the other, a delimiter between each two.
pub open spec fn join_fields(fields: Seq<Seq<char>>) -> Seq<char> {
    if fields.len() == 0 {
        Seq::empty()
    } else {
        terminated(fields.drop_last()) + fields.last()
    }
}

/// The number of delimiters in `text`.
pub open spec fn delimiters(text: Seq<char>) -> nat
    decreases text.len(),
{
    if text.len() == 0 {
        0
    } else if text.last() == FIELD_SPLIT_CHAR {
        delimiters(text.drop_last()) + 1
    } else {
        delimiters(text.drop_last())
    }
}

/// `text` holds no delimiter.
pub open spec fn delimiter_free(text: Seq<char>) -> bool {
    forall|i: int| 0 <= i < text.len() ==> #[trigger] text[i] != FIELD_SPLIT_CHAR
}

/// No field holds a delimiter.
pub open spec fn fields_delimiter_free(fields: Seq<Seq<char>>) -> bool {
    forall|i: int| 0 <= i < fields.len() ==> delimiter_free(#[trigger] fields[i])
}

/// Each field transformed.
pub open spec fn transform_each(fields: Seq<Seq<char>>, lexicon: Lexicon) -> Seq<Seq<char>> {
    Seq::new(fields.len(), |i: int| transform(fields[i], lexicon))
}

/// The text with each of its fields transformed.
pub open spec fn transform_fields(text: Seq<char>, lexicon: Lexicon) -> Seq<char> {
    join_fields(transform_each(split_fields(text), lexicon))
}

/// Replaces the Chinese in each field of `flds` with Pleco links. The text
/// is split at each delimiter, every field is transformed by itself, and the
/// fields are put together again in their order, a delimiter between each
/// two.
///
/// The result has as many delimiters as `flds`, its fields are the
/// transformed fields of `flds` in their order, and it is not changed by
/// another call.
pub fn plecoise_fields(flds: &str, dict: &Dictionary) -> (out: String)
    ensures
        out@ == transform_fields(flds@, dict@),
        delimiters(out@) == delimiters(flds@),
        split_fields(out@) == transform_each(split_fields(flds@), dict@),
        transform_fields(out@, dict@) == out@,
{
    proof {
        lemma_delimiter_count_preserved(flds@, dict@);
        lemma_fields_kept(flds@, dict@);
        lemma_transform_fields_idempotent(flds@, dict@);
    }
    let mut out = String::new();
    let mut field = String::new();
    for c in it: flds.chars()
        invariant
            it.seq() == flds@,
            split_fields(it.seq().take(it.index() as int)).len() > 0,
            field@ == split_fields(it.seq().take(it.index() as int)).last(),
            out@ == terminated(
                transform_each(split_fields(it.seq().take(it.index() as int)), dict@).drop_last(),
            ),
    {
        let ghost seen = it.seq().take(it.index() as int);
        let ghost fields = split_fields(seen);
        let ghost after = split_fields(it.seq().take(it.index() + 1));
        assert(it.seq().take(it.index() + 1).drop_last() =~= seen);
        if c == FIELD_SPLIT_CHAR {
            let done = plecoise(field.as_str(), dict);
            out.append(done.as_str());
            out.push(c);
            field = String::new();
            assert(transform_each(after, dict@).drop_last() =~= transform_each(fields, dict@));
        } else {
            field.push(c);
            assert(transform_each(after, dict@).drop_last() =~= transform_each(
                fields,
                dict@,
            ).drop_last());
        }
    }
    assert(flds@.take(flds@.len() as int) =~= flds@);
    let done = plecoise(field.as_str(), dict);
    out.append(done.as_str());
    out
}

/// The delimiters of two texts, one behind the other, are those of both.
pub proof fn lemma_delimiters_concat(a: Seq<char>, b: Seq<char>)
    ensures
        delimiters(a + b) == delimiters(a) + delimiters(b),
    decreases b.len(),
{
    if b.len() > 0 {
        lemma_delimiters_concat(a, b.drop_last());
        assert((a + b).drop_last() =~= a + b.drop_last());
    }
}

/// A text without a delimiter has none to count.
pub proof fn lemma_delimiter_free_count(text: Seq<char>)
    requires
        delimiter_free(text),
    ensures
        delimiters(text) == 0,
    decreases text.len(),
{
    if text.len() > 0 {
        lemma_delimiter_free_count(text.drop_last());
    }
}

/// A text has one field more than it has delimiters, and no field holds a
/// delimiter.
pub proof fn lemma_split_fields(text: Seq<char>)
    ensures
        split_fields(text).len() == delimiters(text) + 1,
        fields_delimiter_free(split_fields(text)),
    decreases text.len(),
{
    if text.len() > 0 {
        lemma_split_fields(text.drop_last());
    }
}

/// Fields with a delimiter behind each hold one delimiter for each field,
/// if no field holds one itself.
pub proof fn lemma_terminated_count(fields: Seq<Seq<char>>)
    requires
        fields_delimiter_free(fields),
    ensures
        delimiters(terminated(fields)) == fields.len(),
    decreases fields.len(),
{
    if fields.len() > 0 {
        let before = fields.drop_last();
        lemma_terminated_count(before);
        lemma_delimiter_free_count(fields.last());
        lemma_delimiters_concat(terminated(before), fields.last());
        lemma_delimiters_concat(terminated(before) + fields.last(), seq![FIELD_SPLIT_CHAR]);
        assert(delimiters(seq![FIELD_SPLIT_CHAR]) == 1) by {
            reveal_with_fuel(delimiters, 2);
        }
    }
}

/// Joined fields hold one delimiter less than there are fields, if no field
/// holds one itself.
pub proof fn lemma_join_count(fields: Seq<Seq<char>>)
    requires
        fields.len() > 0,
        fields_delimiter_free(fields),
    ensures
        delimiters(join_fields(fields)) == fields.len() - 1,
{
    let before = fields.drop_last();
    lemma_terminated_count(before);
    lemma_delimiter_free_count(fields.last());
    lemma_delimiters_concat(terminated(before), fields.last());
}

/// Splitting a text and joining its fields gives the text back.
pub proof fn lemma_join_split(text: Seq<char>)
    ensures
        split_fields(text).len() > 0,
        join_fields(split_fields(text)) == text,
    decreases text.len(),
{
    if text.len() > 0 {
        lemma_join_split(text.drop_last());
        let before = split_fields(text.drop_last());
        let fields = split_fields(text);
        assert(text =~= text.drop_last().push(text.last()));
        if text.last() == FIELD_SPLIT_CHAR {
            assert(fields.drop_last() =~= before);
        } else {
            assert(fields.drop_last() =~= before.drop_last());
        }
    }
}

/// Joining fields that hold no delimiter and splitting the text gives the
/// fields back.
pub proof fn lemma_split_join(fields: Seq<Seq<char>>)
    requires
        fields.len() > 0,
        fields_delimiter_free(fields),
    ensures
        split_fields(join_fields(fields)) == fields,
    decreases fields.len(), fields.last().len(),
{
    let before = fields.drop_last();
    let last = fields.last();
    let text = join_fields(fields);
    if last.len() > 0 {
        let shorter = before.push(last.drop_last());
        assert(shorter.drop_last() =~= before);
        lemma_split_join(shorter);
        assert(text.drop_last() =~= join_fields(shorter));
        assert(shorter.last().push(text.last()) =~= last);
    } else if before.len() > 0 {
        lemma_split_join(before);
        assert(text.drop_last() =~= join_fields(before));
        assert(last =~= Seq::<char>::empty());
    }
}

} // verus!
