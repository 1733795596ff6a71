//! The words of a text that a dictionary has yet to learn.

use crate::dict::{Dictionary, Lexicon};
use crate::run::{segments_of, RunView};
use crate::segment::segment;
use crate::text::same_text;
use vstd::prelude::*;

verus! {

/// The words among `runs` that `lexicon` does not know: the text of each
/// Chinese run that is no word of the lexicon, once, in the order in which
/// they first occur.
pub open spec fn unknown_words(runs: Seq<RunView>, lexicon: Lexicon) -> Seq<Seq<char>>
    decreases runs.len(),
{
    if runs.len() == 0 {
        Seq::empty()
    } else {
        let before = unknown_words(runs.drop_last(), lexicon);
        let run = runs.last();
        if run.chinese && !lexicon.contains_key(run.text) && !before.contains(run.text) {
            before.push(run.text)
        } else {
            before
        }
    }
}

/// Whether `word` is among `words`.
fn holds(words: &Vec<String>, word: &str) -> (r: bool)
    ensures
        r == words.deep_view().contains(word@),
{
    let mut i: usize = 0;
    while i < words.len()
        invariant
            i <= words.len(),
            forall|j: int| 0 <= j < i ==> words.deep_view()[j] != word@,
        decreases words.len() - i,
    {
        if same_text(words[i].as_str(), word) {
            assert(words.deep_view()[i as int] == word@);
            return true;
        }
        i += 1;
    }
    false
}

/// The Chinese runs of `text` that `dict` does not know, each once, in the
/// order in which they first occur: the words to look up before `text` is
/// transformed.
pub fn words_to_learn(text: &str, dict: &Dictionary) -> (words: Vec<String>)
    ensures
        words.deep_view() == unknown_words(segments_of(text@), dict@),
{
    let runs = segment(text);
    let mut words: Vec<String> = Vec::new();
    let n: usize = runs.len();
    let mut i: usize = 0;
    while i < n
        invariant
            i <= n,
            n == runs.len(),
            words.deep_view() == unknown_words(runs.deep_view().take(i as int), dict@),
        decreases n - i,
    {
        assert(runs.deep_view().take(i + 1).drop_last() =~= runs.deep_view().take(i as int));
        if runs[i].is_chinese() {
            let word = runs[i].text();
            if dict.lookup(word).is_none() && !holds(&words, word) {
                words.push(word.to_owned());
            }
        }
        i += 1;
    }
    assert(runs.deep_view().take(n as int) =~= runs.deep_view());
    words
}

} // verus!
