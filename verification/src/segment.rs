//! The segmenter: cuts a text into its runs.

use crate::hanzi::is_hanzi_char;
use crate::run::{extend, is_segmentation, lemma_segments_of, segments_of, Run};
use vstd::prelude::*;

verus! {

/// Takes one more character, of class `chinese`, into the runs: it joins the
/// last run if that has its class, and starts a new run otherwise.
pub fn extend_runs(runs: &mut Vec<Run>, c: char, chinese: bool)
    ensures
        final(runs).deep_view() == extend(old(runs).deep_view(), c, chinese),
{
    let n: usize = runs.len();
    if n > 0 && runs[n - 1].is_chinese() == chinese {
        let last = runs.pop().unwrap();
        let mut text = last.into_text();
        text.push(c);
        runs.push(Run::new(chinese, text));
    } else {
        let mut text = String::new();
        text.push(c);
        runs.push(Run::new(chinese, text));
    }
}

/// Cuts `text` into its maximal runs of Chinese and of other characters.
/// The runs hold every character of `text` in its place, none is empty, and
/// neighbours differ in their tag. An empty text has no runs.
pub fn segment(text: &str) -> (runs: Vec<Run>)
    ensures
        is_segmentation(runs.deep_view(), text@),
        runs.deep_view() == segments_of(text@),
        runs.len() == 0 <==> text@.len() == 0,
{
    let mut runs: Vec<Run> = Vec::new();
    for c in it: text.chars()
        invariant
            it.seq() == text@,
            runs.deep_view() == segments_of(it.seq().take(it.index() as int)),
    {
        let chinese = is_hanzi_char(c);
        extend_runs(&mut runs, c, chinese);
        assert(text@.take(it.index() + 1).drop_last() =~= text@.take(it.index() as int));
    }
    proof {
        assert(text@.take(text@.len() as int) =~= text@);
        lemma_segments_of(text@);
    }
    runs
}

} // verus!
