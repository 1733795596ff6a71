//! Runs: stretches of text that are Chinese throughout or not at all.

use crate::hanzi::is_hanzi;
use vstd::prelude::*;

verus! {

/// A stretch of a text, tagged as Chinese or not.
#[derive(Debug, PartialEq, Eq)]
pub enum Run {
    /// A stretch of Chinese characters.
    Chinese(String),
    /// A stretch of other characters.
    Other(String),
}

/// What a run is to the contracts: its tag and its characters.
pub struct RunView {
    pub chinese: bool,
    pub text: Seq<char>,
}

impl View for Run {
    type V = RunView;

    open spec fn view(&self) -> RunView {
        match self {
            Run::Chinese(s) => RunView { chinese: true, text: s@ },
            Run::Other(s) => RunView { chinese: false, text: s@ },
        }
    }
}

impl DeepView for Run {
    type V = RunView;

    open spec fn deep_view(&self) -> RunView {
        self@
    }
}

impl Run {
    /// A run with the given tag and text.
    pub fn new(chinese: bool, text: String) -> (run: Run)
        ensures
            run@ == (RunView { chinese, text: text@ }),
    {
        if chinese {
            Run::Chinese(text)
        } else {
            Run::Other(text)
        }
    }

    /// Whether the run is tagged as Chinese.
    pub fn is_chinese(&self) -> (r: bool)
        ensures
            r == self@.chinese,
    {
        match self {
            Run::Chinese(_) => true,
            Run::Other(_) => false,
        }
    }

    /// The characters of the run.
    pub fn text(&self) -> (s: &str)
        ensures
            s@ == self@.text,
    {
        match self {
            Run::Chinese(s) => s.as_str(),
            Run::Other(s) => s.as_str(),
        }
    }

    /// Gives up the run for its characters.
    pub fn into_text(self) -> (s: String)
        ensures
            s@ == self@.text,
    {
        match self {
            Run::Chinese(s) => s,
            Run::Other(s) => s,
        }
    }
}

/// The characters of all runs, in order.
pub open spec fn concat(runs: Seq<RunView>) -> Seq<char>
    decreases runs.len(),
{
    if runs.len() == 0 {
        Seq::empty()
    } else {
        runs.first().text + concat(runs.drop_first())
    }
}

/// The run is not empty, and its tag says of each of its characters whether
/// it is Chinese.
pub open spec fn uniform(run: RunView) -> bool {
    &&& run.text.len() > 0
    &&& forall|j: int| 0 <= j < run.text.len() ==> is_hanzi(#[trigger] run.text[j]) == run.chinese
}

/// Every run is uniform, and no two neighbours share a tag: each run goes on
/// as far as its class of characters does.
pub open spec fn maximal(runs: Seq<RunView>) -> bool {
    &&& forall|i: int| 0 <= i < runs.len() ==> uniform(#[trigger] runs[i])
    &&& forall|i: int| 0 < i < runs.len() ==> (#[trigger] runs[i]).chinese != runs[i - 1].chinese
}

/// `runs` cuts `text` into its maximal runs.
pub open spec fn is_segmentation(runs: Seq<RunView>, text: Seq<char>) -> bool {
    maximal(runs) && concat(runs) == text
}

/// The runs after one more character of class `chinese`: it joins the last
/// run if that has its class, and starts a new run otherwise.
pub open spec fn extend(runs: Seq<RunView>, c: char, chinese: bool) -> Seq<RunView> {
    if runs.len() > 0 && runs.last().chinese == chinese {
        runs.drop_last().push(RunView { chinese, text: runs.last().text.push(c) })
    } else {
        runs.push(RunView { chinese, text: seq![c] })
    }
}

/// The runs of `text`, built up character by character.
pub open spec fn segments_of(text: Seq<char>) -> Seq<RunView>
    decreases text.len(),
{
    if text.len() == 0 {
        Seq::empty()
    } else {
        extend(segments_of(text.drop_last()), text.last(), is_hanzi(text.last()))
    }
}

/// A run added at the end adds its characters at the end.
pub proof fn lemma_concat_push(runs: Seq<RunView>, run: RunView)
    ensures
        concat(runs.push(run)) == concat(runs) + run.text,
    decreases runs.len(),
{
    if runs.len() == 0 {
        assert(runs.push(run).drop_first() =~= Seq::<RunView>::empty());
        assert(concat(Seq::<RunView>::empty()) =~= Seq::<char>::empty());
    } else {
        assert(runs.push(run).drop_first() =~= runs.drop_first().push(run));
        lemma_concat_push(runs.drop_first(), run);
    }
}

/// One more character, classified as the library classifies it, turns the
/// segmentation of a text into that of the longer text.
pub proof fn lemma_extend_segmentation(runs: Seq<RunView>, text: Seq<char>, c: char)
    requires
        is_segmentation(runs, text),
    ensures
        is_segmentation(extend(runs, c, is_hanzi(c)), text.push(c)),
{
    let chinese = is_hanzi(c);
    if runs.len() > 0 && runs.last().chinese == chinese {
        let grown = RunView { chinese, text: runs.last().text.push(c) };
        assert(runs =~= runs.drop_last().push(runs.last()));
        lemma_concat_push(runs.drop_last(), runs.last());
        lemma_concat_push(runs.drop_last(), grown);
    } else {
        lemma_concat_push(runs, RunView { chinese, text: seq![c] });
        assert(concat(extend(runs, c, chinese)) =~= text.push(c));
    }
}

/// `segments_of` cuts a text into its maximal runs.
pub proof fn lemma_segments_of(text: Seq<char>)
    ensures
        is_segmentation(segments_of(text), text),
    decreases text.len(),
{
    if text.len() > 0 {
        lemma_segments_of(text.drop_last());
        lemma_extend_segmentation(segments_of(text.drop_last()), text.drop_last(), text.last());
        assert(text.drop_last().push(text.last()) =~= text);
    } else {
        assert(concat(segments_of(text)) =~= text);
    }
}

/// Only an empty text has no runs.
pub proof fn lemma_segmentation_empty(runs: Seq<RunView>, text: Seq<char>)
    requires
        is_segmentation(runs, text),
    ensures
        runs.len() == 0 <==> text.len() == 0,
{
}

/// The runs behind the first cut the text behind the first run.
pub proof fn lemma_segmentation_rest(runs: Seq<RunView>, text: Seq<char>)
    requires
        is_segmentation(runs, text),
        runs.len() > 0,
    ensures
        runs[0].text.len() <= text.len(),
        runs[0].text == text.take(runs[0].text.len() as int),
        is_segmentation(runs.drop_first(), text.skip(runs[0].text.len() as int)),
{
    assert(concat(runs.drop_first()) =~= text.skip(runs[0].text.len() as int));
}

/// Of two segmentations of one text, the first run of the one is at least
/// as long as the first run of the other.
proof fn lemma_first_run_length(a: Seq<RunView>, b: Seq<RunView>, text: Seq<char>)
    requires
        is_segmentation(a, text),
        is_segmentation(b, text),
        a.len() > 0,
        b.len() > 0,
    ensures
        a[0].chinese == b[0].chinese,
        a[0].text.len() >= b[0].text.len(),
{
    lemma_segmentation_rest(a, text);
    assert(b[0].text[0] == text[0]);
    if a[0].text.len() < b[0].text.len() {
        assert(a[1].text[0] == text[a[0].text.len() as int]);
    }
}

/// A text has one segmentation only.
pub proof fn lemma_segmentation_unique(a: Seq<RunView>, b: Seq<RunView>, text: Seq<char>)
    requires
        is_segmentation(a, text),
        is_segmentation(b, text),
    ensures
        a == b,
    decreases a.len(),
{
    lemma_segmentation_empty(a, text);
    lemma_segmentation_empty(b, text);
    if a.len() > 0 {
        lemma_first_run_length(a, b, text);
        lemma_first_run_length(b, a, text);
        lemma_segmentation_rest(a, text);
        lemma_segmentation_rest(b, text);
        lemma_segmentation_unique(
            a.drop_first(),
            b.drop_first(),
            text.skip(a[0].text.len() as int),
        );
        assert(b =~= seq![b[0]] + b.drop_first());
    }
}

} // verus!
