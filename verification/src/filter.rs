//! The idempotency filter: Chinese runs that were annotated before are taken
//! out of the annotator's way.

use crate::markup::{has_boundary_prefix, starts_with_boundary};
use crate::run::{Run, RunView};
use vstd::prelude::*;

verus! {

/// Run `i` is Chinese, and the run behind it is not and begins with a
/// boundary signature: run `i` stands inside an earlier annotation.
pub open spec fn annotated_at(runs: Seq<RunView>, i: int) -> bool {
    &&& 0 <= i < runs.len() - 1
    &&& runs[i].chinese
    &&& !runs[i + 1].chinese
    &&& has_boundary_prefix(runs[i + 1].text)
}

/// The runs after the filter: those inside an earlier annotation lose their
/// tag and keep their text, the others stay as they are.
pub open spec fn demoted(runs: Seq<RunView>) -> Seq<RunView> {
    Seq::new(
        runs.len(),
        |i: int|
            if annotated_at(runs, i) {
                RunView { chinese: false, text: runs[i].text }
            } else {
                runs[i]
            },
    )
}

/// Retags as not Chinese every Chinese run that is directly followed by a
/// run that is not Chinese and begins with a boundary signature. No text
/// changes, and no other run changes.
pub fn demote_annotated(runs: &mut Vec<Run>)
    ensures
        final(runs).deep_view() == demoted(old(runs).deep_view()),
{
    let n: usize = runs.len();
    let ghost before = runs.deep_view();
    let mut i: usize = 0;
    while i < n
        invariant
            i <= n,
            n == runs.len(),
            before.len() == n,
            forall|j: int| 0 <= j < i ==> (#[trigger] runs[j])@ == demoted(before)[j],
            forall|j: int| i <= j < n ==> (#[trigger] runs[j])@ == before[j],
        decreases n - i,
    {
        if i + 1 < n && runs[i].is_chinese() && !runs[i + 1].is_chinese() && starts_with_boundary(
            runs[i + 1].text(),
        ) {
            let text = runs[i].text().to_owned();
            runs.set(i, Run::Other(text));
        }
        i += 1;
    }
}

} // verus!
