//! The markup that an annotation is made of, and the signatures by which
//! text that was annotated before is recognised.

use crate::text::has_prefix;
use vstd::prelude::*;

verus! {

/// Opens the link, up to the lookup query.
pub const LINK_OPEN: &'static str = "<a href=\"plecoapi://x-callback-url/s?q=";

/// Follows the lookup query and ends the opening tag of the link.
pub const LINK_MID: &'static str = "\" style=\"text-decoration:none\">";

/// Closes the link.
pub const LINK_CLOSE: &'static str = "</a>";

/// Opens the span of one character, up to the number of the tone.
pub const SPAN_OPEN: &'static str = "<span class=\"tone";

/// Follows the number of the tone and ends the opening tag of the span.
pub const SPAN_MID: &'static str = "\">";

/// Closes the span of one character.
pub const SPAN_CLOSE: &'static str = "</span>";

/// What follows a lookup query in an annotation.
pub const QUERY_END: &'static str = "\" style";

/// The signatures of an earlier annotation: what an annotation writes
/// directly behind Chinese characters. A Chinese run that is followed by one
/// of them is taken to be annotated already.
pub const BOUNDARY_SIGNATURES: [&'static str; 3] = [LINK_CLOSE, QUERY_END, SPAN_CLOSE];

/// The boundary signatures as sequences of characters.
pub open spec fn boundary_signatures() -> Seq<Seq<char>> {
    BOUNDARY_SIGNATURES@.map_values(|signature: &'static str| signature@)
}

/// `s` begins with one of the boundary signatures.
pub open spec fn has_boundary_prefix(s: Seq<char>) -> bool {
    exists|k: int|
        0 <= k < boundary_signatures().len() && (#[trigger] boundary_signatures()[k]).is_prefix_of(
            s,
        )
}

/// Printable ASCII, the alphabet of the markup.
pub open spec fn is_markup_char(c: char) -> bool {
    0x20 <= (c as u32) < 0x7f
}

/// `s` is made of printable ASCII only.
pub open spec fn is_markup(s: Seq<char>) -> bool {
    forall|i: int| 0 <= i < s.len() ==> is_markup_char(#[trigger] s[i])
}

/// The pieces of markup are printable ASCII, and each of the three places
/// where an annotation goes on behind Chinese characters begins with a
/// boundary signature.
pub proof fn lemma_markup_shape()
    ensures
        is_markup(LINK_OPEN@),
        is_markup(LINK_MID@),
        is_markup(LINK_CLOSE@),
        is_markup(SPAN_OPEN@),
        is_markup(SPAN_MID@),
        is_markup(SPAN_CLOSE@),
        is_markup(QUERY_END@),
        LINK_CLOSE@.len() == 4,
        QUERY_END@.len() == 7,
        SPAN_CLOSE@.len() == 7,
        QUERY_END@.is_prefix_of(LINK_MID@),
        has_boundary_prefix(LINK_MID@),
        has_boundary_prefix(LINK_CLOSE@),
        has_boundary_prefix(SPAN_CLOSE@),
{
    reveal_strlit("<a href=\"plecoapi://x-callback-url/s?q=");
    reveal_strlit("\" style=\"text-decoration:none\">");
    reveal_strlit("</a>");
    reveal_strlit("<span class=\"tone");
    reveal_strlit("\">");
    reveal_strlit("</span>");
    reveal_strlit("\" style");
    assert(boundary_signatures()[0] == LINK_CLOSE@);
    assert(boundary_signatures()[1] == QUERY_END@);
    assert(boundary_signatures()[2] == SPAN_CLOSE@);
}

/// The opening of a span holds no digit of a tone.
pub proof fn lemma_span_open_shape()
    ensures
        SPAN_OPEN@.len() == 17,
        forall|i: int| 0 <= i < SPAN_OPEN@.len() ==> !('1' <= #[trigger] SPAN_OPEN@[i] <= '5'),
{
    reveal_strlit("<span class=\"tone");
}

/// Whether `s` begins with a boundary signature.
pub fn starts_with_boundary(s: &str) -> (r: bool)
    ensures
        r == has_boundary_prefix(s@),
{
    let n: usize = BOUNDARY_SIGNATURES.len();
    let mut k: usize = 0;
    while k < n
        invariant
            k <= n,
            n == boundary_signatures().len(),
            forall|j: int| 0 <= j < k ==> !(#[trigger] boundary_signatures()[j]).is_prefix_of(s@),
        decreases n - k,
    {
        if has_prefix(s, BOUNDARY_SIGNATURES[k]) {
            assert(boundary_signatures()[k as int].is_prefix_of(s@));
            return true;
        }
        k += 1;
    }
    false
}

} // verus!
