//! Which characters count as Chinese.

use vstd::prelude::*;

verus! {

/// What `cjk::is_simplified_chinese` answers for the string made of the one
/// character `c`.
pub uninterp spec fn simplified_chinese(c: char) -> bool;

/// ASCII characters. All markup that the library writes is made of them.
pub open spec fn is_ascii_char(c: char) -> bool {
    (c as u32) < 0x80
}

/// A character is Chinese when it lies outside ASCII and `cjk` classifies it
/// as simplified Chinese.
pub open spec fn is_hanzi(c: char) -> bool {
    !is_ascii_char(c) && simplified_chinese(c)
}

/// No character of `s` is Chinese.
pub open spec fn no_hanzi(s: Seq<char>) -> bool {
    forall|i: int| 0 <= i < s.len() ==> !is_hanzi(#[trigger] s[i])
}

/// Every character of `s` is Chinese.
pub open spec fn all_hanzi(s: Seq<char>) -> bool {
    forall|i: int| 0 <= i < s.len() ==> is_hanzi(#[trigger] s[i])
}

/// Calls `cjk::is_simplified_chinese` on the one-character string `c`. The
/// function looks each character of its argument up in a fixed table of code
/// points, so its answer depends on `c` alone; nothing more is claimed of it.
#[verifier::external_body]
fn cjk_simplified(c: char) -> (r: bool)
    ensures
        r == simplified_chinese(c),
{
    cjk::is_simplified_chinese(&c.to_string())
}

/// Classifies one character. ASCII is never handed to `cjk`: the markup
/// stays out of Chinese runs whatever the table holds.
pub fn is_hanzi_char(c: char) -> (r: bool)
    ensures
        r == is_hanzi(c),
{
    if (c as u32) < 0x80 {
        false
    } else {
        cjk_simplified(c)
    }
}

} // verus!
