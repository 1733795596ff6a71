//! What the library knows of a deck's files.

use crate::text::has_prefix;
use vstd::prelude::*;

verus! {

/// How the names of the files that hold a deck's notes begin.
pub const COLLECTION_PREFIX: &'static str = "collection";

/// Whether the file of this name holds notes: whether its name begins with
/// the collection prefix.
pub fn is_collection(name: &str) -> (r: bool)
    ensures
        r == COLLECTION_PREFIX@.is_prefix_of(name@),
{
    has_prefix(name, COLLECTION_PREFIX)
}

} // verus!
