//! The rule by which a record is kept.

use vstd::prelude::*;
use crate::identifier::{normalized, IdentifierSet};

verus! {

/// A record is kept when the set holds the normalized form of its name.
pub open spec fn keeps(set: Set<Seq<u8>>, record_id: Seq<u8>) -> bool {
    set.contains(normalized(record_id))
}

/// Whether the record named `record_id` is kept. The answer depends on the
/// name and the set alone.
pub fn matches(record_id: &[u8], set: &IdentifierSet) -> (keep: bool)
    ensures
        keep == keeps(set@, record_id@),
{
    set.contains(record_id)
}

} // verus!
