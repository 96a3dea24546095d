//! The counters that a finished run hands out.

use crate::model::{index_of, matched_count, unkeyed_count, unmatched_count, Row};
use vstd::prelude::*;

verus! {

/// The outcome counters of a run.
#[derive(Debug, Clone, Copy, PartialEq, Eq, Structural)]
pub struct JoinStats {
    /// Data rows read from the primary dataset.
    pub primary_rows: u64,
    /// Data rows read from the secondary dataset.
    pub secondary_rows: u64,
    /// Rows of the secondary dataset that were too short to have a key, and
    /// so were not indexed.
    pub secondary_unkeyed: u64,
    /// Rows of the primary dataset that found a partner and were written.
    pub matched: u64,
    /// Rows of the primary dataset that have a key without a partner.
    pub unmatched: u64,
    /// Rows of the primary dataset that were too short to have a key.
    pub primary_unkeyed: u64,
}

impl JoinStats {
    /// These are the counters of the join of the primary rows, keyed at
    /// `from_pos`, with the secondary rows, keyed at `join_pos`.
    pub open spec fn counts(
        self,
        primary: Seq<Row>,
        from_pos: int,
        secondary: Seq<Row>,
        join_pos: int,
    ) -> bool {
        &&& self.primary_rows == primary.len()
        &&& self.secondary_rows == secondary.len()
        &&& self.secondary_unkeyed == unkeyed_count(secondary, join_pos)
        &&& self.matched == matched_count(primary, from_pos, index_of(secondary, join_pos))
        &&& self.unmatched == unmatched_count(primary, from_pos, index_of(secondary, join_pos))
        &&& self.primary_unkeyed == unkeyed_count(primary, from_pos)
    }
}

} // verus!
