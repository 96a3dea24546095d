//! The stream joiner: primary rows in, merged rows out.

use crate::csv_specs::record_fields;
use crate::error::{JoinError, Side};
use crate::index::{IndexBuilder, JoinIndex};
use crate::merge::join_rows;
use crate::model::{
    index_of, joined, lemma_counts_add_up, lemma_joined_push, lemma_no_rows,
    lemma_unkeyed_count_push, row_output, Row,
};
use crate::stats::JoinStats;
use csv::StringRecord;
use vstd::prelude::*;

verus! {

/// The stream joiner: it holds the finished index, takes the data rows of the
/// primary dataset one by one, in their order, and gives for each the merged
/// row to write, if the row has a partner. It counts what became of each row.
///
/// A run is in this phase from the moment the index is built until the primary
/// dataset is read to its end.
pub struct StreamJoiner {
    index: JoinIndex,
    from_position: usize,
    secondary: Ghost<Seq<Row>>,
    progress: Progress,
}

/// What changes from one primary row to the next: the counters, and the rows
/// taken so far.
struct Progress {
    stats: JoinStats,
    primary: Ghost<Seq<Row>>,
}

impl StreamJoiner {
    #[verifier::type_invariant]
    spec fn consistent(&self) -> bool {
        &&& self.index@ == index_of(self.secondary@, self.index.key_position())
        &&& self.progress.stats.counts(
            self.progress.primary@,
            self.from_position as int,
            self.secondary@,
            self.index.key_position(),
        )
    }

    /// The position of the key in the rows of the primary dataset.
    pub closed spec fn from_position(&self) -> int {
        self.from_position as int
    }

    /// The position of the key in the rows of the secondary dataset.
    pub closed spec fn join_position(&self) -> int {
        self.index.key_position()
    }

    /// The rows of the secondary dataset that the index was built of.
    pub closed spec fn indexed(&self) -> Seq<Row> {
        self.secondary@
    }

    /// The rows of the primary dataset taken so far, in the order in which
    /// they came.
    pub closed spec fn streamed(&self) -> Seq<Row> {
        self.progress.primary@
    }

    /// The index that primary rows are looked up in.
    pub open spec fn index(&self) -> Map<Seq<char>, Row> {
        index_of(self.indexed(), self.join_position())
    }

    /// All merged rows given so far, in the order in which they were given.
    pub open spec fn emitted(&self) -> Seq<Row> {
        joined(self.streamed(), self.from_position(), self.index(), self.join_position())
    }

    /// Starts streaming on the index that `builder` has built. The primary
    /// rows are keyed by their field at `from_position`.
    pub fn new(builder: IndexBuilder, from_position: usize) -> (joiner: StreamJoiner)
        ensures
            joiner.from_position() == from_position,
            joiner.join_position() == builder.key_position(),
            joiner.indexed() == builder.indexed(),
            joiner.streamed() == Seq::<Row>::empty(),
    {
        let ghost secondary = builder.indexed();
        let ghost join_pos = builder.key_position();
        let (index, secondary_rows, secondary_unkeyed) = builder.into_parts();
        let stats = JoinStats {
            primary_rows: 0,
            secondary_rows,
            secondary_unkeyed,
            matched: 0,
            unmatched: 0,
            primary_unkeyed: 0,
        };
        proof {
            lemma_no_rows(from_position as int, index_of(secondary, join_pos), join_pos);
        }
        StreamJoiner {
            index,
            from_position,
            secondary: Ghost(secondary),
            progress: Progress { stats, primary: Ghost(Seq::empty()) },
        }
    }

    /// Takes the next row of the primary dataset and gives the merged row to
    /// write for it, if any.
    ///
    /// A row whose key has a partner in the index gives its own fields
    /// followed by the partner's fields without the partner's key, and counts
    /// as matched. A row whose key has no partner gives nothing and counts as
    /// unmatched. A row too short to have a key gives nothing and counts as
    /// unkeyed.
    ///
    /// The counters are 64 bits wide, so the rows taken before this one must
    /// be fewer than `u64::MAX`; `stats().primary_rows` is their number.
    pub fn join(&mut self, row: &StringRecord) -> (out: Option<StringRecord>)
        requires
            old(self).streamed().len() < u64::MAX,
        ensures
            final(self).from_position() == old(self).from_position(),
            final(self).join_position() == old(self).join_position(),
            final(self).indexed() == old(self).indexed(),
            final(self).streamed() == old(self).streamed().push(record_fields(*row)),
            match out {
                Some(merged) => row_output(
                    record_fields(*row),
                    old(self).from_position(),
                    old(self).index(),
                    old(self).join_position(),
                ) == Some(record_fields(merged)),
                None => row_output(
                    record_fields(*row),
                    old(self).from_position(),
                    old(self).index(),
                    old(self).join_position(),
                ) is None,
            },
    {
        proof {
            use_type_invariant(&*self);
            lemma_joined_push(
                self.streamed(),
                self.from_position(),
                self.index(),
                self.join_position(),
                record_fields(*row),
            );
            lemma_unkeyed_count_push(self.streamed(), self.from_position(), record_fields(*row));
        }
        let mut stats = self.progress.stats;
        stats.primary_rows = stats.primary_rows + 1;
        let out = match row.get(self.from_position) {
            Some(key) => match self.index.get(key) {
                Some(partner) => {
                    stats.matched = stats.matched + 1;
                    Some(join_rows(row, partner, self.index.position()))
                },
                None => {
                    stats.unmatched = stats.unmatched + 1;
                    None
                },
            },
            None => {
                stats.primary_unkeyed = stats.primary_unkeyed + 1;
                None
            },
        };
        self.progress = Progress {
            stats,
            primary: Ghost(self.progress.primary@.push(record_fields(*row))),
        };
        out
    }

    /// The counters as they stand. Every primary row taken so far is counted
    /// once, as matched, as unmatched or as unkeyed.
    pub fn stats(&self) -> (stats: JoinStats)
        ensures
            stats.counts(
                self.streamed(),
                self.from_position(),
                self.indexed(),
                self.join_position(),
            ),
            stats.matched + stats.unmatched + stats.primary_unkeyed == stats.primary_rows,
            stats.matched == self.emitted().len(),
    {
        proof {
            use_type_invariant(self);
            lemma_counts_add_up(
                self.streamed(),
                self.from_position(),
                self.index(),
                self.join_position(),
            );
        }
        self.progress.stats
    }

    /// Ends the run in success after the last primary row: hands out the
    /// counters. A run without any match ends in success too.
    pub fn finish(self) -> (stats: JoinStats)
        ensures
            stats.counts(
                self.streamed(),
                self.from_position(),
                self.indexed(),
                self.join_position(),
            ),
            stats.matched + stats.unmatched + stats.primary_unkeyed == stats.primary_rows,
            stats.matched == self.emitted().len(),
    {
        self.stats()
    }

    /// Ends the run in failure because the reader of the primary dataset could
    /// not hand out a row. No counters are handed out; rows that were written
    /// before stay written.
    pub fn read_failed(self, cause: csv::Error) -> (error: JoinError)
        ensures
            error == (JoinError::MalformedRow { side: Side::Primary, cause }),
    {
        JoinError::MalformedRow { side: Side::Primary, cause }
    }

    /// Ends the run in failure because the output sink did not take the
    /// header or a row, or could not be flushed. No counters are handed out;
    /// rows that were written before stay written.
    pub fn write_failed(self, cause: csv::Error) -> (error: JoinError)
        ensures
            error == (JoinError::SinkError { cause }),
    {
        JoinError::SinkError { cause }
    }
}

} // verus!
