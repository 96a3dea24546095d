//! The join of two datasets that are held in memory.

use crate::csv_specs::record_fields;
use crate::error::{resolve_key, JoinError, Side};
use crate::index::IndexBuilder;
use crate::merge::join_rows;
use crate::model::{index_of, joined, key_position, lemma_joined_push, merged, Row};
use crate::stats::JoinStats;
use crate::stream::StreamJoiner;
use csv::StringRecord;
use vstd::prelude::*;

verus! {

/// A dataset: a header that names the columns, and the data rows.
#[derive(Debug)]
pub struct Table {
    /// The first row, which names each column.
    pub header: StringRecord,
    /// The rows after the header, in their order.
    pub rows: Vec<StringRecord>,
}

/// A dataset as the contracts see it.
pub ghost struct TableModel {
    pub header: Row,
    pub rows: Seq<Row>,
}

/// The fields of each of the records, in the order of the records.
pub open spec fn rows_of(records: Seq<StringRecord>) -> Seq<Row> {
    records.map_values(|record: StringRecord| record_fields(record))
}

impl View for Table {
    type V = TableModel;

    open spec fn view(&self) -> TableModel {
        TableModel { header: record_fields(self.header), rows: rows_of(self.rows@) }
    }
}

/// The join of `from` with `join` on the column named `key`.
///
/// The key is looked for in the header of `from` first: without it there the
/// join fails for the primary dataset, whatever `join` holds. Without it in
/// the header of `join` it fails for the secondary dataset. Else the output
/// header is the header of `from` merged with that of `join`, and the output
/// rows are those of `from` that have a partner among the rows of `join`,
/// each merged with its partner.
pub open spec fn join_of(from: TableModel, join: TableModel, key: Seq<char>) -> Result<
    TableModel,
    Side,
> {
    match (key_position(from.header, key), key_position(join.header, key)) {
        (None, _) => Err(Side::Primary),
        (Some(_), None) => Err(Side::Secondary),
        (Some(from_pos), Some(join_pos)) => Ok(
            TableModel {
                header: merged(from.header, join.header, join_pos),
                rows: joined(from.rows, from_pos, index_of(join.rows, join_pos), join_pos),
            },
        ),
    }
}

/// `result` is what joining `from` with `join` on `key` gives.
///
/// In success it is the joined dataset of [`join_of`], with the counters of
/// the primary rows against the index of the secondary rows. In failure it is
/// `KeyNotFound` for the dataset for which [`join_of`] fails, with the key and
/// the header of that dataset.
pub open spec fn is_join_result(
    from: TableModel,
    join: TableModel,
    key: Seq<char>,
    result: Result<(Table, JoinStats), JoinError>,
) -> bool {
    match result {
        Ok((table, stats)) => {
            &&& join_of(from, join, key) == Ok::<TableModel, Side>(table@)
            &&& stats.counts(
                from.rows,
                key_position(from.header, key).unwrap(),
                join.rows,
                key_position(join.header, key).unwrap(),
            )
        },
        Err(error) => {
            &&& error matches JoinError::KeyNotFound { side, key: name, header }
            &&& join_of(from, join, key) == Err::<TableModel, Side>(side)
            &&& name@ == key
            &&& record_fields(header) == match side {
                Side::Primary => from.header,
                Side::Secondary => join.header,
            }
        },
    }
}

/// Joins two datasets held in memory on the column named `key`, and gives the
/// joined dataset with the counters of the run.
///
/// Fails with `KeyNotFound` exactly when one of the two headers has no field
/// that equals `key`; the error is about the primary dataset whenever its
/// header lacks the key, and carries the key and the header that lacks it.
/// In success every primary row is counted once, as matched, as unmatched or
/// as unkeyed, and the matched rows are the output rows.
pub fn join_tables(from: &Table, join: &Table, key: &str) -> (result: Result<
    (Table, JoinStats),
    JoinError,
>)
    ensures
        is_join_result(from@, join@, key@, result),
        result matches Ok((table, stats)) ==> {
            &&& stats.matched + stats.unmatched + stats.primary_unkeyed == stats.primary_rows
            &&& stats.matched == table@.rows.len()
        },
{
    let from_position = match resolve_key(Side::Primary, &from.header, key) {
        Ok(position) => position,
        Err(error) => {
            return Err(error);
        },
    };
    let join_position = match resolve_key(Side::Secondary, &join.header, key) {
        Ok(position) => position,
        Err(error) => {
            return Err(error);
        },
    };
    let header = join_rows(&from.header, &join.header, join_position);

    let ghost secondary = rows_of(join.rows@);
    let mut builder = IndexBuilder::new(join_position);
    let mut taken: usize = 0;
    while taken < join.rows.len()
        invariant
            taken <= join.rows.len(),
            secondary == rows_of(join.rows@),
            builder.key_position() == join_position,
            builder.indexed() == secondary.take(taken as int),
        decreases join.rows.len() - taken,
    {
        builder.add(&join.rows[taken]);
        assert(secondary.take(taken + 1) == secondary.take(taken as int).push(
            secondary[taken as int],
        ));
        taken += 1;
    }
    assert(secondary.take(taken as int) == secondary);

    let ghost primary = rows_of(from.rows@);
    let ghost index = index_of(secondary, join_position as int);
    let mut joiner = StreamJoiner::new(builder, from_position);
    let mut rows: Vec<StringRecord> = Vec::new();
    let mut taken: usize = 0;
    assert(rows_of(rows@) == joiner.emitted());
    while taken < from.rows.len()
        invariant
            taken <= from.rows.len(),
            primary == rows_of(from.rows@),
            index == index_of(secondary, join_position as int),
            joiner.from_position() == from_position,
            joiner.join_position() == join_position,
            joiner.indexed() == secondary,
            joiner.streamed() == primary.take(taken as int),
            rows_of(rows@) == joiner.emitted(),
        decreases from.rows.len() - taken,
    {
        let ghost before = joiner.emitted();
        let ghost written = rows@;
        proof {
            lemma_joined_push(
                joiner.streamed(),
                from_position as int,
                index,
                join_position as int,
                primary[taken as int],
            );
        }
        if let Some(row) = joiner.join(&from.rows[taken]) {
            rows.push(row);
            assert(rows_of(rows@) == rows_of(written).push(record_fields(row)));
        }
        assert(primary.take(taken + 1) == primary.take(taken as int).push(primary[taken as int]));
        taken += 1;
    }
    assert(primary.take(taken as int) == primary);
    let stats = joiner.finish();
    Ok((Table { header, rows }, stats))
}

} // verus!
