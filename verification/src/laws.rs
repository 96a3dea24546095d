//! What holds of every join, stated over the model and proved.

use crate::csv_specs::record_fields;
use crate::error::{JoinError, Side};
use crate::model::{
    has_key, index_of, is_key_position, is_last_with_key, joined, key_of, key_position,
    lemma_counts_add_up, lemma_index_entry, lemma_index_key, lemma_joined_push,
    lemma_key_position, merged, row_output, Row,
};
use crate::stats::JoinStats;
use crate::table::{is_join_result, join_of, Table, TableModel};
use vstd::prelude::*;

verus! {

/// No two rows have the same key at `pos`.
pub open spec fn keys_distinct(rows: Seq<Row>, pos: int) -> bool {
    forall|i: int, j: int|
        0 <= i < j < rows.len() && key_of(rows[i], pos) is Some ==> key_of(rows[i], pos) != key_of(
            rows[j],
            pos,
        )
}

/// The output of the first `n` primary rows opens the output of all of them:
/// a row never changes what earlier rows gave.
pub proof fn lemma_joined_prefix(
    rows: Seq<Row>,
    from_pos: int,
    index: Map<Seq<char>, Row>,
    join_pos: int,
    n: int,
)
    requires
        0 <= n <= rows.len(),
    ensures
        joined(rows.take(n), from_pos, index, join_pos).is_prefix_of(
            joined(rows, from_pos, index, join_pos),
        ),
    decreases rows.len() - n,
{
    if n < rows.len() {
        lemma_joined_prefix(rows, from_pos, index, join_pos, n + 1);
        assert(rows.take(n + 1) == rows.take(n).push(rows[n]));
        lemma_joined_push(rows.take(n), from_pos, index, join_pos, rows[n]);
    } else {
        assert(rows.take(n) == rows);
    }
}

/// Inner join. Let no two secondary rows share a key. Then primary row `i`
/// gives exactly one output row where some secondary row has its key: the
/// merge of the two, which stands in the output right behind what the rows
/// before `i` gave. Where the row has no key, or no secondary row has its key,
/// it gives nothing.
pub proof fn lemma_inner_join(
    primary: Seq<Row>,
    from_pos: int,
    secondary: Seq<Row>,
    join_pos: int,
    i: int,
)
    requires
        0 <= i < primary.len(),
        keys_distinct(secondary, join_pos),
    ensures
        ({
            let index = index_of(secondary, join_pos);
            let before = joined(primary.take(i), from_pos, index, join_pos);
            let upto = joined(primary.take(i + 1), from_pos, index, join_pos);
            &&& upto.is_prefix_of(joined(primary, from_pos, index, join_pos))
            &&& forall|j: int|
                0 <= j < secondary.len() && key_of(primary[i], from_pos) is Some && key_of(
                    #[trigger] secondary[j],
                    join_pos,
                ) == key_of(primary[i], from_pos) ==> upto == before.push(
                    merged(primary[i], secondary[j], join_pos),
                )
            &&& (key_of(primary[i], from_pos) matches Some(key) ==> !has_key(
                secondary,
                join_pos,
                key,
            )) ==> upto == before
        }),
{
    let index = index_of(secondary, join_pos);
    let before = joined(primary.take(i), from_pos, index, join_pos);
    let upto = joined(primary.take(i + 1), from_pos, index, join_pos);
    lemma_joined_prefix(primary, from_pos, index, join_pos, i + 1);
    assert(primary.take(i + 1) == primary.take(i).push(primary[i]));
    lemma_joined_push(primary.take(i), from_pos, index, join_pos, primary[i]);
    assert forall|j: int|
        0 <= j < secondary.len() && key_of(primary[i], from_pos) is Some && key_of(
            #[trigger] secondary[j],
            join_pos,
        ) == key_of(primary[i], from_pos) implies upto == before.push(
        merged(primary[i], secondary[j], join_pos),
    ) by {
        let key = key_of(primary[i], from_pos).unwrap();
        assert(is_last_with_key(secondary, join_pos, key, j));
        lemma_index_entry(secondary, join_pos, key, j);
    }
}

/// Last write wins. Where secondary row `j` is the last with the key of a
/// primary row, that row is merged with row `j`, whatever rows with the same
/// key came before it.
pub proof fn lemma_last_write_wins(
    row: Row,
    from_pos: int,
    secondary: Seq<Row>,
    join_pos: int,
    j: int,
)
    requires
        key_of(row, from_pos) matches Some(key) && is_last_with_key(secondary, join_pos, key, j),
    ensures
        row_output(row, from_pos, index_of(secondary, join_pos), join_pos) == Some(
            merged(row, secondary[j], join_pos),
        ),
{
    lemma_index_entry(secondary, join_pos, key_of(row, from_pos).unwrap(), j);
}

/// The index depends on nothing but the last row of each key: two secondary
/// datasets in which every key has the same last row give the same index, and
/// so the same output for every primary dataset.
pub proof fn lemma_index_of_last_rows(first: Seq<Row>, second: Seq<Row>, pos: int)
    requires
        forall|key: Seq<char>, i: int| #[trigger]
            is_last_with_key(first, pos, key, i) ==> exists|j: int|
                is_last_with_key(second, pos, key, j) && second[j] == first[i],
        forall|key: Seq<char>, j: int| #[trigger]
            is_last_with_key(second, pos, key, j) ==> exists|i: int|
                is_last_with_key(first, pos, key, i) && first[i] == second[j],
    ensures
        index_of(first, pos) == index_of(second, pos),
{
    let a = index_of(first, pos);
    let b = index_of(second, pos);
    assert forall|key: Seq<char>| #[trigger] a.contains_key(key) implies b.contains_key(key)
        && a[key] == b[key] by {
        let i = lemma_index_key(first, pos, key);
        let j = choose|j: int| is_last_with_key(second, pos, key, j) && second[j] == first[i];
        lemma_index_entry(second, pos, key, j);
    }
    assert forall|key: Seq<char>| #[trigger] b.contains_key(key) implies a.contains_key(key) by {
        let j = lemma_index_key(second, pos, key);
        let i = choose|i: int| is_last_with_key(first, pos, key, i) && first[i] == second[j];
        lemma_index_entry(first, pos, key, i);
    }
    assert(a =~= b);
}

/// Every output row is the merge of a primary row with the secondary row that
/// is the last with its key, and has one field less than the two together.
pub proof fn lemma_output_row(
    primary: Seq<Row>,
    from_pos: int,
    secondary: Seq<Row>,
    join_pos: int,
    k: int,
) -> (source: (int, int))
    requires
        0 <= k < joined(primary, from_pos, index_of(secondary, join_pos), join_pos).len(),
    ensures
        ({
            let out = joined(primary, from_pos, index_of(secondary, join_pos), join_pos)[k];
            let (i, j) = source;
            &&& 0 <= i < primary.len()
            &&& key_of(primary[i], from_pos) matches Some(key)
            &&& is_last_with_key(secondary, join_pos, key, j)
            &&& out == merged(primary[i], secondary[j], join_pos)
            &&& out.len() == primary[i].len() + secondary[j].len() - 1
        }),
{
    let index = index_of(secondary, join_pos);
    let give = |row: Row| row_output(row, from_pos, index, join_pos);
    let all = joined(primary, from_pos, index, join_pos);
    assert(all.contains(all[k]));
    primary.lemma_filter_map_contains(give, all[k]);
    let row = choose|row: Row| #[trigger] primary.contains(row) && give(row) == Some(all[k]);
    let i = choose|i: int| 0 <= i < primary.len() && primary[i] == row;
    let j = lemma_index_key(secondary, join_pos, row[from_pos]);
    (i, j)
}

/// The field count of the output. Where every primary row has `from_count`
/// fields and every secondary row has `join_count` fields, every output row
/// has `from_count + join_count - 1` fields: the key column comes once.
pub proof fn lemma_output_field_count(
    primary: Seq<Row>,
    from_pos: int,
    secondary: Seq<Row>,
    join_pos: int,
    from_count: nat,
    join_count: nat,
)
    requires
        forall|i: int| 0 <= i < primary.len() ==> (#[trigger] primary[i]).len() == from_count,
        forall|j: int| 0 <= j < secondary.len() ==> (#[trigger] secondary[j]).len() == join_count,
    ensures
        forall|k: int|
            0 <= k < joined(primary, from_pos, index_of(secondary, join_pos), join_pos).len()
                ==> (#[trigger] joined(
                primary,
                from_pos,
                index_of(secondary, join_pos),
                join_pos,
            )[k]).len() == from_count + join_count - 1,
{
    let all = joined(primary, from_pos, index_of(secondary, join_pos), join_pos);
    assert forall|k: int| 0 <= k < all.len() implies (#[trigger] all[k]).len() == from_count
        + join_count - 1 by {
        let (i, j) = lemma_output_row(primary, from_pos, secondary, join_pos, k);
    }
}

/// The output header. A join that succeeds gives as header the primary header
/// followed by the secondary header without the key column, which is one
/// field less than the two headers together.
pub proof fn lemma_output_header(from: TableModel, join: TableModel, key: Seq<char>)
    requires
        join_of(from, join, key) is Ok,
    ensures
        key_position(join.header, key) matches Some(join_pos) && join_of(
            from,
            join,
            key,
        )->Ok_0.header == from.header + join.header.remove(join_pos),
        join_of(from, join, key)->Ok_0.header.len() == from.header.len() + join.header.len() - 1,
{
    lemma_key_position(join.header, key);
    let join_pos = key_position(join.header, key).unwrap();
    assert(is_key_position(join.header, key, join_pos));
}

/// A key that the primary header lacks fails the join for the primary
/// dataset, whatever the secondary dataset holds.
pub proof fn lemma_primary_key_first(from: TableModel, join: TableModel, key: Seq<char>)
    requires
        !from.header.contains(key),
    ensures
        join_of(from, join, key) == Err::<TableModel, Side>(Side::Primary),
{
}

/// The join can be repeated. Two runs on the same datasets and key end alike:
/// both succeed, with the same header, the same rows in the same order and
/// the same counters, or both fail for the same dataset, with the same key and
/// the same header.
pub proof fn lemma_join_repeatable(
    from: TableModel,
    join: TableModel,
    key: Seq<char>,
    first: Result<(Table, JoinStats), JoinError>,
    second: Result<(Table, JoinStats), JoinError>,
)
    requires
        is_join_result(from, join, key, first),
        is_join_result(from, join, key, second),
    ensures
        match (first, second) {
            (Ok((first_table, first_stats)), Ok((second_table, second_stats))) => {
                &&& first_table@ == second_table@
                &&& first_stats == second_stats
            },
            (
                Err(
                    JoinError::KeyNotFound {
                        side: first_side,
                        key: first_key,
                        header: first_header,
                    },
                ),
                Err(
                    JoinError::KeyNotFound {
                        side: second_side,
                        key: second_key,
                        header: second_header,
                    },
                ),
            ) => {
                &&& first_side == second_side
                &&& first_key@ == second_key@
                &&& record_fields(first_header) == record_fields(second_header)
            },
            _ => false,
        },
{
}

/// The counters of a run add up: matched, unmatched and unkeyed primary rows
/// are all the primary rows.
pub proof fn lemma_stats_add_up(
    stats: JoinStats,
    primary: Seq<Row>,
    from_pos: int,
    secondary: Seq<Row>,
    join_pos: int,
)
    requires
        stats.counts(primary, from_pos, secondary, join_pos),
    ensures
        stats.matched + stats.unmatched + stats.primary_unkeyed == stats.primary_rows,
        stats.matched == joined(primary, from_pos, index_of(secondary, join_pos), join_pos).len(),
{
    lemma_counts_add_up(primary, from_pos, index_of(secondary, join_pos), join_pos);
}

} // verus!
