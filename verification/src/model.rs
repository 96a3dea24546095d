//! The mathematical model of rows, of the join index and of the joined
//! output, which the contracts of the executable code speak of.

use vstd::prelude::*;

verus! {

/// A row: its fields in order, each a sequence of characters.
pub type Row = Seq<Seq<char>>;

/// `i` is the position of the first field of `header` that equals `key`.
pub open spec fn is_key_position(header: Row, key: Seq<char>, i: int) -> bool {
    &&& 0 <= i < header.len()
    &&& header[i] == key
    &&& forall|j: int| 0 <= j < i ==> header[j] != key
}

/// The position of the first field of `header` that equals `key`, if there is
/// one.
pub open spec fn key_position(header: Row, key: Seq<char>) -> Option<int> {
    if header.contains(key) {
        Some(choose|i: int| is_key_position(header, key, i))
    } else {
        None
    }
}

/// The key of a row: its field at `pos`, if the row is long enough to have
/// one.
pub open spec fn key_of(row: Row, pos: int) -> Option<Seq<char>> {
    if 0 <= pos < row.len() {
        Some(row[pos])
    } else {
        None
    }
}

/// `row` without its field at `exclude`; all of `row` when it has no such
/// field.
pub open spec fn without_field(row: Row, exclude: int) -> Row {
    if 0 <= exclude < row.len() {
        row.remove(exclude)
    } else {
        row
    }
}

/// The merged row: the fields of `from`, then those of `to` but for the one at
/// `exclude`.
pub open spec fn merged(from: Row, to: Row, exclude: int) -> Row {
    from + without_field(to, exclude)
}

/// A first position is the only one.
pub proof fn lemma_key_position_unique(header: Row, key: Seq<char>, i: int, j: int)
    requires
        is_key_position(header, key, i),
        is_key_position(header, key, j),
    ensures
        i == j,
{
}

/// `key_position` is `Some(i)` exactly when `i` is the first position of the
/// key, and `None` exactly when no field equals the key.
pub proof fn lemma_key_position(header: Row, key: Seq<char>)
    ensures
        forall|i: int| is_key_position(header, key, i) <==> key_position(header, key) == Some(i),
        key_position(header, key) is None <==> !header.contains(key),
{
    if header.contains(key) {
        lemma_first_position_exists(header, key, header.len() as int);
        let first = choose|i: int| is_key_position(header, key, i);
        assert forall|i: int| is_key_position(header, key, i) implies i == first by {
            lemma_key_position_unique(header, key, i, first);
        }
    } else {
        assert forall|i: int| !is_key_position(header, key, i) by {
            if is_key_position(header, key, i) {
                assert(header.contains(header[i]));
            }
        }
    }
}

/// Among the first `n` fields, where one equals the key a first one does.
proof fn lemma_first_position_exists(header: Row, key: Seq<char>, n: int)
    requires
        0 <= n <= header.len(),
        exists|i: int| 0 <= i < n && header[i] == key,
    ensures
        exists|i: int| i < n && is_key_position(header, key, i),
    decreases n,
{
    if exists|i: int| 0 <= i < n - 1 && header[i] == key {
        lemma_first_position_exists(header, key, n - 1);
        let i = choose|i: int| i < n - 1 && is_key_position(header, key, i);
        assert(i < n && is_key_position(header, key, i));
    } else {
        assert(is_key_position(header, key, n - 1));
    }
}

/// Row `i` is the last of `rows` whose key at `pos` is `key`.
pub open spec fn is_last_with_key(rows: Seq<Row>, pos: int, key: Seq<char>, i: int) -> bool {
    &&& 0 <= i < rows.len()
    &&& key_of(rows[i], pos) == Some(key)
    &&& forall|j: int| i < j < rows.len() ==> key_of(rows[j], pos) != Some(key)
}

/// Some row of `rows` has the key `key` at `pos`.
pub open spec fn has_key(rows: Seq<Row>, pos: int, key: Seq<char>) -> bool {
    exists|i: int| 0 <= i < rows.len() && key_of(rows[i], pos) == Some(key)
}

/// The join index of `rows`, keyed by the field at `pos`: every key that some
/// row has is mapped to the last row that has it. A row too short to have a
/// field at `pos` is not indexed.
pub open spec fn index_of(rows: Seq<Row>, pos: int) -> Map<Seq<char>, Row> {
    Map::new(
        |key: Seq<char>| has_key(rows, pos, key),
        |key: Seq<char>| rows[choose|i: int| is_last_with_key(rows, pos, key, i)],
    )
}

/// At most one row is the last with a given key.
pub proof fn lemma_last_with_key_unique(rows: Seq<Row>, pos: int, key: Seq<char>, i: int, j: int)
    requires
        is_last_with_key(rows, pos, key, i),
        is_last_with_key(rows, pos, key, j),
    ensures
        i == j,
{
}

/// Among the first `n` rows, where one has the key a last one has it.
proof fn lemma_last_with_key_exists(rows: Seq<Row>, pos: int, key: Seq<char>, n: int)
    requires
        0 <= n <= rows.len(),
        exists|i: int| 0 <= i < n && key_of(rows[i], pos) == Some(key),
    ensures
        exists|i: int| is_last_with_key(rows.take(n), pos, key, i),
    decreases n,
{
    let front = rows.take(n);
    if key_of(rows[n - 1], pos) == Some(key) {
        assert(is_last_with_key(front, pos, key, n - 1));
    } else {
        let shorter = rows.take(n - 1);
        lemma_last_with_key_exists(rows, pos, key, n - 1);
        let i = choose|i: int| is_last_with_key(shorter, pos, key, i);
        assert(shorter[i] == front[i]);
        assert forall|j: int| i < j < front.len() implies key_of(front[j], pos) != Some(key) by {
            if j < n - 1 {
                assert(shorter[j] == front[j]);
            }
        }
        assert(is_last_with_key(front, pos, key, i));
    }
}

/// The index holds, for a key, the row that is the last with that key.
pub proof fn lemma_index_entry(rows: Seq<Row>, pos: int, key: Seq<char>, i: int)
    requires
        is_last_with_key(rows, pos, key, i),
    ensures
        index_of(rows, pos).contains_key(key),
        index_of(rows, pos)[key] == rows[i],
{
    let chosen = choose|i: int| is_last_with_key(rows, pos, key, i);
    lemma_last_with_key_unique(rows, pos, key, i, chosen);
}

/// Every key of the index has a last row, and the index holds that row.
pub proof fn lemma_index_key(rows: Seq<Row>, pos: int, key: Seq<char>) -> (i: int)
    requires
        index_of(rows, pos).contains_key(key),
    ensures
        is_last_with_key(rows, pos, key, i),
        index_of(rows, pos)[key] == rows[i],
{
    assert(rows.take(rows.len() as int) == rows);
    lemma_last_with_key_exists(rows, pos, key, rows.len() as int);
    let i = choose|i: int| is_last_with_key(rows, pos, key, i);
    i
}

/// Indexing one more row: a row with a key takes that key's entry, whatever
/// was there; a row too short for a key changes nothing.
pub proof fn lemma_index_push(rows: Seq<Row>, pos: int, row: Row)
    ensures
        index_of(rows.push(row), pos) == match key_of(row, pos) {
            Some(key) => index_of(rows, pos).insert(key, row),
            None => index_of(rows, pos),
        },
{
    let more = rows.push(row);
    let old_index = index_of(rows, pos);
    let new_index = index_of(more, pos);
    let expected = match key_of(row, pos) {
        Some(key) => old_index.insert(key, row),
        None => old_index,
    };
    assert forall|key: Seq<char>| new_index.contains_key(key) <==> expected.contains_key(key) by {
        if new_index.contains_key(key) {
            let i = choose|i: int| 0 <= i < more.len() && key_of(more[i], pos) == Some(key);
            if i < rows.len() {
                assert(key_of(rows[i], pos) == Some(key));
            }
        }
        if expected.contains_key(key) {
            if key_of(row, pos) == Some(key) {
                assert(key_of(more[rows.len() as int], pos) == Some(key));
            } else {
                let i = choose|i: int| 0 <= i < rows.len() && key_of(rows[i], pos) == Some(key);
                assert(key_of(more[i], pos) == Some(key));
            }
        }
    }
    assert forall|key: Seq<char>| new_index.contains_key(key) implies new_index[key]
        == expected[key] by {
        let last = lemma_index_key(more, pos, key);
        if key_of(row, pos) == Some(key) {
            assert(key_of(more[rows.len() as int], pos) == Some(key));
            assert(last == rows.len());
        } else {
            assert(last < rows.len());
            assert forall|j: int| last < j < rows.len() implies key_of(rows[j], pos) != Some(
                key,
            ) by {
                assert(rows[j] == more[j]);
            }
            assert(is_last_with_key(rows, pos, key, last));
            lemma_index_entry(rows, pos, key, last);
        }
    }
    assert(new_index =~= expected);
}

/// The number of rows that are too short to have a field at `pos`.
pub open spec fn unkeyed_count(rows: Seq<Row>, pos: int) -> nat {
    rows.filter(|row: Row| key_of(row, pos) is None).len()
}

/// The row has a key at `from_pos`, and the index holds a row for that key.
pub open spec fn has_partner(row: Row, from_pos: int, index: Map<Seq<char>, Row>) -> bool {
    key_of(row, from_pos) matches Some(key) && index.contains_key(key)
}

/// What one primary row gives to the output: merged with its partner where it
/// has one, and nothing where it has no key or its key has no partner.
pub open spec fn row_output(
    row: Row,
    from_pos: int,
    index: Map<Seq<char>, Row>,
    join_pos: int,
) -> Option<Row> {
    if has_partner(row, from_pos, index) {
        Some(merged(row, index[row[from_pos]], join_pos))
    } else {
        None
    }
}

/// The output rows of the join: the merged rows of those primary rows that
/// have a partner, in the order of the primary rows.
pub open spec fn joined(
    rows: Seq<Row>,
    from_pos: int,
    index: Map<Seq<char>, Row>,
    join_pos: int,
) -> Seq<Row> {
    rows.filter_map(|row: Row| row_output(row, from_pos, index, join_pos))
}

/// The number of primary rows that have a partner.
pub open spec fn matched_count(rows: Seq<Row>, from_pos: int, index: Map<Seq<char>, Row>) -> nat {
    rows.filter(|row: Row| has_partner(row, from_pos, index)).len()
}

/// The number of primary rows that have a key for which the index holds no
/// row.
pub open spec fn unmatched_count(
    rows: Seq<Row>,
    from_pos: int,
    index: Map<Seq<char>, Row>,
) -> nat {
    rows.filter(
        |row: Row| key_of(row, from_pos) is Some && !has_partner(row, from_pos, index),
    ).len()
}

/// Without rows there is no output, and every count is zero.
pub proof fn lemma_no_rows(from_pos: int, index: Map<Seq<char>, Row>, join_pos: int)
    ensures
        joined(Seq::<Row>::empty(), from_pos, index, join_pos) == Seq::<Row>::empty(),
        matched_count(Seq::<Row>::empty(), from_pos, index) == 0,
        unmatched_count(Seq::<Row>::empty(), from_pos, index) == 0,
        unkeyed_count(Seq::<Row>::empty(), from_pos) == 0,
{
    let none = Seq::<Row>::empty();
    none.lemma_filter_len(|row: Row| has_partner(row, from_pos, index));
    none.lemma_filter_len(
        |row: Row| key_of(row, from_pos) is Some && !has_partner(row, from_pos, index),
    );
    none.lemma_filter_len(|row: Row| key_of(row, from_pos) is None);
}

/// Counting one more row: the count of unkeyed rows grows by one exactly when
/// the row is too short to have a key.
pub proof fn lemma_unkeyed_count_push(rows: Seq<Row>, pos: int, row: Row)
    ensures
        unkeyed_count(rows.push(row), pos) == unkeyed_count(rows, pos) + if key_of(
            row,
            pos,
        ) is None {
            1nat
        } else {
            0nat
        },
{
    broadcast use Seq::lemma_filter_len_push;

}

/// Joining one more primary row: its merged row comes last in the output, or
/// the output stays as it was, and exactly one of the three counts grows.
pub proof fn lemma_joined_push(
    rows: Seq<Row>,
    from_pos: int,
    index: Map<Seq<char>, Row>,
    join_pos: int,
    row: Row,
)
    ensures
        joined(rows.push(row), from_pos, index, join_pos) == match row_output(
            row,
            from_pos,
            index,
            join_pos,
        ) {
            Some(out) => joined(rows, from_pos, index, join_pos).push(out),
            None => joined(rows, from_pos, index, join_pos),
        },
        matched_count(rows.push(row), from_pos, index) == matched_count(rows, from_pos, index)
            + if has_partner(row, from_pos, index) {
            1nat
        } else {
            0nat
        },
        unmatched_count(rows.push(row), from_pos, index) == unmatched_count(rows, from_pos, index)
            + if key_of(row, from_pos) is Some && !has_partner(row, from_pos, index) {
            1nat
        } else {
            0nat
        },
{
    broadcast use Seq::lemma_filter_len_push;

    assert(rows.push(row).drop_last() == rows);
    match row_output(row, from_pos, index, join_pos) {
        Some(out) => {
            assert(joined(rows, from_pos, index, join_pos) + seq![out] == joined(
                rows,
                from_pos,
                index,
                join_pos,
            ).push(out));
        },
        None => {},
    }
}

/// Every primary row is counted once, as matched, as unmatched or as unkeyed,
/// and the matched rows are as many as the output rows.
pub proof fn lemma_counts_add_up(
    rows: Seq<Row>,
    from_pos: int,
    index: Map<Seq<char>, Row>,
    join_pos: int,
)
    ensures
        matched_count(rows, from_pos, index) + unmatched_count(rows, from_pos, index)
            + unkeyed_count(rows, from_pos) == rows.len(),
        joined(rows, from_pos, index, join_pos).len() == matched_count(rows, from_pos, index),
    decreases rows.len(),
{
    if rows.len() == 0 {
        assert(rows == Seq::<Row>::empty());
        lemma_no_rows(from_pos, index, join_pos);
    } else {
        let front = rows.drop_last();
        assert(rows == front.push(rows.last()));
        lemma_counts_add_up(front, from_pos, index, join_pos);
        lemma_joined_push(front, from_pos, index, join_pos, rows.last());
        lemma_unkeyed_count_push(front, from_pos, rows.last());
    }
}

} // verus!
