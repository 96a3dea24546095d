//! The join index: the rows of the secondary dataset by their key.

use crate::csv_specs::record_fields;
use crate::error::{JoinError, Side};
use crate::model::{
    index_of, key_of, lemma_index_push, lemma_no_rows, lemma_unkeyed_count_push, unkeyed_count,
    Row,
};
use csv::StringRecord;
use vstd::hash_map::StringHashMap;
use vstd::prelude::*;

verus! {

/// A mapping from key to the row of the secondary dataset that was inserted
/// last under that key.
pub struct JoinIndex {
    position: usize,
    rows: StringHashMap<StringRecord>,
}

impl View for JoinIndex {
    type V = Map<Seq<char>, Row>;

    /// The index as a map from key to the fields of the row kept for it.
    closed spec fn view(&self) -> Map<Seq<char>, Row> {
        self.rows@.map_values(|record: StringRecord| record_fields(record))
    }
}

impl JoinIndex {
    #[verifier::type_invariant]
    spec fn keyed(&self) -> bool {
        forall|key: Seq<char>| #[trigger]
            self.rows@.contains_key(key) ==> key_of(
                record_fields(self.rows@[key]),
                self.position as int,
            ) == Some(key)
    }

    /// The position, in the rows of the secondary dataset, of the field that
    /// rows are indexed by.
    pub closed spec fn key_position(&self) -> int {
        self.position as int
    }

    /// An index without rows, for rows keyed by their field at `position`.
    pub fn new(position: usize) -> (index: JoinIndex)
        ensures
            index@ == Map::<Seq<char>, Row>::empty(),
            index.key_position() == position,
    {
        let index = JoinIndex { position, rows: StringHashMap::new() };
        assert(index@ =~= Map::<Seq<char>, Row>::empty());
        index
    }

    /// Inserts a row under its key, in place of the row that the index held
    /// for that key, if any. A row too short to have a key is not inserted.
    /// Returns whether the row had a key.
    pub fn insert(&mut self, row: &StringRecord) -> (keyed: bool)
        ensures
            final(self).key_position() == old(self).key_position(),
            keyed == key_of(record_fields(*row), old(self).key_position()) is Some,
            final(self)@ == match key_of(record_fields(*row), old(self).key_position()) {
                Some(key) => old(self)@.insert(key, record_fields(*row)),
                None => old(self)@,
            },
    {
        proof {
            use_type_invariant(&*self);
        }
        match row.get(self.position) {
            Some(key) => {
                // The map is taken out while it changes, and put back after.
                let mut rows = StringHashMap::new();
                std::mem::swap(&mut rows, &mut self.rows);
                rows.insert(key.to_owned(), row.clone());
                self.rows = rows;
                assert(self@ =~= old(self)@.insert(key@, record_fields(*row)));
                true
            },
            None => false,
        }
    }

    /// The position of the field that rows are indexed by.
    pub fn position(&self) -> (position: usize)
        ensures
            position == self.key_position(),
    {
        self.position
    }

    /// The row kept for `key`, if there is one. A row that the index keeps
    /// has its key at the index's key position.
    pub fn get(&self, key: &str) -> (found: Option<&StringRecord>)
        ensures
            match found {
                Some(row) => {
                    &&& self@.contains_key(key@)
                    &&& record_fields(*row) == self@[key@]
                    &&& key_of(record_fields(*row), self.key_position()) == Some(key@)
                },
                None => !self@.contains_key(key@),
            },
    {
        proof {
            use_type_invariant(self);
        }
        self.rows.get(key)
    }
}

/// The join index builder: it takes the data rows of the secondary dataset
/// one by one, in their order, and keeps the index of the rows taken so far
/// together with two counts, of all rows and of the rows without a key.
///
/// A run is in this phase from the moment both headers are resolved until the
/// secondary dataset is read to its end.
pub struct IndexBuilder {
    index: JoinIndex,
    rows: u64,
    unkeyed: u64,
    taken: Ghost<Seq<Row>>,
}

impl IndexBuilder {
    #[verifier::type_invariant]
    spec fn consistent(&self) -> bool {
        &&& self.index@ == index_of(self.taken@, self.index.key_position())
        &&& self.rows == self.taken@.len()
        &&& self.unkeyed == unkeyed_count(self.taken@, self.index.key_position())
    }

    /// The position of the key in the rows of the secondary dataset.
    pub closed spec fn key_position(&self) -> int {
        self.index.key_position()
    }

    /// The rows taken so far, in the order in which they came.
    pub closed spec fn indexed(&self) -> Seq<Row> {
        self.taken@
    }

    /// A builder that has taken no row, for rows keyed by their field at
    /// `position`.
    pub fn new(position: usize) -> (builder: IndexBuilder)
        ensures
            builder.key_position() == position,
            builder.indexed() == Seq::<Row>::empty(),
    {
        let index = JoinIndex::new(position);
        assert(index@ =~= index_of(Seq::<Row>::empty(), position as int));
        proof {
            lemma_no_rows(position as int, index@, position as int);
        }
        IndexBuilder { index, rows: 0, unkeyed: 0, taken: Ghost(Seq::empty()) }
    }

    /// Takes the next row of the secondary dataset. A row with a key is
    /// indexed under it, in place of any earlier row with the same key; a row
    /// too short to have a key is counted as unkeyed and otherwise passed
    /// over. Returns whether the row had a key.
    ///
    /// The counters are 64 bits wide, so the rows taken before this one must
    /// be fewer than `u64::MAX`; `rows_seen()` is their number.
    pub fn add(&mut self, row: &StringRecord) -> (keyed: bool)
        requires
            old(self).indexed().len() < u64::MAX,
        ensures
            final(self).key_position() == old(self).key_position(),
            final(self).indexed() == old(self).indexed().push(record_fields(*row)),
            keyed == key_of(record_fields(*row), old(self).key_position()) is Some,
    {
        proof {
            use_type_invariant(&*self);
            lemma_index_push(self.taken@, self.key_position(), record_fields(*row));
            lemma_unkeyed_count_push(self.taken@, self.key_position(), record_fields(*row));
            self.taken@.lemma_filter_len(|row: Row| key_of(row, self.key_position()) is None);
        }
        // The index and the counters change together: the builder is taken
        // apart and put together again as a whole.
        let mut current = IndexBuilder::new(0);
        std::mem::swap(self, &mut current);
        let IndexBuilder { mut index, rows, unkeyed, taken } = current;
        let keyed = index.insert(row);
        *self = IndexBuilder {
            index,
            rows: rows + 1,
            unkeyed: if keyed {
                unkeyed
            } else {
                unkeyed + 1
            },
            taken: Ghost(taken@.push(record_fields(*row))),
        };
        keyed
    }

    /// The number of rows taken so far.
    pub fn rows_seen(&self) -> (count: u64)
        ensures
            count == self.indexed().len(),
    {
        proof {
            use_type_invariant(self);
        }
        self.rows
    }

    /// The number of rows taken so far that were too short to have a key.
    pub fn rows_unkeyed(&self) -> (count: u64)
        ensures
            count == unkeyed_count(self.indexed(), self.key_position()),
    {
        proof {
            use_type_invariant(self);
        }
        self.unkeyed
    }

    /// The index of the rows taken so far.
    pub fn index(&self) -> (index: &JoinIndex)
        ensures
            index.key_position() == self.key_position(),
            index@ == index_of(self.indexed(), self.key_position()),
    {
        proof {
            use_type_invariant(self);
        }
        &self.index
    }

    /// Ends the run in failure because the reader of the secondary dataset
    /// could not hand out a row. What was indexed so far is given up.
    pub fn read_failed(self, cause: csv::Error) -> (error: JoinError)
        ensures
            error == (JoinError::MalformedRow { side: Side::Secondary, cause }),
    {
        JoinError::MalformedRow { side: Side::Secondary, cause }
    }

    /// Ends the building: hands over the index with the two counts.
    pub(crate) fn into_parts(self) -> (parts: (JoinIndex, u64, u64))
        ensures
            parts.0.key_position() == self.key_position(),
            parts.0@ == index_of(self.indexed(), self.key_position()),
            parts.1 == self.indexed().len(),
            parts.2 == unkeyed_count(self.indexed(), self.key_position()),
    {
        proof {
            use_type_invariant(&self);
        }
        (self.index, self.rows, self.unkeyed)
    }
}

} // verus!
