//! Key-based join of two tabular datasets held as CSV records.
//!
//! Every row of the primary dataset whose key has a partner in the secondary
//! dataset is written once, merged with that partner; the other rows are
//! dropped. Where several secondary rows share a key, the last of them is the
//! partner.
//!
//! A run goes through its phases in one direction, and each phase is a value
//! that the next step consumes:
//!
//! - at the start nothing is resolved; [`resolve_key`] finds the key's
//!   position in a header, first in the primary one, then in the secondary
//!   one, and [`join_rows`] of the two headers gives the output header;
//! - with both headers resolved, an [`IndexBuilder`] takes the secondary rows;
//! - with the index built, a [`StreamJoiner`] made of the builder takes the
//!   primary rows and gives the rows to write;
//! - the run is done when the joiner is finished for its [`JoinStats`], and
//!   has failed when a builder or joiner is given up for a [`JoinError`].
//!
//! Reading and writing are the caller's. [`join_tables`] is the whole run on
//! two datasets held in memory.
//!
//! The contracts speak of rows as sequences of fields ([`model`]); [`laws`]
//! holds what is proved of every join; [`csv_specs`] holds what is assumed of
//! the `csv` crate.

pub mod csv_specs;
pub mod error;
pub mod header;
pub mod index;
pub mod laws;
pub mod merge;
pub mod model;
pub mod stats;
pub mod stream;
pub mod table;

pub use crate::error::{resolve_key, JoinError, Side};
pub use crate::header::{find_key_position, key_not_found_message, KeyNotFound};
pub use crate::index::{IndexBuilder, JoinIndex};
pub use crate::merge::join_rows;
pub use crate::stats::JoinStats;
pub use crate::stream::StreamJoiner;
pub use crate::table::{join_tables, Table};
