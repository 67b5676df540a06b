//! An in-memory table that keeps any number of secondary indexes in step with
//! its rows.
//!
//! A [`HashSync`] owns the rows and the indexes registered on it. Every
//! mutation of the rows is also applied to each index, so that a lookup through
//! an [`IndexRead`] handle returns exactly the live rows whose key function
//! produces the key that was asked for. An index that the store has dropped
//! is no longer told of mutations; a lookup through it still returns only
//! rows that are live.
pub mod fx;
pub mod hashsync;
pub mod id;
pub mod index;
pub mod key_fn;
pub mod laws;
pub mod row_table;

pub use hashsync::HashSync;
pub use id::{Indexed, RowId};
pub use index::{Index, IndexId, IndexRead, IndexWrite, Indexable};
pub use key_fn::{KeyFn, OneKey, ValueKey, ValueKeys};
pub use row_table::RowTable;
