//! A dense, struct-of-arrays row store keyed by recyclable integer identifiers.
//!
//! Rows live in parallel columns without gaps. Each row carries a stable
//! identifier issued by an [`IdAllocator`]; deletion is deferred: rows are
//! first marked and later removed in one batch, at which point their
//! identifiers return to the allocator.
//!
//! Two tables are offered. [`DenseTable`] grows on demand, keeps an
//! identifier-to-index map and compacts by moving the last row into each
//! hole. [`ArenaTable`] stores its columns in fixed-capacity [`Pool`]s and
//! compacts by a single forward pass that keeps the survivors in order.
//!
//! The contracts of both tables speak of one mathematical model,
//! [`TableModel`]. The module [`laws`] states what holds of every table;
//! [`query`] holds the scans, and [`partition`] divides the rows among the
//! workers of a concurrent scan.
pub mod arena_table;
pub mod compaction;
pub mod error;
pub mod id_allocator;
pub mod laws;
pub mod model;
pub mod partition;
pub mod pool;
pub mod query;
pub mod table;

pub use arena_table::ArenaTable;
pub use error::TableError;
pub use id_allocator::IdAllocator;
pub use id_allocator::IdState;
pub use model::TableModel;
pub use pool::Pool;
pub use table::DenseTable;
