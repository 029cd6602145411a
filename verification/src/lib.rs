//! An indexed ring-buffer store for a live log stream: a bounded window of
//! recent entries, dynamic per-criterion secondary indices kept consistent
//! with the window across evictions, and the field-matching algorithm that
//! decides which indices a structured entry belongs to.

pub mod order;
pub mod proto;
pub mod matcher;
pub mod buffer;
pub mod index;
pub mod store;
pub mod ingest;
pub mod session;
pub mod client_state;
