//! An in-memory store of named record collections with the create, read,
//! replace, update and delete rules of a mock REST server.
//!
//! The store keeps every collection in insertion order and finds a record by
//! the text of its `id` field. Reads borrow the store shared, writes borrow it
//! exclusively, so a caller that guards one store with a reader/writer lock
//! gets exactly the exclusion the borrows ask for.

pub mod assoc;
pub mod laws;
pub mod model;
pub mod number;
pub mod record;
pub mod reply;
pub mod store;
pub mod text;
pub mod value;

pub use model::StoreError;
pub use record::Record;
pub use store::Store;
pub use value::{IdKind, Value};
