//! A typed indexed-object persistence layer over an embedded relational
//! storage engine.  Each record type declares an ordered list of indexed
//! fields that become queryable text columns; the whole record is also
//! serialized into one payload column.  The query synthesizer derives the
//! statement text and positional bind order for create, insert, select,
//! update and delete, and the store executes them against the engine.

pub mod codec;
pub mod engine;
pub mod laws;
pub mod model;
pub mod records;
pub mod sql;
pub mod store;
pub mod traits;
pub mod value;

pub use records::{Example, ExampleIndicies, User, UserIndicies};
pub use sql::object_key;
pub use store::{decode_payloads, Store, StoreError};
pub use traits::{IndexValue, Storable};
pub use value::Value;
