//! Single-table storage of a small object graph (lists owning items) on a
//! key-value store with a primary key and one secondary index.
//!
//! - `id`: typed, time-ordered identifiers and their text form.
//! - `item`, `config`, `errors`: attribute maps, key types, settings, errors.
//! - `store`: the primitives a store provides; `memtable`: one held in memory.
//! - `table`: key-shaped access with the secondary projection on every write.
//! - `todo`, `todo_list`: the entity operations, including relocation.
//! - `schema`: the requests the service answers.
pub mod config;
pub mod errors;
pub mod id;
pub mod item;
pub mod memtable;
pub mod schema;
pub mod store;
pub mod table;
pub mod todo;
pub mod todo_list;
