//! The local store of a conversation recorder: its versioned schema, the
//! decisions of a forward-only migration run, and an in-memory image of the
//! tables that keeps the schema's constraints.

pub mod greeting;
pub mod migration;
pub mod migrator;
pub mod registry;
pub mod settings;
pub mod store;
