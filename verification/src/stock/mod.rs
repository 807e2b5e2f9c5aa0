//! Ready-made implementations of the engine's traits.

pub mod std_hash_table_entry;
