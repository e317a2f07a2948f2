//! Ingestion of a shard state that arrives as a streamed bag of cells.

pub mod cell_storage;
pub mod cell_summary;
pub mod crc;
pub mod entries_buffer;
pub mod finalize;
pub mod packet_reader;
pub mod parser;
pub mod replace_transaction;
pub mod spill;
