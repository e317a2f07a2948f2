//! What the node keeps in its key-value store: the columns, the block
//! handles and the block index.

pub mod block_handle;
pub mod block_index_db;
pub mod block_lookup;
pub mod block_meta;
pub mod columns;
