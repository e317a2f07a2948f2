//! Shard-state ingestion and archive synchronisation core of a TON node:
//! byte codecs for block identifiers, the block index, the cell
//! finalisation pass of a streamed bag of cells, and the decision logic of
//! boot and archive sync.

pub mod block_id;
pub mod boot;
pub mod cell;
pub mod codec;
pub mod fx_map;
pub mod hash;
pub mod shard;
pub mod shard_state;
pub mod storage;
pub mod sync;
pub mod stored_value;
pub mod top_blocks;
