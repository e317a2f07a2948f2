//! The decisions of archive sync: which archives to download, when to ask
//! again for one that was not found, and in which order blocks are applied.

pub mod archive_downloader;
pub mod block_maps;
pub mod import;
pub mod queue;
