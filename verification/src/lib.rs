//! Verified core of chunk recovery for peer-to-peer downloads.

pub mod chunk;
pub mod clock;
pub mod digest;
pub mod download;
pub mod models;
pub mod net;
pub mod p2p_chunk_network;
pub mod p2p_download_recovery;
pub mod paths;
pub mod relations;
pub mod text;
