//! A peer-to-peer file-transfer client library: the wire codec, the piece
//! availability bitmap, the per-peer session state and the download
//! coordinator's decisions, all verified.
use vstd::prelude::*;

pub mod bitfield;
pub mod message;
pub mod peers;
pub mod download_manager;
pub mod metainfo;
pub mod tracker_communication;

verus! {

/// Size in bytes of one requested block; a piece is fetched in blocks of this size.
pub const BLOCK_SIZE: u64 = 16384;

} // verus!
