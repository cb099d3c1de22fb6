//! Recording engine for live HLS/fMP4 rooms: session state, segment cache,
//! playlist synthesis and clip planning, with the I/O left to the caller.

pub mod cadence;
pub mod clip;
pub mod cookies;
pub mod db;
pub mod fetch;
pub mod listing;
pub mod playlist;
pub mod segment;
pub mod session;
pub mod text;
