//! Verified core of the mosaic tile contracts: tile geometry, colour packing,
//! fee checks and the state machines of the minting, colouring and canvas
//! contracts. Chain plumbing (storage, serialisation, entry points) lives
//! outside this library and hands it plain values.
pub mod grid;
pub mod text;
pub mod funds;
pub mod time;
pub mod response;
pub mod str_map;
pub mod tile_coloring;
pub mod tile_nft;
pub mod vending;
pub mod random_vending;
pub mod canvas;
pub mod pixel_factory;
pub mod pixel_coloring;
pub mod pixel_collection;
pub mod e2e;
pub mod fixtures;
