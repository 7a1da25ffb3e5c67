//! Verified core of a slippy-map terrain viewer.
//!
//! The library covers the tile-addressing math, the naming scheme that
//! doubles as the disk-cache contract, the download-or-reuse protocol
//! with request coalescing, the height-grid model, the heightmap-to-mesh
//! conversion, and the active-tile-set bookkeeping.  Networking, raster
//! decompression and rendering are collaborators of this core: they run
//! in an unverified shell that hands plain values in and takes plain
//! values back.

pub mod coords;
pub mod naming;
pub mod cache;
pub mod grid;
pub mod mesh;
pub mod resample;
pub mod manager;
