//! Verified core of the liteparse C interface: the packing rules, validation
//! checks and tree layouts behind the flat `repr(C)` records it exposes.

pub mod check;
pub mod color;
pub mod config;
pub mod content;
pub mod content_in;
pub mod flags;
pub mod handle;
pub mod js;
pub mod js_text;
pub mod objects;
pub mod pack;
pub mod packing;
pub mod page;
pub mod layout;
pub mod pool;
pub mod projected;
pub mod raster;
pub mod raw_text;
pub mod records;
pub mod round_trip;
pub mod round_trip_blocks;
pub mod round_trip_page;
pub mod round_trip_parts;
pub mod round_trip_tree;
pub mod region;
pub mod select;
pub mod status;
pub mod structure;
pub mod text;
