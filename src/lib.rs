//! Decoding of binary game-asset containers: tagged chunk streams, offset/count
//! arrays resolved against a backing blob, and the bit-packed columnar "WDC4"
//! table format, with the ambient-lighting lookup built on top of it; and the
//! readers of a few serialized engine-asset components.

pub mod error;
pub mod bytes;
pub mod bits;
pub mod db2;
pub mod database;
pub mod light;
pub mod chunk;
pub mod array;
pub mod asset;
pub mod game_object;
mod text;
