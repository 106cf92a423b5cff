//! Conversion of two-player input replays between bot formats through one
//! canonical model.

pub mod binary32;
pub mod bytes;
pub mod converter;
pub mod cps;
pub mod formats;
pub mod rejection;
pub mod replay;
pub mod text;
