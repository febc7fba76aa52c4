//! A FAT12 volume engine: decoding, inspecting and extending an in-memory
//! image of a FAT12 file system.

pub mod codec;
pub mod commands;
pub mod error;
pub mod fat;
pub mod text;
