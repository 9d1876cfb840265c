//! Reading the blocks of a pcapng capture: the generic block frame, the
//! section header, interface description, interface statistics and enhanced
//! packet blocks, and the options that close each of them.

pub mod endian;
pub mod error;
pub mod cursor;
pub mod option;
pub mod header;
pub mod rawblock;
pub mod block;
pub mod section;
pub mod interface;
pub mod interfacestat;
pub mod packet;
pub mod text;
