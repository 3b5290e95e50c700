//! Wire codec and transport security for a length-prefixed packet protocol:
//! VarInts, field serialization, packet framing with optional zlib compression,
//! and AES-128 CFB8 stream halves.

pub mod cfb8_stream;
pub mod packet;
pub mod packet_builder;
pub mod packet_io;
pub mod packet_reader;
pub mod reader;
pub mod ser;
pub mod varint;
