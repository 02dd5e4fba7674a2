//! Layout parser and binary record codec for the XingAPI wire format.
//!
//! The library has two halves: a parser for the vendor's RES layout
//! description language, and a codec that encodes and decodes fixed-width
//! binary records according to a parsed layout.

pub mod read;
pub mod text;
pub mod layout;
pub mod euckr;
pub mod data;
pub mod table;
pub mod error;
pub mod response;
pub mod realtime;
pub mod session;

pub use read::{Position, Read, StrRead, StrReadState};
