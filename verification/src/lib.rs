//! Decoder for the nested PFS firmware-update container: the byte grammar of
//! headers, sections and footers, the naming pass over the information
//! section, and the engine that classifies each section's payload and unpacks
//! it into named artifacts.

pub mod error;
pub mod bytes;
pub mod text;
pub mod parser;
pub mod layout;
pub mod order;
pub mod chunks;
pub mod names;
pub mod version;
pub mod inflate;
pub mod extract;
