//! Safe, value-level model of native security identifiers (SIDs) and
//! security descriptors: checked construction, bounds-checked accessors,
//! content equality, the self-describing byte-record form, and the
//! canonical `S-1-...` string form with its parser.

pub mod chars;
pub mod debug;
pub mod error;
pub mod parse;
pub mod record;
pub mod sd;
pub mod sid;
pub mod sidstring;
pub mod wrappers;

pub use error::Error;
pub use sd::SecurityDescriptor;
pub use sid::Sid;
