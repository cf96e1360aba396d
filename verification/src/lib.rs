//! Fixed-width table parsing for `lsof`-style listings.
//!
//! The first line of such a listing is a header whose labels fix where each
//! column stands. [`Offsets::from_str`] reads that header into an offset
//! table, [`Offsets::parse_line`] cuts one data line into a [`Row`] by those
//! offsets, and [`Parser`] walks a list of lines, one row per pull.
//!
//! All positions count characters, not bytes, so a header and a data line
//! align character by character whatever their encoding width.

pub mod offsets;
pub mod row;
pub mod stream;
pub mod text;

pub use offsets::{Column, Offsets};
pub use row::{Row, SliceError};
pub use stream::{LineError, Parser, Policy};
