//! The core of a JSON codec: a decode engine that turns JSON text into a
//! tree of values while it interns the short names of object members in a
//! bounded cache, and formatters that write dates, times of day and
//! datetimes as RFC 3339 text.
//!
//! Decoding: [`decode::deserialize`] reads a document with [`json::parse`]
//! and builds its value with [`decode::build`], which takes the keys of
//! maps from a [`cache::KeyCache`]. The module [`shape`] says what of a
//! decoding is owed to the document alone.
//!
//! Formatting: [`datetime::Date`], [`datetime::Time`] and
//! [`datetime::DateTime`] write themselves into a
//! [`buffer::DateTimeBuffer`].

pub mod ascii;
pub mod buffer;
pub mod cache;
pub mod datetime;
pub mod datum;
pub mod decode;
pub mod digits;
pub mod elements;
pub mod error;
pub mod hash;
pub mod json;
pub mod opt;
pub mod shape;
