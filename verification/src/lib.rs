//! Core of a CO2 sensor viewer: the sensor bridge serves a plain-text
//! decimal reading over HTTP, and this library turns one polled response
//! into a parts-per-million value, or into a display string.
//!
//! The HTTP request itself is performed by the surrounding shell; this
//! library builds the endpoint URL, extracts the reading from the
//! response body, and renders the result.

pub mod parse;
pub mod reader;
pub mod render;
