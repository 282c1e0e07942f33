//! The core of a minimal HTTP/1.1 client, with every function verified
//! against a contract.
//!
//! - [`normalize`] turns loose `key:value` text into the JSON text of a
//!   request body;
//! - [`request`] checks the user's arguments and assembles the bytes of a
//!   request, and [`framing`] states what holds of these bytes;
//! - [`transport`] runs one exchange over a byte stream that the caller
//!   drives;
//! - [`response`] cuts a raw response into head and body and renders the
//!   body for display;
//! - [`text`], [`decimal`] and [`entries`] hold the building blocks, and
//!   [`json`] what is assumed of the JSON encoder and parser.

pub mod decimal;
pub mod entries;
pub mod framing;
pub mod json;
pub mod normalize;
pub mod request;
pub mod response;
pub mod text;
pub mod transport;
