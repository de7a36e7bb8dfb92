//! A runtime value model for protobuf-encoded messages.
//!
//! A message is decoded against a descriptor that is supplied at run time,
//! into a tree of values, and encoded back to bytes from that tree. Every
//! function states what it computes over a mathematical model of the wire
//! format and of the value tree, and the laws that relate decoding to
//! encoding are proved of that model.
//!
//! - [`wire`] is the wire format of tags and scalars, [`stream`] the cursor
//!   that reads it and the writers that append it.
//! - [`descriptor`] holds what is known of message and enum types,
//!   [`value`] the values, fields and messages, [`unknown`] the bag of
//!   unknown fields.
//! - [`model`] says what decoding and encoding compute, and what a failed
//!   merge leaves behind; [`decode`], [`encode`], [`mask`] and [`render`]
//!   compute it. A merge that fails leaves the input where it stood, and a
//!   write that fails writes nothing.
//! - [`round_trip`], [`laws`], [`concat`], [`well_formed`] and
//!   [`wire_laws`] hold the laws.
//!
//! Varints, fixed-width numbers, strings and byte strings are read and
//! written, and unknown fields kept, by the `protobuf` crate. What is
//! believed of it, and of the equality of string slices, is stated where it
//! is called: in [`stream`], [`unknown`] and [`mask`], under the word
//! "Trusted".

pub mod concat;
pub mod decode;
pub mod descriptor;
pub mod encode;
pub mod error;
pub mod laws;
pub mod mask;
pub mod model;
pub mod order;
pub mod render;
pub mod round_trip;
pub mod stream;
pub mod unknown;
pub mod value;
pub mod well_formed;
pub mod wire;
pub mod wire_laws;
