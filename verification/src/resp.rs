//! The frame type system and its wire format.
//!
//! [`frame`] defines the values and their model, [`encode`] the wire form
//! and the encoder, [`grammar`] what received bytes mean, [`decode`] the
//! decoder, and [`laws`] what holds between them. [`text`], [`order`] and
//! [`double`] hold the byte-level rules: decimal numbers, the order of map
//! keys, the text of a double.

pub mod convert;
pub mod decode;
pub mod double;
pub mod encode;
pub mod equal;
pub mod error;
pub mod frame;
pub mod grammar;
pub mod laws;
pub mod map;
pub mod order;
pub mod text;
pub mod validate;
