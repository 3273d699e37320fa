//! Short ASCII strings packed into a single unsigned integer.
//!
//! A [`TinyStr`] holds a text of 1 to 4, 8 or 16 ASCII characters in the byte
//! lanes of a `u32`, `u64` or `u128`. Case folding, classification, length and
//! ordering are computed on the whole word at once.
//!
//! The contracts speak of the text of a value, its view, a `Seq<char>`:
//! [`word`] says how a word holds a text, [`encoding`] which texts can be
//! packed, [`ascii`] what the case foldings and the classification give, and
//! [`order`] how two texts are ordered.
#![allow(unused_imports)]

pub mod ascii;
pub mod encoding;
pub mod error;
pub mod order;
pub mod render;
pub mod tinystr;
pub mod word;
pub mod word128;
pub mod word32;
pub mod word64;

pub use crate::error::Error;
pub use crate::tinystr::{TinyStr, TinyStr16, TinyStr4, TinyStr8};
pub use crate::word::{GenMask, Word};
