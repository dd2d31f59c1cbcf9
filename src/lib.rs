//! Conversion of Unicode text into MacRoman byte codes, by longest match
//! against a sorted table of precomposed and decomposed spellings.
//!
//! `encode` starts a scan of a text; each call of `next` on it yields the
//! byte span of one step and either the MacRoman code of the longest table
//! entry that the text continues with, or the scalar value that no entry
//! covers. Both spellings of an accented letter (precomposed, or base and
//! combining mark) map to the same code.
pub mod scanner;
pub mod table;
pub mod theorems;

pub use scanner::{encode, MacRomanEncoder};
