//! Parsers for textual byte-sequence literals.
//!
//! Byte sequences can be written in several notations: bare hex pairs
//! (`"dead be ef"`), `0x`-prefixed hex, `\x`-escaped hex, `0b`-prefixed
//! binary, unsigned decimal, and signed decimal or hex where a leading `-`
//! wraps the magnitude via two's complement. Each notation has its own
//! sequence parser, and `any_seq` tries them all in a fixed priority order.
//!
//! The grammar is modelled by spec functions over `Seq<char>` in `grammar`;
//! every executable parser in `parser` is proved to return exactly what the
//! model says.

pub mod error;
pub mod grammar;
pub mod laws;
pub mod parser;
