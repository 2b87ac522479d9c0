//! Espresso shot profiles: a reader for the brace-delimited step language and
//! an analyzer that turns a profile into per-channel traces.
//!
//! A profile text is a sequence of steps, each `{ keyword value ... }`; the
//! [`parser`] module reads it into typed steps, exactly as its specification
//! functions describe the grammar.  The [`number`] module holds the decimal
//! values exactly, in millionths.  The [`text`] module writes steps back and
//! proves the round trip: what the reader accepts, the writer reproduces.
//! The [`profile`] module reduces steps to temperature, pressure and flow
//! segments, and proves the analysis deterministic and append-only.

pub mod number;
pub mod parser;
pub mod profile;
pub mod text;
