//! Incremental decoder for the TASR row-oriented binary container format.
//!
//! A TASR stream is a magic marker, an ASCII two-digit major/minor version, a
//! header count, `header_count` fixed-size header records describing the field
//! layout of every row, and then a run of rows.  Each row is a fixed-width
//! region (one slot per header) followed by a variable-length blob region that
//! holds the payloads of reference-encoded variable strings.
//!
//! The decoder is a resumable state machine: it can be fed the stream in
//! chunks of any size and reports, after every step, how many bytes it
//! consumed and how many it needs before the next step can run.

pub mod encode;
pub mod rowconsumer;
pub mod session;
pub mod taserconsumer;
pub mod types;
pub mod util;
pub mod window;
