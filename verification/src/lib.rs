//! A verified codec for a compact binary document container.  A document —
//! headers, paragraphs and footnotes built from styled text spans — is
//! encoded as one self-describing byte sequence (magic, checksum, version,
//! offsets, body, footnotes) by `serialize_ir` and reconstructed by
//! `deserialize_ir`.  The byte format is specified in `wire`, the codec is
//! verified against it exactly, and `laws` proves the format's guarantees,
//! round-trip identity first.  A small markup tokenizer (`parse_mark`)
//! produces documents from source text.

pub mod checksum;
pub mod digits;
pub mod errors;
pub mod format;
pub mod frac;
pub mod fractal;
pub mod laws;
pub mod parse_mark;
pub mod wire;

pub use errors::FracFormatError;
pub use format::{deserialize_ir, serialize_ir};
pub use frac::{
    Citation, CodeBlock, DocElm, Footnote, Header, Image, IntermediateRep, List, Paragraph, Span,
    Style, Table,
};
pub use fractal::{FractalProject, Meta, Settings};
pub use parse_mark::parse_chunk;
