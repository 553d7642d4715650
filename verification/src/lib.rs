//! Part registry: the label codec (payload grammar, symbology resolution,
//! px-true label geometry, the nx75 anchor font, repeat composition, print
//! receipts, scanning),
//! the registry contract's structural checks, operator identity from git
//! config, the shared domain records, and the two repository audits (ADR
//! obligations and crypto re-open triggers).

pub mod canvas;
pub mod color;
pub mod config;
pub mod contract;
pub mod domain;
pub mod format;
pub mod glyph_font;
pub mod glyphs;
pub mod identity;
pub mod nx75;
pub mod obligations;
pub mod payload;
pub mod px;
pub mod qr;
pub mod receipt;
pub mod registry;
pub mod repeat;
pub mod scan;
pub mod solver;
pub mod symbology;
pub mod text;
pub mod textset;
pub mod triggers;

use vstd::prelude::*;

verus! {

/// Errors surfaced by the codec, one variant per pipeline phase.
#[derive(Debug, Clone, PartialEq, Eq)]
pub enum CodecError {
    Encode(String),
    Decode(String),
    Render(String),
    Unsupported(String),
}

impl CodecError {
    /// The error's message: its phase, then what went wrong.
    pub open spec fn message(&self) -> Seq<char> {
        match self {
            CodecError::Encode(m) => "encode failed: "@ + m@,
            CodecError::Decode(m) => "decode failed: "@ + m@,
            CodecError::Render(m) => "render failed: "@ + m@,
            CodecError::Unsupported(m) => "unsupported: "@ + m@,
        }
    }

    /// The error's message, e.g. `render failed: <why>`.
    pub fn to_string(&self) -> (r: String)
        ensures
            r@ == self.message(),
    {
        let (head, m) = match self {
            CodecError::Encode(m) => ("encode failed: ", m),
            CodecError::Decode(m) => ("decode failed: ", m),
            CodecError::Render(m) => ("render failed: ", m),
            CodecError::Unsupported(m) => ("unsupported: ", m),
        };
        let mut s = head.to_owned();
        text::push_string(&mut s, m);
        s
    }
}

} // verus!
