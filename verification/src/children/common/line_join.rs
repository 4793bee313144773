//! The stroke line-join keyword: a closed enumeration whose unknown inputs
//! are hard failures.

use vstd::prelude::*;

use vstd::string::StringSliceAdditionalSpecFns;

use crate::parser::{bytes_eq, copy_range, ErrorKind, ParseError};

verus! {

/// Shape of a stroke's corners.
#[derive(Debug, Clone, Copy, PartialEq, Eq, Structural)]
pub enum LineJoin {
    Arcs,
    Miter,
    Round,
    Bevel,
    MiterClip,
}

/// The five line-join keywords, matched exactly; any other text fails.
pub open spec fn spec_parse_line_join(s: Seq<u8>) -> Option<LineJoin> {
    if s == "arcs".spec_bytes() {
        Some(LineJoin::Arcs)
    } else if s == "miter".spec_bytes() {
        Some(LineJoin::Miter)
    } else if s == "round".spec_bytes() {
        Some(LineJoin::Round)
    } else if s == "bevel".spec_bytes() {
        Some(LineJoin::Bevel)
    } else if s == "miter-clip".spec_bytes() {
        Some(LineJoin::MiterClip)
    } else {
        None
    }
}

impl LineJoin {
    /// Reads the keyword, exactly as `spec_parse_line_join` describes.
    pub fn from_str(s: &[u8]) -> (r: Result<LineJoin, ParseError>)
        ensures
            r matches Ok(c) ==> spec_parse_line_join(s@) == Some(c),
            r is Err <==> spec_parse_line_join(s@) is None,
    {
        if bytes_eq(s, "arcs".as_bytes()) {
            Ok(LineJoin::Arcs)
        } else if bytes_eq(s, "miter".as_bytes()) {
            Ok(LineJoin::Miter)
        } else if bytes_eq(s, "round".as_bytes()) {
            Ok(LineJoin::Round)
        } else if bytes_eq(s, "bevel".as_bytes()) {
            Ok(LineJoin::Bevel)
        } else if bytes_eq(s, "miter-clip".as_bytes()) {
            Ok(LineJoin::MiterClip)
        } else {
            Err(ParseError { kind: ErrorKind::Keyword, pos: 0 })
        }
    }

    /// The keyword of each variant.
    pub open spec fn spec_render(self) -> Seq<u8> {
        match self {
            LineJoin::Arcs => "arcs".spec_bytes(),
            LineJoin::Miter => "miter".spec_bytes(),
            LineJoin::Round => "round".spec_bytes(),
            LineJoin::Bevel => "bevel".spec_bytes(),
            LineJoin::MiterClip => "miter-clip".spec_bytes(),
        }
    }

    /// Renders the keyword, exactly as `spec_render` describes.
    pub fn to_text(&self) -> (r: Vec<u8>)
        ensures
            r@ == self.spec_render(),
    {
        let lit = match self {
            LineJoin::Arcs => "arcs".as_bytes(),
            LineJoin::Miter => "miter".as_bytes(),
            LineJoin::Round => "round".as_bytes(),
            LineJoin::Bevel => "bevel".as_bytes(),
            LineJoin::MiterClip => "miter-clip".as_bytes(),
        };
        copy_range(lit, 0, lit.len())
    }
}

impl Default for LineJoin {
    /// The documented default: a miter join.
    fn default() -> (r: LineJoin)
        ensures
            r == LineJoin::Miter,
    {
        LineJoin::Miter
    }
}

} // verus!
