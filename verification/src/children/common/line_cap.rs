//! The stroke line-cap keyword: a closed enumeration whose unknown inputs
//! are hard failures.

use vstd::prelude::*;

use vstd::string::StringSliceAdditionalSpecFns;

use crate::parser::{bytes_eq, copy_range, ErrorKind, ParseError};

verus! {

/// Shape of a stroke's ends.
#[derive(Debug, Clone, Copy, PartialEq, Eq, Structural)]
pub enum LineCap {
    Butt,
    Round,
    Square,
}

/// The three line-cap keywords, matched exactly; any other text fails.
pub open spec fn spec_parse_line_cap(s: Seq<u8>) -> Option<LineCap> {
    if s == "butt".spec_bytes() {
        Some(LineCap::Butt)
    } else if s == "round".spec_bytes() {
        Some(LineCap::Round)
    } else if s == "square".spec_bytes() {
        Some(LineCap::Square)
    } else {
        None
    }
}

impl LineCap {
    /// Reads the keyword, exactly as `spec_parse_line_cap` describes.
    pub fn from_str(s: &[u8]) -> (r: Result<LineCap, ParseError>)
        ensures
            r matches Ok(c) ==> spec_parse_line_cap(s@) == Some(c),
            r is Err <==> spec_parse_line_cap(s@) is None,
    {
        if bytes_eq(s, "butt".as_bytes()) {
            Ok(LineCap::Butt)
        } else if bytes_eq(s, "round".as_bytes()) {
            Ok(LineCap::Round)
        } else if bytes_eq(s, "square".as_bytes()) {
            Ok(LineCap::Square)
        } else {
            Err(ParseError { kind: ErrorKind::Keyword, pos: 0 })
        }
    }

    /// The keyword of each variant.
    pub open spec fn spec_render(self) -> Seq<u8> {
        match self {
            LineCap::Butt => "butt".spec_bytes(),
            LineCap::Round => "round".spec_bytes(),
            LineCap::Square => "square".spec_bytes(),
        }
    }

    /// Renders the keyword, exactly as `spec_render` describes.
    pub fn to_text(&self) -> (r: Vec<u8>)
        ensures
            r@ == self.spec_render(),
    {
        let lit = match self {
            LineCap::Butt => "butt".as_bytes(),
            LineCap::Round => "round".as_bytes(),
            LineCap::Square => "square".as_bytes(),
        };
        copy_range(lit, 0, lit.len())
    }
}

impl Default for LineCap {
    /// The documented default: a butt cap.
    fn default() -> (r: LineCap)
        ensures
            r == LineCap::Butt,
    {
        LineCap::Butt
    }
}

} // verus!
