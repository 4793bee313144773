//! The stroke miter limit: a plain number with no range constraint.

use vstd::prelude::*;

use crate::num::{spec_num_from_text, spec_render_num, Num};
use crate::parser::ParseError;

verus! {

/// A miter limit, held as an exact decimal.
#[derive(Debug, Clone, Copy, PartialEq, Eq, Structural)]
pub struct MiterLimit(pub Num);

impl MiterLimit {
    pub open spec fn wf(self) -> bool {
        self.0.wf()
    }

    /// Reads a miter limit: one trimmed number, as `spec_num_from_text`
    /// describes.
    pub fn from_str(s: &[u8]) -> (r: Result<MiterLimit, ParseError>)
        ensures
            r matches Ok(m) ==> spec_num_from_text(s@) == Some(m.0) && m.wf(),
            r is Err <==> spec_num_from_text(s@) is None,
    {
        match Num::from_text(s) {
            Ok(n) => Ok(MiterLimit(n)),
            Err(er) => Err(er),
        }
    }

    /// The canonical text of the held value.
    pub open spec fn spec_render(self) -> Seq<u8> {
        spec_render_num(self.0)
    }

    /// Renders the value, exactly as `spec_render` describes.
    pub fn to_text(&self) -> (r: Vec<u8>)
        requires
            self.wf(),
        ensures
            r@ == self.spec_render(),
    {
        self.0.to_text()
    }
}

impl Default for MiterLimit {
    /// The documented default: four.
    fn default() -> (r: MiterLimit)
        ensures
            r == MiterLimit(Num { neg: false, mant: 4, exp: 0 }),
            r.wf(),
    {
        MiterLimit(Num { neg: false, mant: 4, exp: 0 })
    }
}

} // verus!
