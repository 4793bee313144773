//! The stroke dash offset: a plain number with no range constraint.

use vstd::prelude::*;

use crate::num::{spec_num_from_text, spec_render_num, Num};
use crate::parser::ParseError;

verus! {

/// A dash offset, held as an exact decimal.
#[derive(Debug, Clone, Copy, PartialEq, Eq, Structural)]
pub struct DashOffset(pub Num);

impl DashOffset {
    pub open spec fn wf(self) -> bool {
        self.0.wf()
    }

    /// Reads a dash offset: one trimmed number, as `spec_num_from_text`
    /// describes.
    pub fn from_str(s: &[u8]) -> (r: Result<DashOffset, ParseError>)
        ensures
            r matches Ok(d) ==> spec_num_from_text(s@) == Some(d.0) && d.wf(),
            r is Err <==> spec_num_from_text(s@) is None,
    {
        match Num::from_text(s) {
            Ok(n) => Ok(DashOffset(n)),
            Err(er) => Err(er),
        }
    }

    /// The canonical text of the held value.
    pub open spec fn spec_render(self) -> Seq<u8> {
        spec_render_num(self.0)
    }

    /// Renders the value, exactly as `spec_render` describes.
    pub fn to_text(&self) -> (r: Vec<u8>)
        requires
            self.wf(),
        ensures
            r@ == self.spec_render(),
    {
        self.0.to_text()
    }
}

impl Default for DashOffset {
    /// The documented default: zero.
    fn default() -> (r: DashOffset)
        ensures
            r == DashOffset(Num { neg: false, mant: 0, exp: 0 }),
            r.wf(),
    {
        DashOffset(Num { neg: false, mant: 0, exp: 0 })
    }
}

} // verus!
