//! The line element: a straight segment between two points.

use vstd::prelude::*;

use vstd::string::StringSliceAdditionalSpecFns;

use super::circle::{or_zero, spec_or_zero};
use super::common::{
    field_num, spec_common_from, spec_field_num, spec_others, CommonKVs, CommonKVsView,
};
use crate::num::{spec_render_num, Num};
use crate::parser::{push_attr, push_slice, spec_attr, spec_parse_properties, ParseError};

verus! {

/// A line from one point to another; absent coordinates mean zero.
#[derive(Debug, Clone)]
pub struct Line {
    pub common: CommonKVs,
    pub x1: Option<Num>,
    pub y1: Option<Num>,
    pub x2: Option<Num>,
    pub y2: Option<Num>,
}

/// The mathematical shadow of `Line`.
pub struct LineView {
    pub common: CommonKVsView,
    pub x1: Option<Num>,
    pub y1: Option<Num>,
    pub x2: Option<Num>,
    pub y2: Option<Num>,
}

impl View for Line {
    type V = LineView;

    open spec fn view(&self) -> LineView {
        LineView { common: self.common@, x1: self.x1, y1: self.y1, x2: self.x2, y2: self.y2 }
    }
}

/// A line's attribute list: the common keys, then its two end points.
pub open spec fn spec_parse_line(s: Seq<u8>, i: int) -> Option<(LineView, int)> {
    let (kvs, e) = spec_parse_properties(s, i);
    match spec_common_from(kvs) {
        Some(cv) => {
            let others = spec_others(kvs);
            let x1 = spec_field_num(others, "x1".spec_bytes());
            let y1 = spec_field_num(others, "y1".spec_bytes());
            let x2 = spec_field_num(others, "x2".spec_bytes());
            let y2 = spec_field_num(others, "y2".spec_bytes());
            if x1 is Some && y1 is Some && x2 is Some && y2 is Some {
                Some(
                    (LineView { common: cv, x1: x1->0, y1: y1->0, x2: x2->0, y2: y2->0 }, e),
                )
            } else {
                None
            }
        },
        None => None,
    }
}

impl Line {
    pub open spec fn wf(self) -> bool {
        &&& self.common.wf()
        &&& (self.x1 matches Some(n) ==> n.wf())
        &&& (self.y1 matches Some(n) ==> n.wf())
        &&& (self.x2 matches Some(n) ==> n.wf())
        &&& (self.y2 matches Some(n) ==> n.wf())
    }

    /// Reads a line's attributes, exactly as `spec_parse_line` describes.
    #[verifier::rlimit(100)]
    #[verifier::spinoff_prover]
    pub fn from_str(s: &[u8], i: usize) -> (r: Result<(Line, usize), ParseError>)
        requires
            i <= s@.len(),
        ensures
            r matches Ok((l, e)) ==> spec_parse_line(s@, i as int) == Some((l@, e as int))
                && l.wf() && i <= e <= s@.len(),
            r is Err <==> spec_parse_line(s@, i as int) is None,
    {
        let ((common, others), e) = match CommonKVs::from_str(s, i) {
            Ok(v) => v,
            Err(er) => {
                return Err(er);
            },
        };
        let x1 = match field_num(&others, "x1".as_bytes()) {
            Ok(v) => v,
            Err(er) => {
                return Err(er);
            },
        };
        let y1 = match field_num(&others, "y1".as_bytes()) {
            Ok(v) => v,
            Err(er) => {
                return Err(er);
            },
        };
        let x2 = match field_num(&others, "x2".as_bytes()) {
            Ok(v) => v,
            Err(er) => {
                return Err(er);
            },
        };
        let y2 = match field_num(&others, "y2".as_bytes()) {
            Ok(v) => v,
            Err(er) => {
                return Err(er);
            },
        };
        Ok((Line { common, x1, y1, x2, y2 }, e))
    }

    /// `<line x1=".." y1=".." x2=".." y2=".." ..common.. />`, absent
    /// coordinates rendering the default zero.
    pub open spec fn spec_render(self) -> Seq<u8> {
        "<line ".spec_bytes() + spec_attr(
            "x1".spec_bytes(),
            spec_render_num(spec_or_zero(self.x1)),
        ) + spec_attr("y1".spec_bytes(), spec_render_num(spec_or_zero(self.y1))) + spec_attr(
            "x2".spec_bytes(),
            spec_render_num(spec_or_zero(self.x2)),
        ) + spec_attr("y2".spec_bytes(), spec_render_num(spec_or_zero(self.y2)))
            + self.common.spec_render() + "/>".spec_bytes()
    }

    /// Renders the element, exactly as `spec_render` describes.
    pub fn to_text(&self) -> (r: Vec<u8>)
        requires
            self.wf(),
        ensures
            r@ == self.spec_render(),
    {
        let mut out: Vec<u8> = Vec::new();
        push_slice(&mut out, "<line ".as_bytes());
        let t = or_zero(&self.x1).to_text();
        push_attr(&mut out, "x1".as_bytes(), t.as_slice());
        let t = or_zero(&self.y1).to_text();
        push_attr(&mut out, "y1".as_bytes(), t.as_slice());
        let t = or_zero(&self.x2).to_text();
        push_attr(&mut out, "x2".as_bytes(), t.as_slice());
        let t = or_zero(&self.y2).to_text();
        push_attr(&mut out, "y2".as_bytes(), t.as_slice());
        let mut c = self.common.to_text();
        out.append(&mut c);
        push_slice(&mut out, "/>".as_bytes());
        proof {
            assert(out@ =~= self.spec_render());
        }
        out
    }
}

} // verus!
