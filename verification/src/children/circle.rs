//! The circle element: a center point and a radius.

use vstd::prelude::*;

use vstd::string::StringSliceAdditionalSpecFns;

use super::common::{
    field_num, spec_common_from, spec_field_num, spec_others, CommonKVs, CommonKVsView,
};
use crate::num::{spec_render_num, Num};
use crate::parser::{push_attr, push_slice, spec_attr, spec_parse_properties, ParseError};

verus! {

/// A circle, drawn from a center point and a radius.
#[derive(Debug, Clone)]
pub struct Circle {
    pub common: CommonKVs,
    /// The x coordinate of the center; absent means zero.
    pub cx: Option<Num>,
    /// The y coordinate of the center; absent means zero.
    pub cy: Option<Num>,
    /// The radius; absent means zero.
    pub r: Option<Num>,
}

/// The mathematical shadow of `Circle`.
pub struct CircleView {
    pub common: CommonKVsView,
    pub cx: Option<Num>,
    pub cy: Option<Num>,
    pub r: Option<Num>,
}

impl View for Circle {
    type V = CircleView;

    open spec fn view(&self) -> CircleView {
        CircleView { common: self.common@, cx: self.cx, cy: self.cy, r: self.r }
    }
}

/// A circle's attribute list: the common keys typed as usual, then the
/// center and radius out of the remaining keys.
pub open spec fn spec_parse_circle(s: Seq<u8>, i: int) -> Option<(CircleView, int)> {
    let (kvs, e) = spec_parse_properties(s, i);
    match spec_common_from(kvs) {
        Some(cv) => {
            let others = spec_others(kvs);
            let cx = spec_field_num(others, "cx".spec_bytes());
            let cy = spec_field_num(others, "cy".spec_bytes());
            let rr = spec_field_num(others, "r".spec_bytes());
            if cx is Some && cy is Some && rr is Some {
                Some((CircleView { common: cv, cx: cx->0, cy: cy->0, r: rr->0 }, e))
            } else {
                None
            }
        },
        None => None,
    }
}

impl Circle {
    pub open spec fn wf(self) -> bool {
        &&& self.common.wf()
        &&& (self.cx matches Some(n) ==> n.wf())
        &&& (self.cy matches Some(n) ==> n.wf())
        &&& (self.r matches Some(n) ==> n.wf())
    }

    /// Reads a circle's attributes, exactly as `spec_parse_circle`
    /// describes.
    #[verifier::rlimit(100)]
    #[verifier::spinoff_prover]
    pub fn from_str(s: &[u8], i: usize) -> (r: Result<(Circle, usize), ParseError>)
        requires
            i <= s@.len(),
        ensures
            r matches Ok((c, e)) ==> spec_parse_circle(s@, i as int) == Some((c@, e as int))
                && c.wf() && i <= e <= s@.len(),
            r is Err <==> spec_parse_circle(s@, i as int) is None,
    {
        let ((common, others), e) = match CommonKVs::from_str(s, i) {
            Ok(v) => v,
            Err(er) => {
                return Err(er);
            },
        };
        let cx = match field_num(&others, "cx".as_bytes()) {
            Ok(v) => v,
            Err(er) => {
                return Err(er);
            },
        };
        let cy = match field_num(&others, "cy".as_bytes()) {
            Ok(v) => v,
            Err(er) => {
                return Err(er);
            },
        };
        let rr = match field_num(&others, "r".as_bytes()) {
            Ok(v) => v,
            Err(er) => {
                return Err(er);
            },
        };
        Ok((Circle { common, cx, cy, r: rr }, e))
    }

    /// `<circle cx=".." cy=".." r=".." />`, absent fields rendering the
    /// default zero.
    pub open spec fn spec_render(self) -> Seq<u8> {
        "<circle ".spec_bytes() + spec_attr(
            "cx".spec_bytes(),
            spec_render_num(spec_or_zero(self.cx)),
        ) + spec_attr("cy".spec_bytes(), spec_render_num(spec_or_zero(self.cy))) + spec_attr(
            "r".spec_bytes(),
            spec_render_num(spec_or_zero(self.r)),
        ) + "/>".spec_bytes()
    }

    /// Renders the element, exactly as `spec_render` describes.
    pub fn to_text(&self) -> (r: Vec<u8>)
        requires
            self.wf(),
        ensures
            r@ == self.spec_render(),
    {
        let mut out: Vec<u8> = Vec::new();
        push_slice(&mut out, "<circle ".as_bytes());
        let t = or_zero(&self.cx).to_text();
        push_attr(&mut out, "cx".as_bytes(), t.as_slice());
        let t = or_zero(&self.cy).to_text();
        push_attr(&mut out, "cy".as_bytes(), t.as_slice());
        let t = or_zero(&self.r).to_text();
        push_attr(&mut out, "r".as_bytes(), t.as_slice());
        push_slice(&mut out, "/>".as_bytes());
        proof {
            assert(out@ =~= self.spec_render());
        }
        out
    }
}

/// An absent coordinate stands for zero.
pub open spec fn spec_or_zero(o: Option<Num>) -> Num {
    match o {
        Some(n) => n,
        None => Num { neg: false, mant: 0, exp: 0 },
    }
}

/// Picks the field's value or the default zero, as `spec_or_zero` describes.
pub fn or_zero(o: &Option<Num>) -> (r: Num)
    ensures
        r == spec_or_zero(*o),
{
    match o {
        Some(n) => *n,
        None => Num { neg: false, mant: 0, exp: 0 },
    }
}

} // verus!
