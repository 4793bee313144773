//! The rectangle element: a position, a size and optional corner radii.

use vstd::prelude::*;

use vstd::string::StringSliceAdditionalSpecFns;

use super::circle::{or_zero, spec_or_zero};
use super::common::{
    field_num, spec_common_from, spec_field_num, spec_others, CommonKVs, CommonKVsView,
};
use crate::num::{spec_render_num, Num};
use crate::parser::{push_attr, push_slice, spec_attr, spec_parse_properties, ParseError};

verus! {

/// A rectangle; all fields are optional and default to zero when rendered.
/// The `x` and `y` keys belong to the common attribute set, so the fields
/// here are filled only from keys the common set does not take.
#[derive(Debug, Clone)]
pub struct Rect {
    pub common: CommonKVs,
    pub x: Option<Num>,
    pub y: Option<Num>,
    pub width: Option<Num>,
    pub height: Option<Num>,
    pub rx: Option<Num>,
    pub ry: Option<Num>,
}

/// The mathematical shadow of `Rect`.
pub struct RectView {
    pub common: CommonKVsView,
    pub x: Option<Num>,
    pub y: Option<Num>,
    pub width: Option<Num>,
    pub height: Option<Num>,
    pub rx: Option<Num>,
    pub ry: Option<Num>,
}

impl View for Rect {
    type V = RectView;

    open spec fn view(&self) -> RectView {
        RectView {
            common: self.common@,
            x: self.x,
            y: self.y,
            width: self.width,
            height: self.height,
            rx: self.rx,
            ry: self.ry,
        }
    }
}

/// A rectangle's attribute list: the common keys, then its own geometry out
/// of the remaining keys.
pub open spec fn spec_parse_rect(s: Seq<u8>, i: int) -> Option<(RectView, int)> {
    let (kvs, e) = spec_parse_properties(s, i);
    match spec_common_from(kvs) {
        Some(cv) => {
            let others = spec_others(kvs);
            let x = spec_field_num(others, "x".spec_bytes());
            let y = spec_field_num(others, "y".spec_bytes());
            let w = spec_field_num(others, "width".spec_bytes());
            let h = spec_field_num(others, "height".spec_bytes());
            let rx = spec_field_num(others, "rx".spec_bytes());
            let ry = spec_field_num(others, "ry".spec_bytes());
            if x is Some && y is Some && w is Some && h is Some && rx is Some && ry is Some {
                Some(
                    (
                        RectView {
                            common: cv,
                            x: x->0,
                            y: y->0,
                            width: w->0,
                            height: h->0,
                            rx: rx->0,
                            ry: ry->0,
                        },
                        e,
                    ),
                )
            } else {
                None
            }
        },
        None => None,
    }
}

impl Rect {
    pub open spec fn wf(self) -> bool {
        &&& self.common.wf()
        &&& (self.x matches Some(n) ==> n.wf())
        &&& (self.y matches Some(n) ==> n.wf())
        &&& (self.width matches Some(n) ==> n.wf())
        &&& (self.height matches Some(n) ==> n.wf())
        &&& (self.rx matches Some(n) ==> n.wf())
        &&& (self.ry matches Some(n) ==> n.wf())
    }

    /// Reads a rectangle's attributes, exactly as `spec_parse_rect`
    /// describes.
    #[verifier::rlimit(100)]
    #[verifier::spinoff_prover]
    pub fn from_str(s: &[u8], i: usize) -> (r: Result<(Rect, usize), ParseError>)
        requires
            i <= s@.len(),
        ensures
            r matches Ok((rc, e)) ==> spec_parse_rect(s@, i as int) == Some((rc@, e as int))
                && rc.wf() && i <= e <= s@.len(),
            r is Err <==> spec_parse_rect(s@, i as int) is None,
    {
        let ((common, others), e) = match CommonKVs::from_str(s, i) {
            Ok(v) => v,
            Err(er) => {
                return Err(er);
            },
        };
        let x = match field_num(&others, "x".as_bytes()) {
            Ok(v) => v,
            Err(er) => {
                return Err(er);
            },
        };
        let y = match field_num(&others, "y".as_bytes()) {
            Ok(v) => v,
            Err(er) => {
                return Err(er);
            },
        };
        let w = match field_num(&others, "width".as_bytes()) {
            Ok(v) => v,
            Err(er) => {
                return Err(er);
            },
        };
        let h = match field_num(&others, "height".as_bytes()) {
            Ok(v) => v,
            Err(er) => {
                return Err(er);
            },
        };
        let rx = match field_num(&others, "rx".as_bytes()) {
            Ok(v) => v,
            Err(er) => {
                return Err(er);
            },
        };
        let ry = match field_num(&others, "ry".as_bytes()) {
            Ok(v) => v,
            Err(er) => {
                return Err(er);
            },
        };
        Ok((Rect { common, x, y, width: w, height: h, rx, ry }, e))
    }

    /// `<rect x=".." y=".." width=".." height=".." rx=".." ry=".."
    /// ..common.. />`, absent fields rendering the default zero.
    pub open spec fn spec_render(self) -> Seq<u8> {
        "<rect ".spec_bytes() + spec_attr(
            "x".spec_bytes(),
            spec_render_num(spec_or_zero(self.x)),
        ) + spec_attr("y".spec_bytes(), spec_render_num(spec_or_zero(self.y))) + spec_attr(
            "width".spec_bytes(),
            spec_render_num(spec_or_zero(self.width)),
        ) + spec_attr("height".spec_bytes(), spec_render_num(spec_or_zero(self.height)))
            + spec_attr("rx".spec_bytes(), spec_render_num(spec_or_zero(self.rx))) + spec_attr(
            "ry".spec_bytes(),
            spec_render_num(spec_or_zero(self.ry)),
        ) + self.common.spec_render() + "/>".spec_bytes()
    }

    /// Renders the element, exactly as `spec_render` describes.
    #[verifier::rlimit(100)]
    #[verifier::spinoff_prover]
    pub fn to_text(&self) -> (r: Vec<u8>)
        requires
            self.wf(),
        ensures
            r@ == self.spec_render(),
    {
        let mut out: Vec<u8> = Vec::new();
        push_slice(&mut out, "<rect ".as_bytes());
        let t = or_zero(&self.x).to_text();
        push_attr(&mut out, "x".as_bytes(), t.as_slice());
        let t = or_zero(&self.y).to_text();
        push_attr(&mut out, "y".as_bytes(), t.as_slice());
        let t = or_zero(&self.width).to_text();
        push_attr(&mut out, "width".as_bytes(), t.as_slice());
        let t = or_zero(&self.height).to_text();
        push_attr(&mut out, "height".as_bytes(), t.as_slice());
        let t = or_zero(&self.rx).to_text();
        push_attr(&mut out, "rx".as_bytes(), t.as_slice());
        let t = or_zero(&self.ry).to_text();
        push_attr(&mut out, "ry".as_bytes(), t.as_slice());
        let mut c = self.common.to_text();
        out.append(&mut c);
        push_slice(&mut out, "/>".as_bytes());
        proof {
            assert(out@ =~= self.spec_render());
        }
        out
    }
}

} // verus!
