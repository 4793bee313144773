//! The ellipse element: a center point and two auto-or-value radii.

use vstd::prelude::*;

use vstd::string::StringSliceAdditionalSpecFns;

use super::circle::{or_zero, spec_or_zero};
use super::common::{
    field_num, spec_common_from, spec_field_num, spec_others, CommonKVs, CommonKVsView,
};
use crate::num::{spec_render_num, Num};
use crate::parser::{
    push_attr, push_slice, spec_attr, spec_parse_properties, ParseError,
};
use crate::value::{spec_get_auto, Auto};

verus! {

/// An ellipse from a center and the two radii; the radii may be `auto`.
#[derive(Debug, Clone)]
pub struct Ellipse {
    pub common: CommonKVs,
    pub cx: Option<Num>,
    pub cy: Option<Num>,
    pub rx: Auto,
    pub ry: Auto,
}

/// The mathematical shadow of `Ellipse`.
pub struct EllipseView {
    pub common: CommonKVsView,
    pub cx: Option<Num>,
    pub cy: Option<Num>,
    pub rx: Auto,
    pub ry: Auto,
}

impl View for Ellipse {
    type V = EllipseView;

    open spec fn view(&self) -> EllipseView {
        EllipseView { common: self.common@, cx: self.cx, cy: self.cy, rx: self.rx, ry: self.ry }
    }
}

/// An ellipse's attribute list: the common keys, the center, and the two
/// auto-or-value radii.
pub open spec fn spec_parse_ellipse(s: Seq<u8>, i: int) -> Option<(EllipseView, int)> {
    let (kvs, e) = spec_parse_properties(s, i);
    match spec_common_from(kvs) {
        Some(cv) => {
            let others = spec_others(kvs);
            let cx = spec_field_num(others, "cx".spec_bytes());
            let cy = spec_field_num(others, "cy".spec_bytes());
            let rx = spec_get_auto(others, "rx".spec_bytes());
            let ry = spec_get_auto(others, "ry".spec_bytes());
            if cx is Some && cy is Some && rx is Some && ry is Some {
                Some(
                    (EllipseView { common: cv, cx: cx->0, cy: cy->0, rx: rx->0, ry: ry->0 }, e),
                )
            } else {
                None
            }
        },
        None => None,
    }
}

impl Ellipse {
    pub open spec fn wf(self) -> bool {
        &&& self.common.wf()
        &&& (self.cx matches Some(n) ==> n.wf())
        &&& (self.cy matches Some(n) ==> n.wf())
        &&& self.rx.wf()
        &&& self.ry.wf()
    }

    /// Reads an ellipse's attributes, exactly as `spec_parse_ellipse`
    /// describes.
    #[verifier::rlimit(100)]
    #[verifier::spinoff_prover]
    pub fn from_str(s: &[u8], i: usize) -> (r: Result<(Ellipse, usize), ParseError>)
        requires
            i <= s@.len(),
        ensures
            r matches Ok((el, e)) ==> spec_parse_ellipse(s@, i as int) == Some((el@, e as int))
                && el.wf() && i <= e <= s@.len(),
            r is Err <==> spec_parse_ellipse(s@, i as int) is None,
    {
        let ((common, others), e) = match CommonKVs::from_str(s, i) {
            Ok(v) => v,
            Err(er) => {
                return Err(er);
            },
        };
        let cx = match field_num(&others, "cx".as_bytes()) {
            Ok(v) => v,
            Err(er) => {
                return Err(er);
            },
        };
        let cy = match field_num(&others, "cy".as_bytes()) {
            Ok(v) => v,
            Err(er) => {
                return Err(er);
            },
        };
        let rx = match Auto::get_from_map(&others, "rx".as_bytes()) {
            Ok(v) => v,
            Err(er) => {
                return Err(er);
            },
        };
        let ry = match Auto::get_from_map(&others, "ry".as_bytes()) {
            Ok(v) => v,
            Err(er) => {
                return Err(er);
            },
        };
        Ok((Ellipse { common, cx, cy, rx, ry }, e))
    }

    /// `<ellipse cx=".." cy=".." rx=".." ry=".." ..common.. />`; absent
    /// center coordinates render zero, absent radii render `auto`.
    pub open spec fn spec_render(self) -> Seq<u8> {
        "<ellipse ".spec_bytes() + spec_attr(
            "cx".spec_bytes(),
            spec_render_num(spec_or_zero(self.cx)),
        ) + spec_attr("cy".spec_bytes(), spec_render_num(spec_or_zero(self.cy))) + spec_attr(
            "rx".spec_bytes(),
            self.rx.spec_render(),
        ) + spec_attr("ry".spec_bytes(), self.ry.spec_render()) + self.common.spec_render()
            + "/>".spec_bytes()
    }

    /// Renders the element, exactly as `spec_render` describes.
    pub fn to_text(&self) -> (r: Vec<u8>)
        requires
            self.wf(),
        ensures
            r@ == self.spec_render(),
    {
        let mut out: Vec<u8> = Vec::new();
        push_slice(&mut out, "<ellipse ".as_bytes());
        let t = or_zero(&self.cx).to_text();
        push_attr(&mut out, "cx".as_bytes(), t.as_slice());
        let t = or_zero(&self.cy).to_text();
        push_attr(&mut out, "cy".as_bytes(), t.as_slice());
        let t = self.rx.to_text();
        push_attr(&mut out, "rx".as_bytes(), t.as_slice());
        let t = self.ry.to_text();
        push_attr(&mut out, "ry".as_bytes(), t.as_slice());
        let mut c = self.common.to_text();
        out.append(&mut c);
        push_slice(&mut out, "/>".as_bytes());
        proof {
            assert(out@ =~= self.spec_render());
        }
        out
    }
}

} // verus!
