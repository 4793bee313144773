//! The presentation attributes every shape shares, and their typed values.

pub mod dash_array;
pub mod dash_offset;
pub mod line_cap;
pub mod line_join;
pub mod miter_limit;
pub mod opacity;

use vstd::prelude::*;

use vstd::string::StringSliceAdditionalSpecFns;

use crate::num::{spec_num_from_text, spec_render_num, Num};
use crate::parser::{
    bytes_eq, copy_range, kvs_view, lookup, parse_properties, push_attr, spec_attr,
    spec_lookup, spec_parse_properties, ParseError,
};
use dash_array::{spec_parse_dash, spec_render_dash, DashArray};
use dash_offset::DashOffset;
use line_cap::{spec_parse_line_cap, LineCap};
use line_join::{spec_parse_line_join, LineJoin};
use miter_limit::MiterLimit;
use opacity::{spec_parse_opacity, Opacity};

verus! {

/// The presentation attributes shared by every shape; all optional.
#[derive(Debug, Clone)]
pub struct CommonKVs {
    pub x: Option<Num>,
    pub y: Option<Num>,
    pub fill: Option<Vec<u8>>,
    pub stroke: Option<Vec<u8>>,
    pub stroke_width: Option<Num>,
    pub stroke_linecap: Option<LineCap>,
    pub stroke_linejoin: Option<LineJoin>,
    pub stroke_dasharray: Option<DashArray>,
    pub stroke_dashoffset: Option<DashOffset>,
    pub stroke_opacity: Option<Opacity>,
    pub stroke_miterlimit: Option<MiterLimit>,
}

/// The mathematical shadow of `CommonKVs`.
pub struct CommonKVsView {
    pub x: Option<Num>,
    pub y: Option<Num>,
    pub fill: Option<Seq<u8>>,
    pub stroke: Option<Seq<u8>>,
    pub stroke_width: Option<Num>,
    pub stroke_linecap: Option<LineCap>,
    pub stroke_linejoin: Option<LineJoin>,
    pub stroke_dasharray: Option<Seq<Num>>,
    pub stroke_dashoffset: Option<DashOffset>,
    pub stroke_opacity: Option<Opacity>,
    pub stroke_miterlimit: Option<MiterLimit>,
}

impl View for CommonKVs {
    type V = CommonKVsView;

    open spec fn view(&self) -> CommonKVsView {
        CommonKVsView {
            x: self.x,
            y: self.y,
            fill: match self.fill {
                Some(v) => Some(v@),
                None => None,
            },
            stroke: match self.stroke {
                Some(v) => Some(v@),
                None => None,
            },
            stroke_width: self.stroke_width,
            stroke_linecap: self.stroke_linecap,
            stroke_linejoin: self.stroke_linejoin,
            stroke_dasharray: match self.stroke_dasharray {
                Some(d) => Some(d.0@),
                None => None,
            },
            stroke_dashoffset: self.stroke_dashoffset,
            stroke_opacity: self.stroke_opacity,
            stroke_miterlimit: self.stroke_miterlimit,
        }
    }
}

/// An absent key is an absent field; a present one must parse as a number.
pub open spec fn spec_field_num(kvs: Seq<(Seq<u8>, Seq<u8>)>, key: Seq<u8>) -> Option<
    Option<Num>,
> {
    match spec_lookup(kvs, key) {
        None => Some(None),
        Some(v) => match spec_num_from_text(v) {
            Some(n) => Some(Some(n)),
            None => None,
        },
    }
}

/// The keys this attribute set owns; every other key is left to the caller.
pub open spec fn spec_is_common_key(k: Seq<u8>) -> bool {
    ||| k == "x".spec_bytes()
    ||| k == "y".spec_bytes()
    ||| k == "fill".spec_bytes()
    ||| k == "stroke".spec_bytes()
    ||| k == "stroke-width".spec_bytes()
    ||| k == "stroke-linecap".spec_bytes()
    ||| k == "stroke-linejoin".spec_bytes()
    ||| k == "stroke-dasharray".spec_bytes()
    ||| k == "stroke-dashoffset".spec_bytes()
    ||| k == "stroke-opacity".spec_bytes()
    ||| k == "stroke-miterlimit".spec_bytes()
}

/// The pairs whose keys are not common, in their original order.
pub open spec fn spec_others(kvs: Seq<(Seq<u8>, Seq<u8>)>) -> Seq<(Seq<u8>, Seq<u8>)>
    decreases kvs.len(),
{
    if kvs.len() == 0 {
        Seq::empty()
    } else {
        let rest = spec_others(kvs.drop_last());
        if spec_is_common_key(kvs.last().0) {
            rest
        } else {
            rest.push(kvs.last())
        }
    }
}

/// The typed reading of an attribute list's common keys: each present key
/// must parse as its field's type, and any failure fails the whole set.
pub open spec fn spec_common_from(kvs: Seq<(Seq<u8>, Seq<u8>)>) -> Option<CommonKVsView> {
    let x = spec_field_num(kvs, "x".spec_bytes());
    let y = spec_field_num(kvs, "y".spec_bytes());
    let sw = spec_field_num(kvs, "stroke-width".spec_bytes());
    let lc = match spec_lookup(kvs, "stroke-linecap".spec_bytes()) {
        None => Some(None),
        Some(v) => match spec_parse_line_cap(v) {
            Some(c) => Some(Some(c)),
            None => None,
        },
    };
    let lj = match spec_lookup(kvs, "stroke-linejoin".spec_bytes()) {
        None => Some(None),
        Some(v) => match spec_parse_line_join(v) {
            Some(c) => Some(Some(c)),
            None => None,
        },
    };
    let da = match spec_lookup(kvs, "stroke-dasharray".spec_bytes()) {
        None => Some(None),
        Some(v) => match spec_parse_dash(v, 0) {
            Some(d) => Some(Some(d)),
            None => None,
        },
    };
    let doff = match spec_lookup(kvs, "stroke-dashoffset".spec_bytes()) {
        None => Some(None),
        Some(v) => match spec_num_from_text(v) {
            Some(n) => Some(Some(DashOffset(n))),
            None => None,
        },
    };
    let op = match spec_lookup(kvs, "stroke-opacity".spec_bytes()) {
        None => Some(None),
        Some(v) => match spec_parse_opacity(v) {
            Some(o) => Some(Some(o)),
            None => None,
        },
    };
    let ml = match spec_lookup(kvs, "stroke-miterlimit".spec_bytes()) {
        None => Some(None),
        Some(v) => match spec_num_from_text(v) {
            Some(n) => Some(Some(MiterLimit(n))),
            None => None,
        },
    };
    if x is Some && y is Some && sw is Some && lc is Some && lj is Some && da is Some
        && doff is Some && op is Some && ml is Some {
        Some(
            CommonKVsView {
                x: x->0,
                y: y->0,
                fill: spec_lookup(kvs, "fill".spec_bytes()),
                stroke: spec_lookup(kvs, "stroke".spec_bytes()),
                stroke_width: sw->0,
                stroke_linecap: lc->0,
                stroke_linejoin: lj->0,
                stroke_dasharray: da->0,
                stroke_dashoffset: doff->0,
                stroke_opacity: op->0,
                stroke_miterlimit: ml->0,
            },
        )
    } else {
        None
    }
}

impl CommonKVs {
    pub open spec fn wf(self) -> bool {
        &&& (self.x matches Some(n) ==> n.wf())
        &&& (self.y matches Some(n) ==> n.wf())
        &&& (self.stroke_width matches Some(n) ==> n.wf())
        &&& (self.stroke_dasharray matches Some(d) ==> d.wf())
        &&& (self.stroke_dashoffset matches Some(d) ==> d.wf())
        &&& (self.stroke_opacity matches Some(o) ==> o.wf())
        &&& (self.stroke_miterlimit matches Some(m) ==> m.wf())
    }

    /// Reads an attribute list and types its common keys, exactly as
    /// `spec_parse_properties`, `spec_common_from` and `spec_others`
    /// describe; the remaining pairs are handed back for the caller's own
    /// keys.
    pub fn from_str(s: &[u8], i: usize) -> (r: Result<
        ((CommonKVs, Vec<(Vec<u8>, Vec<u8>)>), usize),
        ParseError,
    >)
        requires
            i <= s@.len(),
        ensures
            r matches Ok(((c, others), e)) ==> ({
                let (kvs, pe) = spec_parse_properties(s@, i as int);
                &&& spec_common_from(kvs) == Some(c@)
                &&& kvs_view(others@) == spec_others(kvs)
                &&& e as int == pe
                &&& i <= e <= s@.len()
                &&& c.wf()
            }),
            r is Err <==> spec_common_from(spec_parse_properties(s@, i as int).0) is None,
    {
        let (kvs, e) = parse_properties(s, i);
        let x = match field_num(&kvs, "x".as_bytes()) {
            Ok(v) => v,
            Err(er) => {
                return Err(er);
            },
        };
        let y = match field_num(&kvs, "y".as_bytes()) {
            Ok(v) => v,
            Err(er) => {
                return Err(er);
            },
        };
        let sw = match field_num(&kvs, "stroke-width".as_bytes()) {
            Ok(v) => v,
            Err(er) => {
                return Err(er);
            },
        };
        let lc = match lookup(&kvs, "stroke-linecap".as_bytes()) {
            Some(v) => match LineCap::from_str(v.as_slice()) {
                Ok(c) => Some(c),
                Err(er) => {
                    return Err(er);
                },
            },
            None => None,
        };
        let lj = match lookup(&kvs, "stroke-linejoin".as_bytes()) {
            Some(v) => match LineJoin::from_str(v.as_slice()) {
                Ok(c) => Some(c),
                Err(er) => {
                    return Err(er);
                },
            },
            None => None,
        };
        let da = match lookup(&kvs, "stroke-dasharray".as_bytes()) {
            Some(v) => match DashArray::from_str(v.as_slice()) {
                Ok(d) => Some(d),
                Err(er) => {
                    return Err(er);
                },
            },
            None => None,
        };
        let doff = match lookup(&kvs, "stroke-dashoffset".as_bytes()) {
            Some(v) => match Num::from_text(v.as_slice()) {
                Ok(n) => Some(DashOffset(n)),
                Err(er) => {
                    return Err(er);
                },
            },
            None => None,
        };
        let op = match lookup(&kvs, "stroke-opacity".as_bytes()) {
            Some(v) => match Opacity::from_str(v.as_slice()) {
                Ok(o) => Some(o),
                Err(er) => {
                    return Err(er);
                },
            },
            None => None,
        };
        let ml = match lookup(&kvs, "stroke-miterlimit".as_bytes()) {
            Some(v) => match Num::from_text(v.as_slice()) {
                Ok(n) => Some(MiterLimit(n)),
                Err(er) => {
                    return Err(er);
                },
            },
            None => None,
        };
        let fill = match lookup(&kvs, "fill".as_bytes()) {
            Some(v) => Some(copy_whole(v)),
            None => None,
        };
        let stroke = match lookup(&kvs, "stroke".as_bytes()) {
            Some(v) => Some(copy_whole(v)),
            None => None,
        };
        let others = collect_others(&kvs);
        let common = CommonKVs {
            x,
            y,
            fill,
            stroke,
            stroke_width: sw,
            stroke_linecap: lc,
            stroke_linejoin: lj,
            stroke_dasharray: da,
            stroke_dashoffset: doff,
            stroke_opacity: op,
            stroke_miterlimit: ml,
        };
        Ok(((common, others), e))
    }

    /// Each present field as `key="value" `, in field order; absent fields
    /// render nothing.
    pub open spec fn spec_render(self) -> Seq<u8> {
        let v = self@;
        (match v.x {
            Some(n) => spec_attr("x".spec_bytes(), spec_render_num(n)),
            None => Seq::empty(),
        }) + (match v.y {
            Some(n) => spec_attr("y".spec_bytes(), spec_render_num(n)),
            None => Seq::empty(),
        }) + (match v.fill {
            Some(t) => spec_attr("fill".spec_bytes(), t),
            None => Seq::empty(),
        }) + (match v.stroke {
            Some(t) => spec_attr("stroke".spec_bytes(), t),
            None => Seq::empty(),
        }) + (match v.stroke_width {
            Some(n) => spec_attr("stroke-width".spec_bytes(), spec_render_num(n)),
            None => Seq::empty(),
        }) + (match v.stroke_linecap {
            Some(c) => spec_attr("stroke-linecap".spec_bytes(), c.spec_render()),
            None => Seq::empty(),
        }) + (match v.stroke_linejoin {
            Some(c) => spec_attr("stroke-linejoin".spec_bytes(), c.spec_render()),
            None => Seq::empty(),
        }) + (match v.stroke_dasharray {
            Some(d) => spec_attr("stroke-dasharray".spec_bytes(), spec_render_dash(d)),
            None => Seq::empty(),
        }) + (match v.stroke_dashoffset {
            Some(d) => spec_attr("stroke-dashoffset".spec_bytes(), spec_render_num(d.0)),
            None => Seq::empty(),
        }) + (match v.stroke_opacity {
            Some(o) => spec_attr("stroke-opacity".spec_bytes(), spec_render_num(o.0)),
            None => Seq::empty(),
        }) + (match v.stroke_miterlimit {
            Some(m) => spec_attr("stroke-miterlimit".spec_bytes(), spec_render_num(m.0)),
            None => Seq::empty(),
        })
    }

    /// Renders the present attributes, exactly as `spec_render` describes.
    #[verifier::rlimit(100)]
    #[verifier::spinoff_prover]
    pub fn to_text(&self) -> (r: Vec<u8>)
        requires
            self.wf(),
        ensures
            r@ == self.spec_render(),
    {
        let mut out: Vec<u8> = Vec::new();
        if let Some(n) = &self.x {
            let t = n.to_text();
            push_attr(&mut out, "x".as_bytes(), t.as_slice());
        }
        if let Some(n) = &self.y {
            let t = n.to_text();
            push_attr(&mut out, "y".as_bytes(), t.as_slice());
        }
        if let Some(v) = &self.fill {
            push_attr(&mut out, "fill".as_bytes(), v.as_slice());
        }
        if let Some(v) = &self.stroke {
            push_attr(&mut out, "stroke".as_bytes(), v.as_slice());
        }
        if let Some(n) = &self.stroke_width {
            let t = n.to_text();
            push_attr(&mut out, "stroke-width".as_bytes(), t.as_slice());
        }
        if let Some(c) = &self.stroke_linecap {
            let t = c.to_text();
            push_attr(&mut out, "stroke-linecap".as_bytes(), t.as_slice());
        }
        if let Some(c) = &self.stroke_linejoin {
            let t = c.to_text();
            push_attr(&mut out, "stroke-linejoin".as_bytes(), t.as_slice());
        }
        if let Some(d) = &self.stroke_dasharray {
            let t = d.to_text();
            push_attr(&mut out, "stroke-dasharray".as_bytes(), t.as_slice());
        }
        if let Some(d) = &self.stroke_dashoffset {
            let t = d.to_text();
            push_attr(&mut out, "stroke-dashoffset".as_bytes(), t.as_slice());
        }
        if let Some(o) = &self.stroke_opacity {
            let t = o.to_text();
            push_attr(&mut out, "stroke-opacity".as_bytes(), t.as_slice());
        }
        if let Some(m) = &self.stroke_miterlimit {
            let t = m.to_text();
            push_attr(&mut out, "stroke-miterlimit".as_bytes(), t.as_slice());
        }
        proof {
            assert(out@ =~= self.spec_render());
        }
        out
    }
}

/// The view of an attribute set with nothing present.
pub open spec fn spec_default_common() -> CommonKVsView {
    CommonKVsView {
        x: None,
        y: None,
        fill: None,
        stroke: None,
        stroke_width: None,
        stroke_linecap: None,
        stroke_linejoin: None,
        stroke_dasharray: None,
        stroke_dashoffset: None,
        stroke_opacity: None,
        stroke_miterlimit: None,
    }
}

impl Default for CommonKVs {
    /// No attributes at all.
    fn default() -> (r: CommonKVs)
        ensures
            r@ == spec_default_common(),
            r.wf(),
    {
        CommonKVs {
            x: None,
            y: None,
            fill: None,
            stroke: None,
            stroke_width: None,
            stroke_linecap: None,
            stroke_linejoin: None,
            stroke_dasharray: None,
            stroke_dashoffset: None,
            stroke_opacity: None,
            stroke_miterlimit: None,
        }
    }
}

/// Copies an owned value buffer.
fn copy_whole(v: &Vec<u8>) -> (r: Vec<u8>)
    ensures
        r@ == v@,
{
    let r = copy_range(v.as_slice(), 0, v.len());
    proof {
        assert(v@.subrange(0, v@.len() as int) =~= v@);
    }
    r
}

/// Looks a numeric field up, exactly as `spec_field_num` describes.
pub(crate) fn field_num(kvs: &Vec<(Vec<u8>, Vec<u8>)>, key: &[u8]) -> (r: Result<
    Option<Num>,
    ParseError,
>)
    ensures
        r matches Ok(o) ==> spec_field_num(kvs_view(kvs@), key@) == Some(o) && (o matches Some(
            n,
        ) ==> n.wf()),
        r is Err <==> spec_field_num(kvs_view(kvs@), key@) is None,
{
    match lookup(kvs, key) {
        Some(v) => match Num::from_text(v.as_slice()) {
            Ok(n) => Ok(Some(n)),
            Err(er) => Err(er),
        },
        None => Ok(None),
    }
}

/// Decides common-key membership, exactly as `spec_is_common_key` describes.
fn is_common_key(k: &[u8]) -> (r: bool)
    ensures
        r == spec_is_common_key(k@),
{
    bytes_eq(k, "x".as_bytes()) || bytes_eq(k, "y".as_bytes()) || bytes_eq(
        k,
        "fill".as_bytes(),
    ) || bytes_eq(k, "stroke".as_bytes()) || bytes_eq(k, "stroke-width".as_bytes()) || bytes_eq(
        k,
        "stroke-linecap".as_bytes(),
    ) || bytes_eq(k, "stroke-linejoin".as_bytes()) || bytes_eq(
        k,
        "stroke-dasharray".as_bytes(),
    ) || bytes_eq(k, "stroke-dashoffset".as_bytes()) || bytes_eq(
        k,
        "stroke-opacity".as_bytes(),
    ) || bytes_eq(k, "stroke-miterlimit".as_bytes())
}

/// Collects the non-common pairs, exactly as `spec_others` describes.
fn collect_others(kvs: &Vec<(Vec<u8>, Vec<u8>)>) -> (r: Vec<(Vec<u8>, Vec<u8>)>)
    ensures
        kvs_view(r@) == spec_others(kvs_view(kvs@)),
{
    let mut out: Vec<(Vec<u8>, Vec<u8>)> = Vec::new();
    let mut k: usize = 0;
    while k < kvs.len()
        invariant
            k <= kvs@.len(),
            kvs_view(out@) =~= spec_others(kvs_view(kvs@.take(k as int))),
        decreases kvs@.len() - k,
    {
        proof {
            let pre = kvs_view(kvs@.take(k as int));
            let post = kvs_view(kvs@.take((k + 1) as int));
            assert(post.drop_last() =~= pre);
            assert(post.last() == (kvs@[k as int].0@, kvs@[k as int].1@));
        }
        if !is_common_key(kvs[k].0.as_slice()) {
            let kk = copy_whole(&kvs[k].0);
            let vv = copy_whole(&kvs[k].1);
            let ghost preout = out@;
            out.push((kk, vv));
            proof {
                assert(kvs_view(out@) =~= kvs_view(preout).push(
                    (kvs@[k as int].0@, kvs@[k as int].1@),
                ));
            }
        }
        k += 1;
    }
    proof {
        assert(kvs@.take(kvs@.len() as int) =~= kvs@);
    }
    out
}

} // verus!
