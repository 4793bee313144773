//! A verified parser and serializer for a small SVG-like markup language.
//!
//! Text is parsed into a typed document tree (header, root element, child
//! shapes) and rendered back to canonical text.  The grammar covers generic
//! `key="value"` attribute lists, typed attribute values (numbers, keyword
//! enumerations, `auto`-or-value fields, numeric lists) and the path-data
//! mini-language of drawing commands.  Every parsing function is specified
//! against a mathematical mirror of the grammar over byte sequences, and the
//! serializers are proved to be left inverses of the parsers.

pub mod children;
pub mod encode;
pub mod header;
pub mod num;
pub mod parser;
pub mod value;

use vstd::prelude::*;

use vstd::string::StringSliceAdditionalSpecFns;

use children::common::{field_num, spec_field_num};
use children::{children_view, spec_parse_children, Child, ChildView};
use header::{spec_parse_header, Header, HeaderView};
use num::{push_digits, spec_digits_of, spec_render_num, spec_u32_of, u32_of_token, Num};
use parser::{
    copy_range, find_byte, kvs_view, lookup, match_at, parse_properties, push_attr,
    push_slice, skip_ws, spec_attr, spec_find_byte, spec_lookup, spec_match_at,
    spec_parse_properties, spec_skip_ws, spec_token_run, token_run, ErrorKind, ParseError,
};
use value::{spec_get_auto, Auto};

verus! {

/// A parsed document: the optional header, the root element's own
/// attributes and its child shapes.
#[derive(Debug, Clone)]
pub struct Svg {
    pub header: Option<Header>,
    pub x: Option<Num>,
    pub y: Option<Num>,
    pub height: Auto,
    pub width: Auto,
    pub view_box: Option<(u32, u32, u32, u32)>,
    pub fill: Vec<u8>,
    pub xmlns: Vec<u8>,
    pub children: Vec<Child>,
}

/// The mathematical shadow of `Svg`.
pub struct SvgView {
    pub header: Option<HeaderView>,
    pub x: Option<Num>,
    pub y: Option<Num>,
    pub height: Auto,
    pub width: Auto,
    pub view_box: Option<(u32, u32, u32, u32)>,
    pub fill: Seq<u8>,
    pub xmlns: Seq<u8>,
    pub children: Seq<ChildView>,
}

impl View for Svg {
    type V = SvgView;

    open spec fn view(&self) -> SvgView {
        SvgView {
            header: match self.header {
                Some(h) => Some(h@),
                None => None,
            },
            x: self.x,
            y: self.y,
            height: self.height,
            width: self.width,
            view_box: self.view_box,
            fill: self.fill@,
            xmlns: self.xmlns@,
            children: children_view(self.children@),
        }
    }
}

/// One whitespace-separated `u32` token of a canvas box, and the position
/// after it.
pub open spec fn spec_vb_token(v: Seq<u8>, i: int) -> Option<(u32, int)> {
    let j = spec_skip_ws(v, i);
    let k = spec_token_run(v, j);
    if k > j {
        match spec_u32_of(v.subrange(j, k)) {
            Some(x) => Some((x, k)),
            None => None,
        }
    } else {
        None
    }
}

/// A canvas box: four whitespace-separated unsigned integers; text after
/// the fourth token is ignored.
pub open spec fn spec_parse_viewbox(v: Seq<u8>) -> Option<(u32, u32, u32, u32)> {
    match spec_vb_token(v, 0) {
        Some((a, p1)) => match spec_vb_token(v, p1) {
            Some((b, p2)) => match spec_vb_token(v, p2) {
                Some((c, p3)) => match spec_vb_token(v, p3) {
                    Some((d, _p4)) => Some((a, b, c, d)),
                    None => None,
                },
                None => None,
            },
            None => None,
        },
        None => None,
    }
}

/// The closing `</svg>` tag, each piece trimmed, and the position after it.
pub open spec fn spec_svg_close(s: Seq<u8>, p: int) -> Option<int> {
    let c0 = spec_skip_ws(s, p);
    if c0 + 1 < s.len() && s[c0] == '<' as u8 && s[c0 + 1] == '/' as u8 {
        let c2 = spec_skip_ws(s, c0 + 2);
        if spec_match_at(s, c2, "svg".spec_bytes()) {
            let c3 = spec_skip_ws(s, c2 + "svg".spec_bytes().len());
            if c3 < s.len() && s[c3] == '>' as u8 {
                Some(spec_skip_ws(s, c3 + 1))
            } else {
                None
            }
        } else {
            None
        }
    } else {
        None
    }
}

/// A whole document: an optional header, the `<svg ...>` root tag whose
/// attribute text must be wholly made of pairs, the child elements, the
/// closing tag, and nothing after it.
pub open spec fn spec_parse_svg(s: Seq<u8>) -> Option<SvgView> {
    let hdr = spec_parse_header(s, 0);
    let p0: int = match hdr {
        Some((_h, e)) => e,
        None => 0,
    };
    let j = spec_skip_ws(s, p0);
    if j < s.len() && s[j] == '<' as u8 && spec_match_at(s, j + 1, "svg".spec_bytes()) {
        let a2 = spec_skip_ws(s, j + 1 + "svg".spec_bytes().len());
        match spec_find_byte(s, a2, '>' as u8) {
            Some(gt) => if gt > a2 {
                let content = s.subrange(a2, gt);
                let (kvs, pe) = spec_parse_properties(content, 0);
                if pe == content.len() {
                    let x = spec_field_num(kvs, "x".spec_bytes());
                    let y = spec_field_num(kvs, "y".spec_bytes());
                    let h = spec_get_auto(kvs, "height".spec_bytes());
                    let w = spec_get_auto(kvs, "width".spec_bytes());
                    let vb = match spec_lookup(kvs, "viewBox".spec_bytes()) {
                        None => Some(None),
                        Some(v) => match spec_parse_viewbox(v) {
                            Some(t) => Some(Some(t)),
                            None => None,
                        },
                    };
                    if x is Some && y is Some && h is Some && w is Some && vb is Some {
                        let (kids, pc) = spec_parse_children(s, gt + 1);
                        match spec_svg_close(s, pc) {
                            Some(fin) => if fin == s.len() {
                                Some(
                                    SvgView {
                                        header: match hdr {
                                            Some((hv, _e)) => Some(hv),
                                            None => None,
                                        },
                                        x: x->0,
                                        y: y->0,
                                        height: h->0,
                                        width: w->0,
                                        view_box: vb->0,
                                        fill: match spec_lookup(kvs, "fill".spec_bytes()) {
                                            Some(v) => v,
                                            None => "none".spec_bytes(),
                                        },
                                        xmlns: match spec_lookup(kvs, "xmlns".spec_bytes()) {
                                            Some(v) => v,
                                            None => "http://www.w3.org/2000/svg".spec_bytes(),
                                        },
                                        children: kids,
                                    },
                                )
                            } else {
                                None
                            },
                            None => None,
                        }
                    } else {
                        None
                    }
                } else {
                    None
                }
            } else {
                None
            },
            None => None,
        }
    } else {
        None
    }
}

/// The concatenated renderings of a child list, in document order.
pub open spec fn spec_render_child_list(cs: Seq<Child>) -> Seq<u8>
    decreases cs.len(),
{
    if cs.len() == 0 {
        Seq::empty()
    } else {
        cs[0].spec_render() + spec_render_child_list(cs.skip(1))
    }
}

/// Renders the children from position `k` on.
fn render_children_from(cs: &Vec<Child>, k: usize) -> (r: Vec<u8>)
    requires
        k <= cs@.len(),
        forall|q: int| 0 <= q < cs@.len() ==> #[trigger] cs@[q].wf(),
    ensures
        r@ == spec_render_child_list(cs@.skip(k as int)),
    decreases cs@.len() - k,
{
    if k >= cs.len() {
        let r: Vec<u8> = Vec::new();
        proof {
            assert(cs@.skip(k as int) =~= Seq::<Child>::empty());
        }
        r
    } else {
        let mut out = cs[k].to_text();
        let mut tail = render_children_from(cs, k + 1);
        out.append(&mut tail);
        proof {
            assert(cs@.skip(k as int).skip(1) =~= cs@.skip(k + 1 as int));
            assert(cs@.skip(k as int)[0] == cs@[k as int]);
            assert(out@ =~= spec_render_child_list(cs@.skip(k as int)));
        }
        out
    }
}

/// Reads one canvas-box token, exactly as `spec_vb_token` describes.
fn vb_token(v: &[u8], i: usize) -> (r: Option<(u32, usize)>)
    requires
        i <= v@.len(),
    ensures
        match r {
            Some((x, e)) => spec_vb_token(v@, i as int) == Some((x, e as int)) && i <= e
                <= v@.len(),
            None => spec_vb_token(v@, i as int) is None,
        },
{
    let j = skip_ws(v, i);
    let k = token_run(v, j);
    if k > j {
        let t = vstd::slice::slice_subrange(v, j, k);
        match u32_of_token(t) {
            Some(x) => Some((x, k)),
            None => None,
        }
    } else {
        None
    }
}

/// Reads a canvas box, exactly as `spec_parse_viewbox` describes.
fn parse_viewbox(v: &[u8]) -> (r: Option<(u32, u32, u32, u32)>)
    ensures
        match r {
            Some(t) => spec_parse_viewbox(v@) == Some(t),
            None => spec_parse_viewbox(v@) is None,
        },
{
    let (a, p1) = match vb_token(v, 0) {
        Some(t) => t,
        None => {
            return None;
        },
    };
    let (b, p2) = match vb_token(v, p1) {
        Some(t) => t,
        None => {
            return None;
        },
    };
    let (c, p3) = match vb_token(v, p2) {
        Some(t) => t,
        None => {
            return None;
        },
    };
    let (d, _p4) = match vb_token(v, p3) {
        Some(t) => t,
        None => {
            return None;
        },
    };
    Some((a, b, c, d))
}

impl Svg {
    pub open spec fn wf(self) -> bool {
        &&& (self.x matches Some(n) ==> n.wf())
        &&& (self.y matches Some(n) ==> n.wf())
        &&& self.height.wf()
        &&& self.width.wf()
        &&& forall|k: int| 0 <= k < self.children@.len() ==> #[trigger] self.children@[k].wf()
    }

    /// Reads a whole document, exactly as `spec_parse_svg` describes.
    #[verifier::rlimit(100)]
    #[verifier::spinoff_prover]
    pub fn from_str(s: &[u8]) -> (r: Result<Svg, ParseError>)
        ensures
            r matches Ok(svg) ==> spec_parse_svg(s@) == Some(svg@) && svg.wf(),
            r is Err <==> spec_parse_svg(s@) is None,
    {
        let n = s.len();
        proof {
            assert(n == s@.len());
        }
        let (hdr, p0) = match Header::from_str(s, 0) {
            Ok((h, e)) => (Some(h), e),
            Err(_) => (None, 0),
        };
        let j = skip_ws(s, p0);
        if !(j < s.len() && s[j] == '<' as u8 && match_at(s, j + 1, "svg".as_bytes())) {
            return Err(ParseError { kind: ErrorKind::Tag, pos: j });
        }
        let a2 = skip_ws(s, j + 1 + "svg".as_bytes().len());
        let gt = match find_byte(s, a2, '>' as u8) {
            Some(g) => g,
            None => {
                return Err(ParseError { kind: ErrorKind::Document, pos: a2 });
            },
        };
        if gt == a2 {
            return Err(ParseError { kind: ErrorKind::Document, pos: a2 });
        }
        let content = copy_range(s, a2, gt);
        let (kvs, pe) = parse_properties(content.as_slice(), 0);
        if pe != content.len() {
            return Err(ParseError { kind: ErrorKind::Document, pos: a2 + pe });
        }
        let x = match field_num(&kvs, "x".as_bytes()) {
            Ok(v) => v,
            Err(er) => {
                return Err(er);
            },
        };
        let y = match field_num(&kvs, "y".as_bytes()) {
            Ok(v) => v,
            Err(er) => {
                return Err(er);
            },
        };
        let height = match Auto::get_from_map(&kvs, "height".as_bytes()) {
            Ok(v) => v,
            Err(er) => {
                return Err(er);
            },
        };
        let width = match Auto::get_from_map(&kvs, "width".as_bytes()) {
            Ok(v) => v,
            Err(er) => {
                return Err(er);
            },
        };
        let view_box = match lookup(&kvs, "viewBox".as_bytes()) {
            None => None,
            Some(v) => match parse_viewbox(v.as_slice()) {
                Some(t) => Some(t),
                None => {
                    return Err(ParseError { kind: ErrorKind::Number, pos: a2 });
                },
            },
        };
        let fill = match lookup(&kvs, "fill".as_bytes()) {
            Some(v) => copy_range(v.as_slice(), 0, v.len()),
            None => {
                let lit = "none".as_bytes();
                copy_range(lit, 0, lit.len())
            },
        };
        let xmlns = match lookup(&kvs, "xmlns".as_bytes()) {
            Some(v) => copy_range(v.as_slice(), 0, v.len()),
            None => {
                let lit = "http://www.w3.org/2000/svg".as_bytes();
                copy_range(lit, 0, lit.len())
            },
        };
        proof {
            if let Some(v) = spec_lookup(kvs_view(kvs@), "fill".spec_bytes()) {
                assert(v.subrange(0, v.len() as int) =~= v);
            }
            if let Some(v) = spec_lookup(kvs_view(kvs@), "xmlns".spec_bytes()) {
                assert(v.subrange(0, v.len() as int) =~= v);
            }
            assert("none".spec_bytes().subrange(0, "none".spec_bytes().len() as int) =~= "none".spec_bytes());
            assert("http://www.w3.org/2000/svg".spec_bytes().subrange(
                0,
                "http://www.w3.org/2000/svg".spec_bytes().len() as int,
            ) =~= "http://www.w3.org/2000/svg".spec_bytes());
        }
        let (kids, pc) = Child::parser(s, gt + 1);
        let fin = match svg_close(s, pc) {
            Ok(f) => f,
            Err(er) => {
                return Err(er);
            },
        };
        if fin != s.len() {
            return Err(ParseError { kind: ErrorKind::Document, pos: fin });
        }
        Ok(
            Svg {
                header: hdr,
                x,
                y,
                height,
                width,
                view_box,
                fill,
                xmlns,
                children: kids,
            },
        )
    }

    /// The canonical document text: the header when present, the root tag
    /// with its attributes (fill and namespace only when nonempty, the
    /// size fields always, absent ones as `auto`), the children, and the
    /// closing tag.
    pub open spec fn spec_render(self) -> Seq<u8> {
        (match self.header {
            Some(h) => h.spec_render(),
            None => Seq::empty(),
        }) + "<svg ".spec_bytes() + (if self.fill@.len() > 0 {
            spec_attr("fill".spec_bytes(), self.fill@)
        } else {
            Seq::empty()
        }) + (if self.xmlns@.len() > 0 {
            spec_attr("xmlns".spec_bytes(), self.xmlns@)
        } else {
            Seq::empty()
        }) + (match self.x {
            Some(n) => spec_attr("x".spec_bytes(), spec_render_num(n)),
            None => Seq::empty(),
        }) + (match self.y {
            Some(n) => spec_attr("y".spec_bytes(), spec_render_num(n)),
            None => Seq::empty(),
        }) + (match self.view_box {
            Some((a, b, c, d)) => spec_attr(
                "viewBox".spec_bytes(),
                spec_digits_of(a as nat) + seq![' ' as u8] + spec_digits_of(b as nat) + seq![
                    ' ' as u8,
                ] + spec_digits_of(c as nat) + seq![' ' as u8] + spec_digits_of(d as nat),
            ),
            None => Seq::empty(),
        }) + spec_attr("height".spec_bytes(), self.height.spec_render()) + spec_attr(
            "width".spec_bytes(),
            self.width.spec_render(),
        ) + ">".spec_bytes() + spec_render_child_list(self.children@) + "</svg>".spec_bytes()
    }

    /// Renders the document, exactly as `spec_render` describes.
    #[verifier::rlimit(100)]
    #[verifier::spinoff_prover]
    pub fn to_text(&self) -> (r: Vec<u8>)
        requires
            self.wf(),
        ensures
            r@ == self.spec_render(),
    {
        let mut out: Vec<u8> = Vec::new();
        if let Some(h) = &self.header {
            let mut ht = h.to_text();
            out.append(&mut ht);
        }
        push_slice(&mut out, "<svg ".as_bytes());
        if self.fill.len() > 0 {
            push_attr(&mut out, "fill".as_bytes(), self.fill.as_slice());
        }
        if self.xmlns.len() > 0 {
            push_attr(&mut out, "xmlns".as_bytes(), self.xmlns.as_slice());
        }
        if let Some(n) = &self.x {
            let t = n.to_text();
            push_attr(&mut out, "x".as_bytes(), t.as_slice());
        }
        if let Some(n) = &self.y {
            let t = n.to_text();
            push_attr(&mut out, "y".as_bytes(), t.as_slice());
        }
        if let Some((a, b, c, d)) = self.view_box {
            let mut vt: Vec<u8> = Vec::new();
            push_digits(a as u64, &mut vt);
            vt.push(' ' as u8);
            push_digits(b as u64, &mut vt);
            vt.push(' ' as u8);
            push_digits(c as u64, &mut vt);
            vt.push(' ' as u8);
            push_digits(d as u64, &mut vt);
            proof {
                assert(vt@ =~= spec_digits_of(a as nat) + seq![' ' as u8] + spec_digits_of(
                    b as nat,
                ) + seq![' ' as u8] + spec_digits_of(c as nat) + seq![' ' as u8]
                    + spec_digits_of(d as nat));
            }
            push_attr(&mut out, "viewBox".as_bytes(), vt.as_slice());
        }
        let t = self.height.to_text();
        push_attr(&mut out, "height".as_bytes(), t.as_slice());
        let t = self.width.to_text();
        push_attr(&mut out, "width".as_bytes(), t.as_slice());
        push_slice(&mut out, ">".as_bytes());
        let mut kt = render_children_from(&self.children, 0);
        proof {
            assert(self.children@.skip(0) =~= self.children@);
        }
        out.append(&mut kt);
        push_slice(&mut out, "</svg>".as_bytes());
        proof {
            assert(out@ =~= self.spec_render());
        }
        out
    }
}

/// Reads the closing tag, exactly as `spec_svg_close` describes.
fn svg_close(s: &[u8], p: usize) -> (r: Result<usize, ParseError>)
    requires
        p <= s@.len(),
    ensures
        r matches Ok(f) ==> spec_svg_close(s@, p as int) == Some(f as int) && f <= s@.len(),
        r is Err <==> spec_svg_close(s@, p as int) is None,
{
    let n = s.len();
    proof {
        assert(n == s@.len());
    }
    let c0 = skip_ws(s, p);
    if !(c0 < s.len() && c0 + 1 < s.len() && s[c0] == '<' as u8 && s[c0 + 1] == '/' as u8) {
        return Err(ParseError { kind: ErrorKind::Tag, pos: c0 });
    }
    let c2 = skip_ws(s, c0 + 2);
    if !match_at(s, c2, "svg".as_bytes()) {
        return Err(ParseError { kind: ErrorKind::Tag, pos: c2 });
    }
    let c3 = skip_ws(s, c2 + "svg".as_bytes().len());
    if !(c3 < s.len() && s[c3] == '>' as u8) {
        return Err(ParseError { kind: ErrorKind::Tag, pos: c3 });
    }
    Ok(skip_ws(s, c3 + 1))
}

} // verus!
