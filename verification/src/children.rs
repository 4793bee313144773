//! The child shapes a document may hold: path, circle, rectangle, line and
//! ellipse elements, and the attribute machinery they share.

pub mod circle;
pub mod common;
pub mod ellipse;
pub mod line;
pub mod path;
pub mod rect;

use vstd::prelude::*;

use vstd::string::StringSliceAdditionalSpecFns;

use crate::parser::{bytes_eq, match_at, skip_ws, spec_match_at, spec_skip_ws, ErrorKind, ParseError};
use crate::value::Auto;
use circle::{spec_parse_circle, Circle, CircleView};
use common::spec_default_common;
use ellipse::{spec_parse_ellipse, Ellipse, EllipseView};
use line::{spec_parse_line, Line, LineView};
use path::{spec_parse_path, Path, PathView};
use rect::{spec_parse_rect, Rect, RectView};

verus! {

/// One child element of the document root.
#[derive(Debug, Clone)]
pub enum Child {
    Circle(Circle),
    Ellipse(Ellipse),
    Line(Line),
    Path(Path),
    Rect(Rect),
}

/// The mathematical shadow of `Child`.
pub enum ChildView {
    Circle(CircleView),
    Ellipse(EllipseView),
    Line(LineView),
    Path(PathView),
    Rect(RectView),
}

impl View for Child {
    type V = ChildView;

    open spec fn view(&self) -> ChildView {
        match self {
            Child::Circle(c) => ChildView::Circle(c@),
            Child::Ellipse(c) => ChildView::Ellipse(c@),
            Child::Line(c) => ChildView::Line(c@),
            Child::Path(c) => ChildView::Path(c@),
            Child::Rect(c) => ChildView::Rect(c@),
        }
    }
}

/// The self-closing tail of a child tag: `/` and `>`, each side trimmed.
pub open spec fn spec_close_tag(s: Seq<u8>, e: int) -> Option<int> {
    let e2 = spec_skip_ws(s, e);
    if e2 < s.len() && s[e2] == '/' as u8 {
        let e3 = spec_skip_ws(s, e2 + 1);
        if e3 < s.len() && s[e3] == '>' as u8 {
            Some(spec_skip_ws(s, e3 + 1))
        } else {
            None
        }
    } else {
        None
    }
}

/// One child element: `<`, the tag name, the element's attribute list, then
/// the self-closing tail.
pub open spec fn spec_parse_child(s: Seq<u8>, i: int) -> Option<(ChildView, int)> {
    let j = spec_skip_ws(s, i);
    if j < s.len() && s[j] == '<' as u8 {
        if spec_match_at(s, j + 1, "path".spec_bytes()) {
            match spec_parse_path(s, j + 1 + "path".spec_bytes().len()) {
                Some((p, e)) => match spec_close_tag(s, e) {
                    Some(f) => Some((ChildView::Path(p), f)),
                    None => None,
                },
                None => None,
            }
        } else if spec_match_at(s, j + 1, "circle".spec_bytes()) {
            match spec_parse_circle(s, j + 1 + "circle".spec_bytes().len()) {
                Some((p, e)) => match spec_close_tag(s, e) {
                    Some(f) => Some((ChildView::Circle(p), f)),
                    None => None,
                },
                None => None,
            }
        } else if spec_match_at(s, j + 1, "rect".spec_bytes()) {
            match spec_parse_rect(s, j + 1 + "rect".spec_bytes().len()) {
                Some((p, e)) => match spec_close_tag(s, e) {
                    Some(f) => Some((ChildView::Rect(p), f)),
                    None => None,
                },
                None => None,
            }
        } else if spec_match_at(s, j + 1, "line".spec_bytes()) {
            match spec_parse_line(s, j + 1 + "line".spec_bytes().len()) {
                Some((p, e)) => match spec_close_tag(s, e) {
                    Some(f) => Some((ChildView::Line(p), f)),
                    None => None,
                },
                None => None,
            }
        } else if spec_match_at(s, j + 1, "ellipse".spec_bytes()) {
            match spec_parse_ellipse(s, j + 1 + "ellipse".spec_bytes().len()) {
                Some((p, e)) => match spec_close_tag(s, e) {
                    Some(f) => Some((ChildView::Ellipse(p), f)),
                    None => None,
                },
                None => None,
            }
        } else {
            None
        }
    } else {
        None
    }
}

/// Zero or more child elements, read greedily.
pub open spec fn spec_parse_children(s: Seq<u8>, i: int) -> (Seq<ChildView>, int)
    decreases s.len() - i when 0 <= i <= s.len()
{
    match spec_parse_child(s, i) {
        Some((c, e)) => {
            if i < e <= s.len() {
                let (rest, fin) = spec_parse_children(s, e);
                (seq![c] + rest, fin)
            } else {
                (seq![c], e)
            }
        },
        None => (Seq::empty(), i),
    }
}

/// The views of an owned child list.
pub open spec fn children_view(cs: Seq<Child>) -> Seq<ChildView> {
    cs.map_values(|c: Child| c@)
}

/// The default (all attributes absent) view of a named child.
pub open spec fn spec_child_of_name(s: Seq<u8>) -> Option<ChildView> {
    if s == "circle".spec_bytes() {
        Some(
            ChildView::Circle(
                CircleView { common: spec_default_common(), cx: None, cy: None, r: None },
            ),
        )
    } else if s == "ellipse".spec_bytes() {
        Some(
            ChildView::Ellipse(
                EllipseView {
                    common: spec_default_common(),
                    cx: None,
                    cy: None,
                    rx: Auto::Unset,
                    ry: Auto::Unset,
                },
            ),
        )
    } else if s == "line".spec_bytes() {
        Some(
            ChildView::Line(
                LineView {
                    common: spec_default_common(),
                    x1: None,
                    y1: None,
                    x2: None,
                    y2: None,
                },
            ),
        )
    } else if s == "path".spec_bytes() {
        Some(ChildView::Path(PathView { common: spec_default_common(), d: None }))
    } else if s == "rect".spec_bytes() {
        Some(
            ChildView::Rect(
                RectView {
                    common: spec_default_common(),
                    x: None,
                    y: None,
                    width: None,
                    height: None,
                    rx: None,
                    ry: None,
                },
            ),
        )
    } else {
        None
    }
}

impl Child {
    pub open spec fn wf(self) -> bool {
        match self {
            Child::Circle(c) => c.wf(),
            Child::Ellipse(c) => c.wf(),
            Child::Line(c) => c.wf(),
            Child::Path(c) => c.wf(),
            Child::Rect(c) => c.wf(),
        }
    }

    /// The default child for a tag name, exactly as `spec_child_of_name`
    /// describes; an unsupported name is a failure.
    pub fn from_str(s: &[u8]) -> (r: Result<Child, ParseError>)
        ensures
            r matches Ok(c) ==> spec_child_of_name(s@) == Some(c@) && c.wf(),
            r is Err <==> spec_child_of_name(s@) is None,
    {
        if bytes_eq(s, "circle".as_bytes()) {
            Ok(Child::Circle(Circle { common: Default::default(), cx: None, cy: None, r: None }))
        } else if bytes_eq(s, "ellipse".as_bytes()) {
            Ok(
                Child::Ellipse(
                    Ellipse {
                        common: Default::default(),
                        cx: None,
                        cy: None,
                        rx: Auto::Unset,
                        ry: Auto::Unset,
                    },
                ),
            )
        } else if bytes_eq(s, "line".as_bytes()) {
            Ok(
                Child::Line(
                    Line { common: Default::default(), x1: None, y1: None, x2: None, y2: None },
                ),
            )
        } else if bytes_eq(s, "path".as_bytes()) {
            Ok(Child::Path(Path { common: Default::default(), d: None }))
        } else if bytes_eq(s, "rect".as_bytes()) {
            Ok(
                Child::Rect(
                    Rect {
                        common: Default::default(),
                        x: None,
                        y: None,
                        width: None,
                        height: None,
                        rx: None,
                        ry: None,
                    },
                ),
            )
        } else {
            Err(ParseError { kind: ErrorKind::Keyword, pos: 0 })
        }
    }

    /// Reads one child element, exactly as `spec_parse_child` describes.
    #[verifier::rlimit(100)]
    #[verifier::spinoff_prover]
    pub fn parse_single(s: &[u8], i: usize) -> (r: Result<(Child, usize), ParseError>)
        requires
            i <= s@.len(),
        ensures
            r matches Ok((c, e)) ==> spec_parse_child(s@, i as int) == Some((c@, e as int))
                && c.wf() && i < e <= s@.len(),
            r is Err <==> spec_parse_child(s@, i as int) is None,
    {
        let j = skip_ws(s, i);
        if !(j < s.len() && s[j] == '<' as u8) {
            return Err(ParseError { kind: ErrorKind::Tag, pos: j });
        }
        if match_at(s, j + 1, "path".as_bytes()) {
            let (p, e) = match Path::from_str(s, j + 1 + "path".as_bytes().len()) {
                Ok(v) => v,
                Err(er) => {
                    return Err(er);
                },
            };
            match close_tag(s, e) {
                Ok(f) => Ok((Child::Path(p), f)),
                Err(er) => Err(er),
            }
        } else if match_at(s, j + 1, "circle".as_bytes()) {
            let (p, e) = match Circle::from_str(s, j + 1 + "circle".as_bytes().len()) {
                Ok(v) => v,
                Err(er) => {
                    return Err(er);
                },
            };
            match close_tag(s, e) {
                Ok(f) => Ok((Child::Circle(p), f)),
                Err(er) => Err(er),
            }
        } else if match_at(s, j + 1, "rect".as_bytes()) {
            let (p, e) = match Rect::from_str(s, j + 1 + "rect".as_bytes().len()) {
                Ok(v) => v,
                Err(er) => {
                    return Err(er);
                },
            };
            match close_tag(s, e) {
                Ok(f) => Ok((Child::Rect(p), f)),
                Err(er) => Err(er),
            }
        } else if match_at(s, j + 1, "line".as_bytes()) {
            let (p, e) = match Line::from_str(s, j + 1 + "line".as_bytes().len()) {
                Ok(v) => v,
                Err(er) => {
                    return Err(er);
                },
            };
            match close_tag(s, e) {
                Ok(f) => Ok((Child::Line(p), f)),
                Err(er) => Err(er),
            }
        } else if match_at(s, j + 1, "ellipse".as_bytes()) {
            let (p, e) = match Ellipse::from_str(s, j + 1 + "ellipse".as_bytes().len()) {
                Ok(v) => v,
                Err(er) => {
                    return Err(er);
                },
            };
            match close_tag(s, e) {
                Ok(f) => Ok((Child::Ellipse(p), f)),
                Err(er) => Err(er),
            }
        } else {
            Err(ParseError { kind: ErrorKind::Tag, pos: j + 1 })
        }
    }

    /// Reads the run of child elements, exactly as `spec_parse_children`
    /// describes.
    pub fn parser(s: &[u8], i: usize) -> (r: (Vec<Child>, usize))
        requires
            i <= s@.len(),
        ensures
            children_view(r.0@) == spec_parse_children(s@, i as int).0,
            r.1 as int == spec_parse_children(s@, i as int).1,
            r.1 <= s@.len(),
            forall|k: int| 0 <= k < r.0@.len() ==> #[trigger] r.0@[k].wf(),
    {
        let mut out: Vec<Child> = Vec::new();
        let mut cur = i;
        loop
            invariant
                i <= cur <= s@.len(),
                spec_parse_children(s@, i as int).0 =~= children_view(out@)
                    + spec_parse_children(s@, cur as int).0,
                spec_parse_children(s@, i as int).1 == spec_parse_children(s@, cur as int).1,
                forall|k: int| 0 <= k < out@.len() ==> #[trigger] out@[k].wf(),
            decreases s@.len() - cur,
        {
            match Child::parse_single(s, cur) {
                Ok((c, e)) => {
                    let ghost pre = out@;
                    out.push(c);
                    proof {
                        assert(spec_parse_children(s@, cur as int).0 =~= seq![c@]
                            + spec_parse_children(s@, e as int).0);
                        assert(children_view(pre) + (seq![c@] + spec_parse_children(
                            s@,
                            e as int,
                        ).0) =~= children_view(out@) + spec_parse_children(s@, e as int).0);
                    }
                    cur = e;
                },
                Err(_) => {
                    proof {
                        assert(spec_parse_children(s@, cur as int).0 =~= Seq::<
                            ChildView,
                        >::empty());
                        assert(children_view(out@) + Seq::<ChildView>::empty() =~= children_view(
                            out@,
                        ));
                    }
                    return (out, cur);
                },
            }
        }
    }

    /// The rendering of whichever element the value holds.
    pub open spec fn spec_render(self) -> Seq<u8> {
        match self {
            Child::Circle(c) => c.spec_render(),
            Child::Ellipse(c) => c.spec_render(),
            Child::Line(c) => c.spec_render(),
            Child::Path(c) => c.spec_render(),
            Child::Rect(c) => c.spec_render(),
        }
    }

    /// Renders the element, exactly as `spec_render` describes.
    pub fn to_text(&self) -> (r: Vec<u8>)
        requires
            self.wf(),
        ensures
            r@ == self.spec_render(),
    {
        match self {
            Child::Circle(c) => c.to_text(),
            Child::Ellipse(c) => c.to_text(),
            Child::Line(c) => c.to_text(),
            Child::Path(c) => c.to_text(),
            Child::Rect(c) => c.to_text(),
        }
    }
}

/// Reads the self-closing tail, exactly as `spec_close_tag` describes.
fn close_tag(s: &[u8], e: usize) -> (r: Result<usize, ParseError>)
    requires
        e <= s@.len(),
    ensures
        r matches Ok(f) ==> spec_close_tag(s@, e as int) == Some(f as int) && e < f <= s@.len(),
        r is Err <==> spec_close_tag(s@, e as int) is None,
{
    let e2 = skip_ws(s, e);
    if e2 < s.len() && s[e2] == '/' as u8 {
        let e3 = skip_ws(s, e2 + 1);
        if e3 < s.len() && s[e3] == '>' as u8 {
            Ok(skip_ws(s, e3 + 1))
        } else {
            Err(ParseError { kind: ErrorKind::Tag, pos: e3 })
        }
    } else {
        Err(ParseError { kind: ErrorKind::Tag, pos: e2 })
    }
}

} // verus!
