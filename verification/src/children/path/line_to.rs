//! The lineto family: a straight line to a point (`L`), or to a new x or y
//! coordinate alone (`H`, `V`).

use vstd::prelude::*;

use crate::num::{lemma_render_num_chars, num_boundary, spec_render_num, Num};
use crate::parser::{
    lemma_render_number_at, lemma_render_point_at, parse_number, point, skip_ws,
    spec_parse_number, spec_parse_point, spec_render_point, spec_skip_ws, ErrorKind, ParseError,
};

verus! {

/// Lineto: draws a line to the point `x,y`.
#[derive(Debug, Clone, Copy, PartialEq, Eq, Structural)]
pub struct L {
    pub x: Num,
    pub y: Num,
    pub relative: bool,
}

/// Horizontal lineto: draws a line to the new x coordinate.
#[derive(Debug, Clone, Copy, PartialEq, Eq, Structural)]
pub struct H {
    pub x: Num,
    pub relative: bool,
}

/// Vertical lineto: draws a line to the new y coordinate.
#[derive(Debug, Clone, Copy, PartialEq, Eq, Structural)]
pub struct V {
    pub y: Num,
    pub relative: bool,
}

/// The lineto command family, tagged by which letter matched.
#[derive(Debug, Clone, Copy, PartialEq, Eq, Structural)]
pub enum LineTo {
    L(L),
    H(H),
    V(V),
}

impl L {
    pub open spec fn wf(self) -> bool {
        self.x.wf() && self.y.wf()
    }

    /// A lineto command: the letter `L` or `l`, then one point.
    pub open spec fn spec_parse(s: Seq<u8>, i: int) -> Option<(L, int)> {
        let j = spec_skip_ws(s, i);
        if j < s.len() && (s[j] == 'L' as u8 || s[j] == 'l' as u8) {
            match spec_parse_point(s, j + 1) {
                Some(((x, y), e)) => Some((L { x, y, relative: s[j] == 'l' as u8 }, e)),
                None => None,
            }
        } else {
            None
        }
    }

    /// Reads a lineto command, exactly as `spec_parse` describes.
    pub fn from_str(s: &[u8], i: usize) -> (r: Result<(L, usize), ParseError>)
        requires
            i <= s@.len(),
        ensures
            r matches Ok((l, e)) ==> Self::spec_parse(s@, i as int) == Some((l, e as int))
                && l.wf() && i < e <= s@.len(),
            r is Err <==> Self::spec_parse(s@, i as int) is None,
    {
        let j = skip_ws(s, i);
        if j < s.len() && (s[j] == 'L' as u8 || s[j] == 'l' as u8) {
            let relative = s[j] == 'l' as u8;
            match point(s, j + 1) {
                Ok(((x, y), e)) => Ok((L { x, y, relative }, e)),
                Err(er) => Err(er),
            }
        } else {
            Err(ParseError { kind: ErrorKind::CommandLetter, pos: j })
        }
    }

    /// The letter per the recorded form, a space, then `x,y`.
    pub open spec fn spec_render(self) -> Seq<u8> {
        seq![
            if self.relative {
                'l' as u8
            } else {
                'L' as u8
            },
            ' ' as u8,
        ] + spec_render_point(self.x, self.y)
    }

    /// Renders the command, exactly as `spec_render` describes.
    pub fn to_text(&self) -> (r: Vec<u8>)
        requires
            self.wf(),
        ensures
            r@ == self.spec_render(),
    {
        let mut out: Vec<u8> = Vec::new();
        out.push(if self.relative {
            'l' as u8
        } else {
            'L' as u8
        });
        out.push(' ' as u8);
        let mut xs = self.x.to_text();
        out.append(&mut xs);
        out.push(',' as u8);
        let mut ys = self.y.to_text();
        out.append(&mut ys);
        proof {
            assert(out@ =~= self.spec_render());
        }
        out
    }

    /// Serialize-then-parse identity for a rendered lineto at `i`.
    pub proof fn lemma_render_parse(l: L, s: Seq<u8>, i: int)
        requires
            l.wf(),
            0 <= i,
            i + l.spec_render().len() <= s.len(),
            s.subrange(i, i + l.spec_render().len() as int) == l.spec_render(),
            i + l.spec_render().len() < s.len() ==> num_boundary(
                s[i + l.spec_render().len()],
            ),
        ensures
            L::spec_parse(s, i) == Some((l, spec_skip_ws(s, i + l.spec_render().len()))),
    {
        let ren = l.spec_render();
        let r = ren.len() as int;
        let pt = spec_render_point(l.x, l.y);
        lemma_render_num_chars(l.x);
        assert(forall|k: int| 0 <= k < r ==> s[i + k] == #[trigger] ren[k]) by {
            assert(forall|k: int|
                0 <= k < r ==> s.subrange(i, i + r)[k] == s[i + k] && s.subrange(i, i + r)[k]
                    == #[trigger] ren[k]);
        };
        assert(forall|k: int| 0 <= k < pt.len() ==> ren[2 + k] == #[trigger] pt[k]);
        assert(s[i] == ren[0]);
        assert(ren[1] == ' ' as u8);
        assert(s[i + 1] == ren[1]);
        assert(ren[2] == pt[0]);
        assert(s[i + 2] == ren[2]);
        assert(pt[0] == spec_render_num(l.x)[0]) by {
            assert(pt[0] == (spec_render_num(l.x) + seq![',' as u8])[0]);
        };
        assert(spec_skip_ws(s, i) == i);
        assert(spec_skip_ws(s, i + 1) == spec_skip_ws(s, i + 2));
        assert(spec_skip_ws(s, i + 2) == i + 2);
        assert(s.subrange(i + 2, i + r) =~= pt);
        lemma_render_point_at(s, i + 1, i + 2, l.x, l.y);
    }
}

impl H {
    pub open spec fn wf(self) -> bool {
        self.x.wf()
    }

    /// A horizontal lineto: the letter `H` or `h`, then one number.
    pub open spec fn spec_parse(s: Seq<u8>, i: int) -> Option<(H, int)> {
        let j = spec_skip_ws(s, i);
        if j < s.len() && (s[j] == 'H' as u8 || s[j] == 'h' as u8) {
            match spec_parse_number(s, j + 1) {
                Some((x, e)) => Some((H { x, relative: s[j] == 'h' as u8 }, e)),
                None => None,
            }
        } else {
            None
        }
    }

    /// Reads a horizontal lineto, exactly as `spec_parse` describes.
    pub fn from_str(s: &[u8], i: usize) -> (r: Result<(H, usize), ParseError>)
        requires
            i <= s@.len(),
        ensures
            r matches Ok((h, e)) ==> Self::spec_parse(s@, i as int) == Some((h, e as int))
                && h.wf() && i < e <= s@.len(),
            r is Err <==> Self::spec_parse(s@, i as int) is None,
    {
        let j = skip_ws(s, i);
        if j < s.len() && (s[j] == 'H' as u8 || s[j] == 'h' as u8) {
            let relative = s[j] == 'h' as u8;
            match parse_number(s, j + 1) {
                Ok((x, e)) => Ok((H { x, relative }, e)),
                Err(er) => Err(er),
            }
        } else {
            Err(ParseError { kind: ErrorKind::CommandLetter, pos: j })
        }
    }

    /// The letter per the recorded form, a space, then the coordinate.
    pub open spec fn spec_render(self) -> Seq<u8> {
        seq![
            if self.relative {
                'h' as u8
            } else {
                'H' as u8
            },
            ' ' as u8,
        ] + spec_render_num(self.x)
    }

    /// Renders the command, exactly as `spec_render` describes.
    pub fn to_text(&self) -> (r: Vec<u8>)
        requires
            self.wf(),
        ensures
            r@ == self.spec_render(),
    {
        let mut out: Vec<u8> = Vec::new();
        out.push(if self.relative {
            'h' as u8
        } else {
            'H' as u8
        });
        out.push(' ' as u8);
        let mut xs = self.x.to_text();
        out.append(&mut xs);
        proof {
            assert(out@ =~= self.spec_render());
        }
        out
    }

    /// Serialize-then-parse identity for a rendered horizontal lineto.
    pub proof fn lemma_render_parse(h: H, s: Seq<u8>, i: int)
        requires
            h.wf(),
            0 <= i,
            i + h.spec_render().len() <= s.len(),
            s.subrange(i, i + h.spec_render().len() as int) == h.spec_render(),
            i + h.spec_render().len() < s.len() ==> num_boundary(
                s[i + h.spec_render().len()],
            ),
        ensures
            H::spec_parse(s, i) == Some((h, spec_skip_ws(s, i + h.spec_render().len()))),
    {
        let ren = h.spec_render();
        let r = ren.len() as int;
        let rn = spec_render_num(h.x);
        lemma_render_num_chars(h.x);
        assert(forall|k: int| 0 <= k < r ==> s[i + k] == #[trigger] ren[k]) by {
            assert(forall|k: int|
                0 <= k < r ==> s.subrange(i, i + r)[k] == s[i + k] && s.subrange(i, i + r)[k]
                    == #[trigger] ren[k]);
        };
        assert(forall|k: int| 0 <= k < rn.len() ==> ren[2 + k] == #[trigger] rn[k]);
        assert(s[i] == ren[0]);
        assert(ren[1] == ' ' as u8);
        assert(s[i + 1] == ren[1]);
        assert(ren[2] == rn[0]);
        assert(s[i + 2] == ren[2]);
        assert(spec_skip_ws(s, i) == i);
        assert(spec_skip_ws(s, i + 1) == spec_skip_ws(s, i + 2));
        assert(spec_skip_ws(s, i + 2) == i + 2);
        assert(s.subrange(i + 2, i + r) =~= rn);
        lemma_render_number_at(s, i + 1, i + 2, h.x);
    }
}

impl V {
    pub open spec fn wf(self) -> bool {
        self.y.wf()
    }

    /// A vertical lineto: the letter `V` or `v`, then one number.
    pub open spec fn spec_parse(s: Seq<u8>, i: int) -> Option<(V, int)> {
        let j = spec_skip_ws(s, i);
        if j < s.len() && (s[j] == 'V' as u8 || s[j] == 'v' as u8) {
            match spec_parse_number(s, j + 1) {
                Some((y, e)) => Some((V { y, relative: s[j] == 'v' as u8 }, e)),
                None => None,
            }
        } else {
            None
        }
    }

    /// Reads a vertical lineto, exactly as `spec_parse` describes.
    pub fn from_str(s: &[u8], i: usize) -> (r: Result<(V, usize), ParseError>)
        requires
            i <= s@.len(),
        ensures
            r matches Ok((v, e)) ==> Self::spec_parse(s@, i as int) == Some((v, e as int))
                && v.wf() && i < e <= s@.len(),
            r is Err <==> Self::spec_parse(s@, i as int) is None,
    {
        let j = skip_ws(s, i);
        if j < s.len() && (s[j] == 'V' as u8 || s[j] == 'v' as u8) {
            let relative = s[j] == 'v' as u8;
            match parse_number(s, j + 1) {
                Ok((y, e)) => Ok((V { y, relative }, e)),
                Err(er) => Err(er),
            }
        } else {
            Err(ParseError { kind: ErrorKind::CommandLetter, pos: j })
        }
    }

    /// The letter per the recorded form, a space, then the coordinate.
    pub open spec fn spec_render(self) -> Seq<u8> {
        seq![
            if self.relative {
                'v' as u8
            } else {
                'V' as u8
            },
            ' ' as u8,
        ] + spec_render_num(self.y)
    }

    /// Renders the command, exactly as `spec_render` describes.
    pub fn to_text(&self) -> (r: Vec<u8>)
        requires
            self.wf(),
        ensures
            r@ == self.spec_render(),
    {
        let mut out: Vec<u8> = Vec::new();
        out.push(if self.relative {
            'v' as u8
        } else {
            'V' as u8
        });
        out.push(' ' as u8);
        let mut ys = self.y.to_text();
        out.append(&mut ys);
        proof {
            assert(out@ =~= self.spec_render());
        }
        out
    }

    /// Serialize-then-parse identity for a rendered vertical lineto.
    pub proof fn lemma_render_parse(v: V, s: Seq<u8>, i: int)
        requires
            v.wf(),
            0 <= i,
            i + v.spec_render().len() <= s.len(),
            s.subrange(i, i + v.spec_render().len() as int) == v.spec_render(),
            i + v.spec_render().len() < s.len() ==> num_boundary(
                s[i + v.spec_render().len()],
            ),
        ensures
            V::spec_parse(s, i) == Some((v, spec_skip_ws(s, i + v.spec_render().len()))),
    {
        let ren = v.spec_render();
        let r = ren.len() as int;
        let rn = spec_render_num(v.y);
        lemma_render_num_chars(v.y);
        assert(forall|k: int| 0 <= k < r ==> s[i + k] == #[trigger] ren[k]) by {
            assert(forall|k: int|
                0 <= k < r ==> s.subrange(i, i + r)[k] == s[i + k] && s.subrange(i, i + r)[k]
                    == #[trigger] ren[k]);
        };
        assert(forall|k: int| 0 <= k < rn.len() ==> ren[2 + k] == #[trigger] rn[k]);
        assert(s[i] == ren[0]);
        assert(ren[1] == ' ' as u8);
        assert(s[i + 1] == ren[1]);
        assert(ren[2] == rn[0]);
        assert(s[i + 2] == ren[2]);
        assert(spec_skip_ws(s, i) == i);
        assert(spec_skip_ws(s, i + 1) == spec_skip_ws(s, i + 2));
        assert(spec_skip_ws(s, i + 2) == i + 2);
        assert(s.subrange(i + 2, i + r) =~= rn);
        lemma_render_number_at(s, i + 1, i + 2, v.y);
    }
}

impl LineTo {
    pub open spec fn wf(self) -> bool {
        match self {
            LineTo::L(l) => l.wf(),
            LineTo::H(h) => h.wf(),
            LineTo::V(v) => v.wf(),
        }
    }

    /// One of the three lineto letters, decided by the letter itself.
    pub open spec fn spec_parse(s: Seq<u8>, i: int) -> Option<(LineTo, int)> {
        let j = spec_skip_ws(s, i);
        if j < s.len() && (s[j] == 'L' as u8 || s[j] == 'l' as u8) {
            match L::spec_parse(s, i) {
                Some((l, e)) => Some((LineTo::L(l), e)),
                None => None,
            }
        } else if j < s.len() && (s[j] == 'H' as u8 || s[j] == 'h' as u8) {
            match H::spec_parse(s, i) {
                Some((h, e)) => Some((LineTo::H(h), e)),
                None => None,
            }
        } else if j < s.len() && (s[j] == 'V' as u8 || s[j] == 'v' as u8) {
            match V::spec_parse(s, i) {
                Some((v, e)) => Some((LineTo::V(v), e)),
                None => None,
            }
        } else {
            None
        }
    }

    /// Reads a lineto-family command, exactly as `spec_parse` describes.
    pub fn from_str(s: &[u8], i: usize) -> (r: Result<(LineTo, usize), ParseError>)
        requires
            i <= s@.len(),
        ensures
            r matches Ok((lt, e)) ==> Self::spec_parse(s@, i as int) == Some((lt, e as int))
                && lt.wf() && i < e <= s@.len(),
            r is Err <==> Self::spec_parse(s@, i as int) is None,
    {
        let j = skip_ws(s, i);
        if j < s.len() && (s[j] == 'L' as u8 || s[j] == 'l' as u8) {
            match L::from_str(s, i) {
                Ok((l, e)) => Ok((LineTo::L(l), e)),
                Err(er) => Err(er),
            }
        } else if j < s.len() && (s[j] == 'H' as u8 || s[j] == 'h' as u8) {
            match H::from_str(s, i) {
                Ok((h, e)) => Ok((LineTo::H(h), e)),
                Err(er) => Err(er),
            }
        } else if j < s.len() && (s[j] == 'V' as u8 || s[j] == 'v' as u8) {
            match V::from_str(s, i) {
                Ok((v, e)) => Ok((LineTo::V(v), e)),
                Err(er) => Err(er),
            }
        } else {
            Err(ParseError { kind: ErrorKind::CommandLetter, pos: j })
        }
    }

    /// The rendering of whichever member the value holds.
    pub open spec fn spec_render(self) -> Seq<u8> {
        match self {
            LineTo::L(l) => l.spec_render(),
            LineTo::H(h) => h.spec_render(),
            LineTo::V(v) => v.spec_render(),
        }
    }

    /// Renders the command, exactly as `spec_render` describes.
    pub fn to_text(&self) -> (r: Vec<u8>)
        requires
            self.wf(),
        ensures
            r@ == self.spec_render(),
    {
        match self {
            LineTo::L(l) => l.to_text(),
            LineTo::H(h) => h.to_text(),
            LineTo::V(v) => v.to_text(),
        }
    }

    /// Serialize-then-parse identity for a rendered lineto-family command.
    pub proof fn lemma_render_parse(lt: LineTo, s: Seq<u8>, i: int)
        requires
            lt.wf(),
            0 <= i,
            i + lt.spec_render().len() <= s.len(),
            s.subrange(i, i + lt.spec_render().len() as int) == lt.spec_render(),
            i + lt.spec_render().len() < s.len() ==> num_boundary(
                s[i + lt.spec_render().len()],
            ),
        ensures
            LineTo::spec_parse(s, i) == Some(
                (lt, spec_skip_ws(s, i + lt.spec_render().len())),
            ),
    {
        let ren = lt.spec_render();
        assert(s[i] == ren[0]) by {
            assert(s.subrange(i, i + ren.len() as int)[0] == s[i]);
        };
        assert(spec_skip_ws(s, i) == i);
        match lt {
            LineTo::L(l) => {
                L::lemma_render_parse(l, s, i);
            },
            LineTo::H(h) => {
                H::lemma_render_parse(h, s, i);
            },
            LineTo::V(v) => {
                V::lemma_render_parse(v, s, i);
            },
        }
    }
}

} // verus!
