//! The cubic Bézier family: a full curveto with two control points (`C`) or
//! a smooth curveto whose first control point is implicit (`S`).

use vstd::prelude::*;

use crate::num::{lemma_render_num_chars, num_boundary, spec_render_num, Num};
use crate::parser::{
    lemma_render_point_at, point, push_point, skip_ws, spec_parse_point,
    spec_render_point, spec_skip_ws, ErrorKind, ParseError,
};

verus! {

/// Full curveto: two control points and the end point.
#[derive(Debug, Clone, Copy, PartialEq, Eq, Structural)]
pub struct C {
    pub x1: Num,
    pub y1: Num,
    pub x2: Num,
    pub y2: Num,
    pub x: Num,
    pub y: Num,
    pub relative: bool,
}

/// Smooth curveto: the second control point and the end point; the first
/// control point is the reflection of the previous one.
#[derive(Debug, Clone, Copy, PartialEq, Eq, Structural)]
pub struct S {
    pub x2: Num,
    pub y2: Num,
    pub x: Num,
    pub y: Num,
    pub relative: bool,
}

/// The cubic Bézier command family, tagged by which letter matched.
#[derive(Debug, Clone, Copy, PartialEq, Eq, Structural)]
pub enum CubicBezier {
    C(C),
    S(S),
}

impl C {
    pub open spec fn wf(self) -> bool {
        self.x1.wf() && self.y1.wf() && self.x2.wf() && self.y2.wf() && self.x.wf()
            && self.y.wf()
    }

    /// A full curveto: the letter `C` or `c`, then three points.
    pub open spec fn spec_parse(s: Seq<u8>, i: int) -> Option<(C, int)> {
        let j = spec_skip_ws(s, i);
        if j < s.len() && (s[j] == 'C' as u8 || s[j] == 'c' as u8) {
            match spec_parse_point(s, j + 1) {
                Some(((x1, y1), e1)) => match spec_parse_point(s, e1) {
                    Some(((x2, y2), e2)) => match spec_parse_point(s, e2) {
                        Some(((x, y), e3)) => Some(
                            (C { x1, y1, x2, y2, x, y, relative: s[j] == 'c' as u8 }, e3),
                        ),
                        None => None,
                    },
                    None => None,
                },
                None => None,
            }
        } else {
            None
        }
    }

    /// Reads a full curveto, exactly as `spec_parse` describes.
    pub fn from_str(s: &[u8], i: usize) -> (r: Result<(C, usize), ParseError>)
        requires
            i <= s@.len(),
        ensures
            r matches Ok((c, e)) ==> Self::spec_parse(s@, i as int) == Some((c, e as int))
                && c.wf() && i < e <= s@.len(),
            r is Err <==> Self::spec_parse(s@, i as int) is None,
    {
        let j = skip_ws(s, i);
        if j < s.len() && (s[j] == 'C' as u8 || s[j] == 'c' as u8) {
            let relative = s[j] == 'c' as u8;
            let ((x1, y1), e1) = match point(s, j + 1) {
                Ok(v) => v,
                Err(er) => {
                    return Err(er);
                },
            };
            let ((x2, y2), e2) = match point(s, e1) {
                Ok(v) => v,
                Err(er) => {
                    return Err(er);
                },
            };
            let ((x, y), e3) = match point(s, e2) {
                Ok(v) => v,
                Err(er) => {
                    return Err(er);
                },
            };
            Ok((C { x1, y1, x2, y2, x, y, relative }, e3))
        } else {
            Err(ParseError { kind: ErrorKind::CommandLetter, pos: j })
        }
    }

    /// The letter, then the three points, space-separated.
    pub open spec fn spec_render(self) -> Seq<u8> {
        seq![
            if self.relative {
                'c' as u8
            } else {
                'C' as u8
            },
            ' ' as u8,
        ] + spec_render_point(self.x1, self.y1) + seq![' ' as u8] + spec_render_point(
            self.x2,
            self.y2,
        ) + seq![' ' as u8] + spec_render_point(self.x, self.y)
    }

    /// Renders the command, exactly as `spec_render` describes.
    pub fn to_text(&self) -> (r: Vec<u8>)
        requires
            self.wf(),
        ensures
            r@ == self.spec_render(),
    {
        let mut out: Vec<u8> = Vec::new();
        out.push(if self.relative {
            'c' as u8
        } else {
            'C' as u8
        });
        out.push(' ' as u8);
        push_point(&mut out, &self.x1, &self.y1);
        out.push(' ' as u8);
        push_point(&mut out, &self.x2, &self.y2);
        out.push(' ' as u8);
        push_point(&mut out, &self.x, &self.y);
        proof {
            assert(out@ =~= self.spec_render());
        }
        out
    }

    /// Where the rendered curveto sits in `s`: the letter, the separators
    /// and the three point texts, each at its fixed offset.
    #[verifier::rlimit(100)]
    #[verifier::spinoff_prover]
    proof fn lemma_layout(c: C, s: Seq<u8>, i: int)
        requires
            0 <= i,
            i + c.spec_render().len() <= s.len(),
            s.subrange(i, i + c.spec_render().len() as int) == c.spec_render(),
        ensures
            ({
                let pt1 = spec_render_point(c.x1, c.y1);
                let pt2 = spec_render_point(c.x2, c.y2);
                let pt3 = spec_render_point(c.x, c.y);
                let q1 = i + 2 + pt1.len() as int;
                let q2 = q1 + 1 + pt2.len() as int;
                &&& c.spec_render().len() == 2 + pt1.len() + 1 + pt2.len() + 1 + pt3.len()
                &&& s[i] == (if c.relative {
                    'c' as u8
                } else {
                    'C' as u8
                })
                &&& s[i + 1] == ' ' as u8
                &&& s.subrange(i + 2, q1) == pt1
                &&& s[q1] == ' ' as u8
                &&& s.subrange(q1 + 1, q2) == pt2
                &&& s[q2] == ' ' as u8
                &&& s.subrange(q2 + 1, i + c.spec_render().len() as int) == pt3
            }),
    {
        let ren = c.spec_render();
        let r = ren.len() as int;
        let pt1 = spec_render_point(c.x1, c.y1);
        let pt2 = spec_render_point(c.x2, c.y2);
        let pt3 = spec_render_point(c.x, c.y);
        let l1 = pt1.len() as int;
        let l2 = pt2.len() as int;
        let l3 = pt3.len() as int;
        let h2: Seq<u8> = seq![
            if c.relative {
                'c' as u8
            } else {
                'C' as u8
            },
            ' ' as u8,
        ];
        let u1 = h2 + pt1;
        let u2 = u1 + seq![' ' as u8];
        let u3 = u2 + pt2;
        let u4 = u3 + seq![' ' as u8];
        assert(ren == u4 + pt3);
        assert(forall|k: int| 0 <= k < r ==> s[i + k] == #[trigger] ren[k]) by {
            assert(forall|k: int|
                0 <= k < r ==> s.subrange(i, i + r)[k] == s[i + k] && s.subrange(i, i + r)[k]
                    == #[trigger] ren[k]);
        };
        assert(ren[0] == h2[0] && ren[1] == ' ' as u8) by {
            assert(u1[0] == h2[0] && u1[1] == h2[1]);
            assert(u2[0] == u1[0] && u2[1] == u1[1]);
            assert(u3[0] == u2[0] && u3[1] == u2[1]);
            assert(u4[0] == u3[0] && u4[1] == u3[1]);
            assert(ren[0] == u4[0] && ren[1] == u4[1]);
        };
        assert(forall|k: int| 0 <= k < l1 ==> ren[2 + k] == #[trigger] pt1[k]) by {
            assert(forall|k: int| 0 <= k < l1 ==> u1[2 + k] == #[trigger] pt1[k]);
            assert(forall|k: int| 0 <= k < l1 ==> #[trigger] u2[2 + k] == u1[2 + k]);
            assert(forall|k: int| 0 <= k < l1 ==> #[trigger] u3[2 + k] == u2[2 + k]);
            assert(forall|k: int| 0 <= k < l1 ==> #[trigger] u4[2 + k] == u3[2 + k]);
            assert(forall|k: int| 0 <= k < l1 ==> #[trigger] ren[2 + k] == u4[2 + k]);
        };
        assert(ren[2 + l1] == ' ' as u8) by {
            assert(u2[2 + l1] == ' ' as u8);
            assert(u3[2 + l1] == u2[2 + l1]);
            assert(u4[2 + l1] == u3[2 + l1]);
            assert(ren[2 + l1] == u4[2 + l1]);
        };
        let b2 = 2 + l1 + 1;
        assert(forall|k: int| 0 <= k < l2 ==> ren[b2 + k] == #[trigger] pt2[k]) by {
            assert(forall|k: int| 0 <= k < l2 ==> u3[b2 + k] == #[trigger] pt2[k]);
            assert(forall|k: int| 0 <= k < l2 ==> #[trigger] u4[b2 + k] == u3[b2 + k]);
            assert(forall|k: int| 0 <= k < l2 ==> #[trigger] ren[b2 + k] == u4[b2 + k]);
        };
        assert(ren[b2 + l2] == ' ' as u8) by {
            assert(u4[b2 + l2] == ' ' as u8);
            assert(ren[b2 + l2] == u4[b2 + l2]);
        };
        let b3 = b2 + l2 + 1;
        assert(forall|k: int| 0 <= k < l3 ==> ren[b3 + k] == #[trigger] pt3[k]);
        let q1 = i + 2 + l1;
        let q2 = q1 + 1 + l2;
        assert(s.subrange(i + 2, q1) =~= pt1);
        assert(s.subrange(q1 + 1, q2) =~= pt2);
        assert(s.subrange(q2 + 1, i + r) =~= pt3);
        assert(s[i] == ren[0]);
        assert(s[i + 1] == ren[1]);
        assert(s[q1] == ren[2 + l1]);
        assert(s[q2] == ren[b2 + l2]);
    }

    /// Serialize-then-parse identity for a rendered full curveto.
    #[verifier::rlimit(100)]
    #[verifier::spinoff_prover]
    pub proof fn lemma_render_parse(c: C, s: Seq<u8>, i: int)
        requires
            c.wf(),
            0 <= i,
            i + c.spec_render().len() <= s.len(),
            s.subrange(i, i + c.spec_render().len() as int) == c.spec_render(),
            i + c.spec_render().len() < s.len() ==> num_boundary(
                s[i + c.spec_render().len()],
            ),
        ensures
            C::spec_parse(s, i) == Some((c, spec_skip_ws(s, i + c.spec_render().len()))),
    {
        Self::lemma_layout(c, s, i);
        let r = c.spec_render().len() as int;
        let pt1 = spec_render_point(c.x1, c.y1);
        let pt2 = spec_render_point(c.x2, c.y2);
        let pt3 = spec_render_point(c.x, c.y);
        let l1 = pt1.len() as int;
        let l2 = pt2.len() as int;
        let q1 = i + 2 + l1;
        let q2 = q1 + 1 + l2;
        lemma_render_num_chars(c.x1);
        lemma_render_num_chars(c.x2);
        lemma_render_num_chars(c.x);
        assert(spec_skip_ws(s, i) == i);
        assert(s[i + 2] == pt1[0]) by {
            assert(s.subrange(i + 2, q1)[0] == s[i + 2]);
        };
        assert(pt1[0] == spec_render_num(c.x1)[0]) by {
            assert(pt1[0] == (spec_render_num(c.x1) + seq![',' as u8])[0]);
        };
        assert(spec_skip_ws(s, i + 1) == spec_skip_ws(s, i + 2));
        assert(spec_skip_ws(s, i + 2) == i + 2);
        lemma_render_point_at(s, i + 1, i + 2, c.x1, c.y1);
        assert(s[q1 + 1] == pt2[0]) by {
            assert(s.subrange(q1 + 1, q2)[0] == s[q1 + 1]);
        };
        assert(pt2[0] == spec_render_num(c.x2)[0]) by {
            assert(pt2[0] == (spec_render_num(c.x2) + seq![',' as u8])[0]);
        };
        assert(spec_skip_ws(s, q1) == spec_skip_ws(s, q1 + 1));
        assert(spec_skip_ws(s, q1 + 1) == q1 + 1);
        lemma_render_point_at(s, q1 + 1, q1 + 1, c.x2, c.y2);
        assert(s[q2 + 1] == pt3[0]) by {
            assert(s.subrange(q2 + 1, i + r)[0] == s[q2 + 1]);
        };
        assert(pt3[0] == spec_render_num(c.x)[0]) by {
            assert(pt3[0] == (spec_render_num(c.x) + seq![',' as u8])[0]);
        };
        assert(spec_skip_ws(s, q2) == spec_skip_ws(s, q2 + 1));
        assert(spec_skip_ws(s, q2 + 1) == q2 + 1);
        lemma_render_point_at(s, q2 + 1, q2 + 1, c.x, c.y);
    }
}

impl S {
    pub open spec fn wf(self) -> bool {
        self.x2.wf() && self.y2.wf() && self.x.wf() && self.y.wf()
    }

    /// A smooth curveto: the letter `S` or `s`, then two points.
    pub open spec fn spec_parse(s: Seq<u8>, i: int) -> Option<(S, int)> {
        let j = spec_skip_ws(s, i);
        if j < s.len() && (s[j] == 'S' as u8 || s[j] == 's' as u8) {
            match spec_parse_point(s, j + 1) {
                Some(((x2, y2), e1)) => match spec_parse_point(s, e1) {
                    Some(((x, y), e2)) => Some(
                        (S { x2, y2, x, y, relative: s[j] == 's' as u8 }, e2),
                    ),
                    None => None,
                },
                None => None,
            }
        } else {
            None
        }
    }

    /// Reads a smooth curveto, exactly as `spec_parse` describes.
    pub fn from_str(s: &[u8], i: usize) -> (r: Result<(S, usize), ParseError>)
        requires
            i <= s@.len(),
        ensures
            r matches Ok((sc, e)) ==> Self::spec_parse(s@, i as int) == Some((sc, e as int))
                && sc.wf() && i < e <= s@.len(),
            r is Err <==> Self::spec_parse(s@, i as int) is None,
    {
        let j = skip_ws(s, i);
        if j < s.len() && (s[j] == 'S' as u8 || s[j] == 's' as u8) {
            let relative = s[j] == 's' as u8;
            let ((x2, y2), e1) = match point(s, j + 1) {
                Ok(v) => v,
                Err(er) => {
                    return Err(er);
                },
            };
            let ((x, y), e2) = match point(s, e1) {
                Ok(v) => v,
                Err(er) => {
                    return Err(er);
                },
            };
            Ok((S { x2, y2, x, y, relative }, e2))
        } else {
            Err(ParseError { kind: ErrorKind::CommandLetter, pos: j })
        }
    }

    /// The letter, then the two points, space-separated.
    pub open spec fn spec_render(self) -> Seq<u8> {
        seq![
            if self.relative {
                's' as u8
            } else {
                'S' as u8
            },
            ' ' as u8,
        ] + spec_render_point(self.x2, self.y2) + seq![' ' as u8] + spec_render_point(
            self.x,
            self.y,
        )
    }

    /// Renders the command, exactly as `spec_render` describes.
    pub fn to_text(&self) -> (r: Vec<u8>)
        requires
            self.wf(),
        ensures
            r@ == self.spec_render(),
    {
        let mut out: Vec<u8> = Vec::new();
        out.push(if self.relative {
            's' as u8
        } else {
            'S' as u8
        });
        out.push(' ' as u8);
        let mut t = self.x2.to_text();
        out.append(&mut t);
        out.push(',' as u8);
        let mut t = self.y2.to_text();
        out.append(&mut t);
        out.push(' ' as u8);
        let mut t = self.x.to_text();
        out.append(&mut t);
        out.push(',' as u8);
        let mut t = self.y.to_text();
        out.append(&mut t);
        proof {
            assert(out@ =~= self.spec_render());
        }
        out
    }

    /// Serialize-then-parse identity for a rendered smooth curveto.
    #[verifier::rlimit(100)]
    #[verifier::spinoff_prover]
    pub proof fn lemma_render_parse(sc: S, s: Seq<u8>, i: int)
        requires
            sc.wf(),
            0 <= i,
            i + sc.spec_render().len() <= s.len(),
            s.subrange(i, i + sc.spec_render().len() as int) == sc.spec_render(),
            i + sc.spec_render().len() < s.len() ==> num_boundary(
                s[i + sc.spec_render().len()],
            ),
        ensures
            S::spec_parse(s, i) == Some((sc, spec_skip_ws(s, i + sc.spec_render().len()))),
    {
        let ren = sc.spec_render();
        let r = ren.len() as int;
        let pt1 = spec_render_point(sc.x2, sc.y2);
        let pt2 = spec_render_point(sc.x, sc.y);
        let l1 = pt1.len() as int;
        let l2 = pt2.len() as int;
        lemma_render_num_chars(sc.x2);
        lemma_render_num_chars(sc.x);
        let h2: Seq<u8> = seq![
            if sc.relative {
                's' as u8
            } else {
                'S' as u8
            },
            ' ' as u8,
        ];
        let u1 = h2 + pt1;
        let u2 = u1 + seq![' ' as u8];
        assert(ren == u2 + pt2);
        assert(forall|k: int| 0 <= k < r ==> s[i + k] == #[trigger] ren[k]) by {
            assert(forall|k: int|
                0 <= k < r ==> s.subrange(i, i + r)[k] == s[i + k] && s.subrange(i, i + r)[k]
                    == #[trigger] ren[k]);
        };
        assert(ren[0] == h2[0] && ren[1] == ' ' as u8) by {
            assert(u1[0] == h2[0] && u1[1] == h2[1]);
            assert(u2[0] == u1[0] && u2[1] == u1[1]);
            assert(ren[0] == u2[0] && ren[1] == u2[1]);
        };
        assert(forall|k: int| 0 <= k < l1 ==> ren[2 + k] == #[trigger] pt1[k]) by {
            assert(forall|k: int| 0 <= k < l1 ==> u1[2 + k] == #[trigger] pt1[k]);
            assert(forall|k: int| 0 <= k < l1 ==> #[trigger] u2[2 + k] == u1[2 + k]);
            assert(forall|k: int| 0 <= k < l1 ==> #[trigger] ren[2 + k] == u2[2 + k]);
        };
        assert(ren[2 + l1] == ' ' as u8) by {
            assert(u2[2 + l1] == ' ' as u8);
            assert(ren[2 + l1] == u2[2 + l1]);
        };
        let b2 = 2 + l1 + 1;
        assert(forall|k: int| 0 <= k < l2 ==> ren[b2 + k] == #[trigger] pt2[k]);
        assert(s[i] == ren[0]);
        assert(s[i + 1] == ren[1]);
        assert(spec_skip_ws(s, i) == i);
        assert(pt1[0] == spec_render_num(sc.x2)[0]) by {
            assert(pt1[0] == (spec_render_num(sc.x2) + seq![',' as u8])[0]);
        };
        assert(ren[2] == pt1[0]);
        assert(s[i + 2] == ren[2]);
        assert(spec_skip_ws(s, i + 1) == spec_skip_ws(s, i + 2));
        assert(spec_skip_ws(s, i + 2) == i + 2);
        assert(s.subrange(i + 2, i + 2 + l1) =~= pt1);
        let q1 = i + 2 + l1;
        assert(s[q1] == ren[2 + l1]);
        lemma_render_point_at(s, i + 1, i + 2, sc.x2, sc.y2);
        assert(pt2[0] == spec_render_num(sc.x)[0]) by {
            assert(pt2[0] == (spec_render_num(sc.x) + seq![',' as u8])[0]);
        };
        assert(ren[b2] == pt2[0]);
        assert(s[q1 + 1] == ren[b2]);
        assert(spec_skip_ws(s, q1) == spec_skip_ws(s, q1 + 1));
        assert(spec_skip_ws(s, q1 + 1) == q1 + 1);
        assert(s.subrange(q1 + 1, i + r) =~= pt2);
        lemma_render_point_at(s, q1 + 1, q1 + 1, sc.x, sc.y);
    }
}

impl CubicBezier {
    pub open spec fn wf(self) -> bool {
        match self {
            CubicBezier::C(c) => c.wf(),
            CubicBezier::S(sc) => sc.wf(),
        }
    }

    /// One of the two cubic letters, decided by the letter itself.
    pub open spec fn spec_parse(s: Seq<u8>, i: int) -> Option<(CubicBezier, int)> {
        let j = spec_skip_ws(s, i);
        if j < s.len() && (s[j] == 'C' as u8 || s[j] == 'c' as u8) {
            match C::spec_parse(s, i) {
                Some((c, e)) => Some((CubicBezier::C(c), e)),
                None => None,
            }
        } else if j < s.len() && (s[j] == 'S' as u8 || s[j] == 's' as u8) {
            match S::spec_parse(s, i) {
                Some((sc, e)) => Some((CubicBezier::S(sc), e)),
                None => None,
            }
        } else {
            None
        }
    }

    /// Reads a cubic Bézier command, exactly as `spec_parse` describes.
    pub fn from_str(s: &[u8], i: usize) -> (r: Result<(CubicBezier, usize), ParseError>)
        requires
            i <= s@.len(),
        ensures
            r matches Ok((cb, e)) ==> Self::spec_parse(s@, i as int) == Some((cb, e as int))
                && cb.wf() && i < e <= s@.len(),
            r is Err <==> Self::spec_parse(s@, i as int) is None,
    {
        let j = skip_ws(s, i);
        if j < s.len() && (s[j] == 'C' as u8 || s[j] == 'c' as u8) {
            match C::from_str(s, i) {
                Ok((c, e)) => Ok((CubicBezier::C(c), e)),
                Err(er) => Err(er),
            }
        } else if j < s.len() && (s[j] == 'S' as u8 || s[j] == 's' as u8) {
            match S::from_str(s, i) {
                Ok((sc, e)) => Ok((CubicBezier::S(sc), e)),
                Err(er) => Err(er),
            }
        } else {
            Err(ParseError { kind: ErrorKind::CommandLetter, pos: j })
        }
    }

    /// The rendering of whichever member the value holds.
    pub open spec fn spec_render(self) -> Seq<u8> {
        match self {
            CubicBezier::C(c) => c.spec_render(),
            CubicBezier::S(sc) => sc.spec_render(),
        }
    }

    /// Renders the command, exactly as `spec_render` describes.
    pub fn to_text(&self) -> (r: Vec<u8>)
        requires
            self.wf(),
        ensures
            r@ == self.spec_render(),
    {
        match self {
            CubicBezier::C(c) => c.to_text(),
            CubicBezier::S(sc) => sc.to_text(),
        }
    }

    /// Serialize-then-parse identity for a rendered cubic command.
    pub proof fn lemma_render_parse(cb: CubicBezier, s: Seq<u8>, i: int)
        requires
            cb.wf(),
            0 <= i,
            i + cb.spec_render().len() <= s.len(),
            s.subrange(i, i + cb.spec_render().len() as int) == cb.spec_render(),
            i + cb.spec_render().len() < s.len() ==> num_boundary(
                s[i + cb.spec_render().len()],
            ),
        ensures
            CubicBezier::spec_parse(s, i) == Some(
                (cb, spec_skip_ws(s, i + cb.spec_render().len())),
            ),
    {
        let ren = cb.spec_render();
        assert(s[i] == ren[0]) by {
            assert(s.subrange(i, i + ren.len() as int)[0] == s[i]);
        };
        assert(spec_skip_ws(s, i) == i);
        match cb {
            CubicBezier::C(c) => {
                C::lemma_render_parse(c, s, i);
            },
            CubicBezier::S(sc) => {
                S::lemma_render_parse(sc, s, i);
            },
        }
    }
}

} // verus!
