//! The quadratic Bézier family: a full curve with its control point (`Q`)
//! or a smooth curve whose control point is implicit (`T`).

use vstd::prelude::*;

use crate::num::{lemma_render_num_chars, num_boundary, spec_render_num, Num};
use crate::parser::{
    lemma_render_point_at, point, push_point, skip_ws, spec_parse_point,
    spec_render_point, spec_skip_ws, ErrorKind, ParseError,
};

verus! {

/// Full quadratic curve: the control point and the end point.
#[derive(Debug, Clone, Copy, PartialEq, Eq, Structural)]
pub struct Q {
    pub x1: Num,
    pub y1: Num,
    pub x: Num,
    pub y: Num,
    pub relative: bool,
}

/// Smooth quadratic curve: the end point alone; the control point is the
/// reflection of the previous one.
#[derive(Debug, Clone, Copy, PartialEq, Eq, Structural)]
pub struct T {
    pub x: Num,
    pub y: Num,
    pub relative: bool,
}

/// The quadratic Bézier command family, tagged by which letter matched.
#[derive(Debug, Clone, Copy, PartialEq, Eq, Structural)]
pub enum QuadraticBezier {
    Q(Q),
    T(T),
}

impl Q {
    pub open spec fn wf(self) -> bool {
        self.x1.wf() && self.y1.wf() && self.x.wf() && self.y.wf()
    }

    /// A full quadratic curve: the letter `Q` or `q`, then two points.
    pub open spec fn spec_parse(s: Seq<u8>, i: int) -> Option<(Q, int)> {
        let j = spec_skip_ws(s, i);
        if j < s.len() && (s[j] == 'Q' as u8 || s[j] == 'q' as u8) {
            match spec_parse_point(s, j + 1) {
                Some(((x1, y1), e1)) => match spec_parse_point(s, e1) {
                    Some(((x, y), e2)) => Some(
                        (Q { x1, y1, x, y, relative: s[j] == 'q' as u8 }, e2),
                    ),
                    None => None,
                },
                None => None,
            }
        } else {
            None
        }
    }

    /// Reads a full quadratic curve, exactly as `spec_parse` describes.
    pub fn from_str(s: &[u8], i: usize) -> (r: Result<(Q, usize), ParseError>)
        requires
            i <= s@.len(),
        ensures
            r matches Ok((q, e)) ==> Self::spec_parse(s@, i as int) == Some((q, e as int))
                && q.wf() && i < e <= s@.len(),
            r is Err <==> Self::spec_parse(s@, i as int) is None,
    {
        let j = skip_ws(s, i);
        if j < s.len() && (s[j] == 'Q' as u8 || s[j] == 'q' as u8) {
            let relative = s[j] == 'q' as u8;
            let ((x1, y1), e1) = match point(s, j + 1) {
                Ok(v) => v,
                Err(er) => {
                    return Err(er);
                },
            };
            let ((x, y), e2) = match point(s, e1) {
                Ok(v) => v,
                Err(er) => {
                    return Err(er);
                },
            };
            Ok((Q { x1, y1, x, y, relative }, e2))
        } else {
            Err(ParseError { kind: ErrorKind::CommandLetter, pos: j })
        }
    }

    /// The letter, then the two points, space-separated.
    pub open spec fn spec_render(self) -> Seq<u8> {
        seq![
            if self.relative {
                'q' as u8
            } else {
                'Q' as u8
            },
            ' ' as u8,
        ] + spec_render_point(self.x1, self.y1) + seq![' ' as u8] + spec_render_point(
            self.x,
            self.y,
        )
    }

    /// Renders the command, exactly as `spec_render` describes.
    pub fn to_text(&self) -> (r: Vec<u8>)
        requires
            self.wf(),
        ensures
            r@ == self.spec_render(),
    {
        let mut out: Vec<u8> = Vec::new();
        out.push(if self.relative {
            'q' as u8
        } else {
            'Q' as u8
        });
        out.push(' ' as u8);
        push_point(&mut out, &self.x1, &self.y1);
        out.push(' ' as u8);
        push_point(&mut out, &self.x, &self.y);
        proof {
            assert(out@ =~= self.spec_render());
        }
        out
    }

    /// Serialize-then-parse identity for a rendered full quadratic curve.
    #[verifier::rlimit(100)]
    #[verifier::spinoff_prover]
    pub proof fn lemma_render_parse(q: Q, s: Seq<u8>, i: int)
        requires
            q.wf(),
            0 <= i,
            i + q.spec_render().len() <= s.len(),
            s.subrange(i, i + q.spec_render().len() as int) == q.spec_render(),
            i + q.spec_render().len() < s.len() ==> num_boundary(
                s[i + q.spec_render().len()],
            ),
        ensures
            Q::spec_parse(s, i) == Some((q, spec_skip_ws(s, i + q.spec_render().len()))),
    {
        let ren = q.spec_render();
        let r = ren.len() as int;
        let pt1 = spec_render_point(q.x1, q.y1);
        let pt2 = spec_render_point(q.x, q.y);
        let l1 = pt1.len() as int;
        let l2 = pt2.len() as int;
        lemma_render_num_chars(q.x1);
        lemma_render_num_chars(q.x);
        let h2: Seq<u8> = seq![
            if q.relative {
                'q' as u8
            } else {
                'Q' as u8
            },
            ' ' as u8,
        ];
        let u1 = h2 + pt1;
        let u2 = u1 + seq![' ' as u8];
        assert(ren == u2 + pt2);
        assert(forall|k: int| 0 <= k < r ==> s[i + k] == #[trigger] ren[k]) by {
            assert(forall|k: int|
                0 <= k < r ==> s.subrange(i, i + r)[k] == s[i + k] && s.subrange(i, i + r)[k]
                    == #[trigger] ren[k]);
        };
        assert(ren[0] == h2[0] && ren[1] == ' ' as u8) by {
            assert(u1[0] == h2[0] && u1[1] == h2[1]);
            assert(u2[0] == u1[0] && u2[1] == u1[1]);
            assert(ren[0] == u2[0] && ren[1] == u2[1]);
        };
        assert(forall|k: int| 0 <= k < l1 ==> ren[2 + k] == #[trigger] pt1[k]) by {
            assert(forall|k: int| 0 <= k < l1 ==> u1[2 + k] == #[trigger] pt1[k]);
            assert(forall|k: int| 0 <= k < l1 ==> #[trigger] u2[2 + k] == u1[2 + k]);
            assert(forall|k: int| 0 <= k < l1 ==> #[trigger] ren[2 + k] == u2[2 + k]);
        };
        assert(ren[2 + l1] == ' ' as u8) by {
            assert(u2[2 + l1] == ' ' as u8);
            assert(ren[2 + l1] == u2[2 + l1]);
        };
        let b2 = 2 + l1 + 1;
        assert(forall|k: int| 0 <= k < l2 ==> ren[b2 + k] == #[trigger] pt2[k]);
        assert(s[i] == ren[0]);
        assert(s[i + 1] == ren[1]);
        assert(spec_skip_ws(s, i) == i);
        assert(pt1[0] == spec_render_num(q.x1)[0]) by {
            assert(pt1[0] == (spec_render_num(q.x1) + seq![',' as u8])[0]);
        };
        assert(ren[2] == pt1[0]);
        assert(s[i + 2] == ren[2]);
        assert(spec_skip_ws(s, i + 1) == spec_skip_ws(s, i + 2));
        assert(spec_skip_ws(s, i + 2) == i + 2);
        assert(s.subrange(i + 2, i + 2 + l1) =~= pt1);
        let q1 = i + 2 + l1;
        assert(s[q1] == ren[2 + l1]);
        lemma_render_point_at(s, i + 1, i + 2, q.x1, q.y1);
        assert(pt2[0] == spec_render_num(q.x)[0]) by {
            assert(pt2[0] == (spec_render_num(q.x) + seq![',' as u8])[0]);
        };
        assert(ren[b2] == pt2[0]);
        assert(s[q1 + 1] == ren[b2]);
        assert(spec_skip_ws(s, q1) == spec_skip_ws(s, q1 + 1));
        assert(spec_skip_ws(s, q1 + 1) == q1 + 1);
        assert(s.subrange(q1 + 1, i + r) =~= pt2);
        lemma_render_point_at(s, q1 + 1, q1 + 1, q.x, q.y);
    }
}

impl T {
    pub open spec fn wf(self) -> bool {
        self.x.wf() && self.y.wf()
    }

    /// A smooth quadratic curve: the letter `T` or `t`, then one point.
    pub open spec fn spec_parse(s: Seq<u8>, i: int) -> Option<(T, int)> {
        let j = spec_skip_ws(s, i);
        if j < s.len() && (s[j] == 'T' as u8 || s[j] == 't' as u8) {
            match spec_parse_point(s, j + 1) {
                Some(((x, y), e)) => Some((T { x, y, relative: s[j] == 't' as u8 }, e)),
                None => None,
            }
        } else {
            None
        }
    }

    /// Reads a smooth quadratic curve, exactly as `spec_parse` describes.
    pub fn from_str(s: &[u8], i: usize) -> (r: Result<(T, usize), ParseError>)
        requires
            i <= s@.len(),
        ensures
            r matches Ok((t, e)) ==> Self::spec_parse(s@, i as int) == Some((t, e as int))
                && t.wf() && i < e <= s@.len(),
            r is Err <==> Self::spec_parse(s@, i as int) is None,
    {
        let j = skip_ws(s, i);
        if j < s.len() && (s[j] == 'T' as u8 || s[j] == 't' as u8) {
            let relative = s[j] == 't' as u8;
            match point(s, j + 1) {
                Ok(((x, y), e)) => Ok((T { x, y, relative }, e)),
                Err(er) => Err(er),
            }
        } else {
            Err(ParseError { kind: ErrorKind::CommandLetter, pos: j })
        }
    }

    /// The letter per the recorded form, a space, then `x,y`.
    pub open spec fn spec_render(self) -> Seq<u8> {
        seq![
            if self.relative {
                't' as u8
            } else {
                'T' as u8
            },
            ' ' as u8,
        ] + spec_render_point(self.x, self.y)
    }

    /// Renders the command, exactly as `spec_render` describes.
    pub fn to_text(&self) -> (r: Vec<u8>)
        requires
            self.wf(),
        ensures
            r@ == self.spec_render(),
    {
        let mut out: Vec<u8> = Vec::new();
        out.push(if self.relative {
            't' as u8
        } else {
            'T' as u8
        });
        out.push(' ' as u8);
        push_point(&mut out, &self.x, &self.y);
        proof {
            assert(out@ =~= self.spec_render());
        }
        out
    }

    /// Serialize-then-parse identity for a rendered smooth quadratic curve.
    pub proof fn lemma_render_parse(t: T, s: Seq<u8>, i: int)
        requires
            t.wf(),
            0 <= i,
            i + t.spec_render().len() <= s.len(),
            s.subrange(i, i + t.spec_render().len() as int) == t.spec_render(),
            i + t.spec_render().len() < s.len() ==> num_boundary(
                s[i + t.spec_render().len()],
            ),
        ensures
            T::spec_parse(s, i) == Some((t, spec_skip_ws(s, i + t.spec_render().len()))),
    {
        let ren = t.spec_render();
        let r = ren.len() as int;
        let pt = spec_render_point(t.x, t.y);
        lemma_render_num_chars(t.x);
        assert(forall|k: int| 0 <= k < r ==> s[i + k] == #[trigger] ren[k]) by {
            assert(forall|k: int|
                0 <= k < r ==> s.subrange(i, i + r)[k] == s[i + k] && s.subrange(i, i + r)[k]
                    == #[trigger] ren[k]);
        };
        assert(forall|k: int| 0 <= k < pt.len() ==> ren[2 + k] == #[trigger] pt[k]);
        assert(s[i] == ren[0]);
        assert(ren[1] == ' ' as u8);
        assert(s[i + 1] == ren[1]);
        assert(ren[2] == pt[0]);
        assert(s[i + 2] == ren[2]);
        assert(pt[0] == spec_render_num(t.x)[0]) by {
            assert(pt[0] == (spec_render_num(t.x) + seq![',' as u8])[0]);
        };
        assert(spec_skip_ws(s, i) == i);
        assert(spec_skip_ws(s, i + 1) == spec_skip_ws(s, i + 2));
        assert(spec_skip_ws(s, i + 2) == i + 2);
        assert(s.subrange(i + 2, i + r) =~= pt);
        lemma_render_point_at(s, i + 1, i + 2, t.x, t.y);
    }
}

impl QuadraticBezier {
    pub open spec fn wf(self) -> bool {
        match self {
            QuadraticBezier::Q(q) => q.wf(),
            QuadraticBezier::T(t) => t.wf(),
        }
    }

    /// One of the two quadratic letters, decided by the letter itself.
    pub open spec fn spec_parse(s: Seq<u8>, i: int) -> Option<(QuadraticBezier, int)> {
        let j = spec_skip_ws(s, i);
        if j < s.len() && (s[j] == 'Q' as u8 || s[j] == 'q' as u8) {
            match Q::spec_parse(s, i) {
                Some((q, e)) => Some((QuadraticBezier::Q(q), e)),
                None => None,
            }
        } else if j < s.len() && (s[j] == 'T' as u8 || s[j] == 't' as u8) {
            match T::spec_parse(s, i) {
                Some((t, e)) => Some((QuadraticBezier::T(t), e)),
                None => None,
            }
        } else {
            None
        }
    }

    /// Reads a quadratic Bézier command, exactly as `spec_parse` describes.
    pub fn from_str(s: &[u8], i: usize) -> (r: Result<(QuadraticBezier, usize), ParseError>)
        requires
            i <= s@.len(),
        ensures
            r matches Ok((qb, e)) ==> Self::spec_parse(s@, i as int) == Some((qb, e as int))
                && qb.wf() && i < e <= s@.len(),
            r is Err <==> Self::spec_parse(s@, i as int) is None,
    {
        let j = skip_ws(s, i);
        if j < s.len() && (s[j] == 'Q' as u8 || s[j] == 'q' as u8) {
            match Q::from_str(s, i) {
                Ok((q, e)) => Ok((QuadraticBezier::Q(q), e)),
                Err(er) => Err(er),
            }
        } else if j < s.len() && (s[j] == 'T' as u8 || s[j] == 't' as u8) {
            match T::from_str(s, i) {
                Ok((t, e)) => Ok((QuadraticBezier::T(t), e)),
                Err(er) => Err(er),
            }
        } else {
            Err(ParseError { kind: ErrorKind::CommandLetter, pos: j })
        }
    }

    /// The rendering of whichever member the value holds.
    pub open spec fn spec_render(self) -> Seq<u8> {
        match self {
            QuadraticBezier::Q(q) => q.spec_render(),
            QuadraticBezier::T(t) => t.spec_render(),
        }
    }

    /// Renders the command, exactly as `spec_render` describes.
    pub fn to_text(&self) -> (r: Vec<u8>)
        requires
            self.wf(),
        ensures
            r@ == self.spec_render(),
    {
        match self {
            QuadraticBezier::Q(q) => q.to_text(),
            QuadraticBezier::T(t) => t.to_text(),
        }
    }

    /// Serialize-then-parse identity for a rendered quadratic command.
    pub proof fn lemma_render_parse(qb: QuadraticBezier, s: Seq<u8>, i: int)
        requires
            qb.wf(),
            0 <= i,
            i + qb.spec_render().len() <= s.len(),
            s.subrange(i, i + qb.spec_render().len() as int) == qb.spec_render(),
            i + qb.spec_render().len() < s.len() ==> num_boundary(
                s[i + qb.spec_render().len()],
            ),
        ensures
            QuadraticBezier::spec_parse(s, i) == Some(
                (qb, spec_skip_ws(s, i + qb.spec_render().len())),
            ),
    {
        let ren = qb.spec_render();
        assert(s[i] == ren[0]) by {
            assert(s.subrange(i, i + ren.len() as int)[0] == s[i]);
        };
        assert(spec_skip_ws(s, i) == i);
        match qb {
            QuadraticBezier::Q(q) => {
                Q::lemma_render_parse(q, s, i);
            },
            QuadraticBezier::T(t) => {
                T::lemma_render_parse(t, s, i);
            },
        }
    }
}

} // verus!
