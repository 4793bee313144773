//! The elliptical arc command: two radii, a rotation angle, the large-arc
//! and sweep flags, and the end point.

use vstd::prelude::*;

use crate::num::{lemma_render_num_chars, num_boundary, spec_render_num, Num};
use crate::parser::{
    bool_flag, lemma_render_flag_at, lemma_render_number_at, lemma_render_point_at,
    lemma_render_point_ws_at, parse_number, point, push_point, skip_ws, spec_parse_flag,
    spec_parse_number, spec_parse_point, spec_render_point, spec_render_point_ws, spec_skip_ws,
    ErrorKind, ParseError,
};

verus! {

/// Elliptical arc from the current point to `x,y`.
#[derive(Debug, Clone, Copy, PartialEq, Eq, Structural)]
pub struct A {
    /// The two radii of the ellipse.
    pub rx: Num,
    pub ry: Num,
    /// Rotation of the ellipse against the x axis, in degrees.
    pub angle: Num,
    /// Chooses the large arc (`1`) over the small arc (`0`).
    pub large_arc_flag: bool,
    /// Chooses the clockwise (`1`) over the counterclockwise (`0`) arc.
    pub sweep_flag: bool,
    /// The end point of the arc.
    pub x: Num,
    pub y: Num,
    pub relative: bool,
}

impl A {
    pub open spec fn wf(self) -> bool {
        self.rx.wf() && self.ry.wf() && self.angle.wf() && self.x.wf() && self.y.wf()
    }

    /// An arc: the letter `A` or `a`, the radii point, the angle, the two
    /// flags, then the end point.
    pub open spec fn spec_parse(s: Seq<u8>, i: int) -> Option<(A, int)> {
        let j = spec_skip_ws(s, i);
        if j < s.len() && (s[j] == 'A' as u8 || s[j] == 'a' as u8) {
            match spec_parse_point(s, j + 1) {
                Some(((rx, ry), e1)) => match spec_parse_number(s, e1) {
                    Some((angle, e2)) => match spec_parse_flag(s, e2) {
                        Some((laf, e3)) => match spec_parse_flag(s, e3) {
                            Some((sf, e4)) => match spec_parse_point(s, e4) {
                                Some(((x, y), e5)) => Some(
                                    (
                                        A {
                                            rx,
                                            ry,
                                            angle,
                                            large_arc_flag: laf,
                                            sweep_flag: sf,
                                            x,
                                            y,
                                            relative: s[j] == 'a' as u8,
                                        },
                                        e5,
                                    ),
                                ),
                                None => None,
                            },
                            None => None,
                        },
                        None => None,
                    },
                    None => None,
                },
                None => None,
            }
        } else {
            None
        }
    }

    /// Reads an arc command, exactly as `spec_parse` describes.
    pub fn from_str(s: &[u8], i: usize) -> (r: Result<(A, usize), ParseError>)
        requires
            i <= s@.len(),
        ensures
            r matches Ok((a, e)) ==> Self::spec_parse(s@, i as int) == Some((a, e as int))
                && a.wf() && i < e <= s@.len(),
            r is Err <==> Self::spec_parse(s@, i as int) is None,
    {
        let j = skip_ws(s, i);
        if j < s.len() && (s[j] == 'A' as u8 || s[j] == 'a' as u8) {
            let relative = s[j] == 'a' as u8;
            let ((rx, ry), e1) = match point(s, j + 1) {
                Ok(v) => v,
                Err(er) => {
                    return Err(er);
                },
            };
            let (angle, e2) = match parse_number(s, e1) {
                Ok(v) => v,
                Err(er) => {
                    return Err(er);
                },
            };
            let (laf, e3) = match bool_flag(s, e2) {
                Ok(v) => v,
                Err(er) => {
                    return Err(er);
                },
            };
            let (sf, e4) = match bool_flag(s, e3) {
                Ok(v) => v,
                Err(er) => {
                    return Err(er);
                },
            };
            let ((x, y), e5) = match point(s, e4) {
                Ok(v) => v,
                Err(er) => {
                    return Err(er);
                },
            };
            Ok(
                (
                    A {
                        rx,
                        ry,
                        angle,
                        large_arc_flag: laf,
                        sweep_flag: sf,
                        x,
                        y,
                        relative,
                    },
                    e5,
                ),
            )
        } else {
            Err(ParseError { kind: ErrorKind::CommandLetter, pos: j })
        }
    }

    /// The letter, the radii, the angle, the flags as `1`/`0`, then `x,y`,
    /// space-separated.
    pub open spec fn spec_render(self) -> Seq<u8> {
        seq![
            if self.relative {
                'a' as u8
            } else {
                'A' as u8
            },
            ' ' as u8,
        ] + spec_render_point_ws(self.rx, self.ry) + seq![' ' as u8] + spec_render_num(
            self.angle,
        ) + seq![
            ' ' as u8,
            if self.large_arc_flag {
                '1' as u8
            } else {
                '0' as u8
            },
            ' ' as u8,
            if self.sweep_flag {
                '1' as u8
            } else {
                '0' as u8
            },
            ' ' as u8,
        ] + spec_render_point(self.x, self.y)
    }

    /// Renders the command, exactly as `spec_render` describes.
    #[verifier::rlimit(100)]
    #[verifier::spinoff_prover]
    pub fn to_text(&self) -> (r: Vec<u8>)
        requires
            self.wf(),
        ensures
            r@ == self.spec_render(),
    {
        let mut out: Vec<u8> = Vec::new();
        out.push(if self.relative {
            'a' as u8
        } else {
            'A' as u8
        });
        out.push(' ' as u8);
        let mut t = self.rx.to_text();
        out.append(&mut t);
        out.push(' ' as u8);
        let mut t2 = self.ry.to_text();
        out.append(&mut t2);
        out.push(' ' as u8);
        let mut t3 = self.angle.to_text();
        out.append(&mut t3);
        out.push(' ' as u8);
        out.push(if self.large_arc_flag {
            '1' as u8
        } else {
            '0' as u8
        });
        out.push(' ' as u8);
        out.push(if self.sweep_flag {
            '1' as u8
        } else {
            '0' as u8
        });
        out.push(' ' as u8);
        push_point(&mut out, &self.x, &self.y);
        proof {
            assert(out@ =~= self.spec_render());
        }
        out
    }

    /// Where the rendered arc sits in `s`: each argument at its offset.
    #[verifier::rlimit(100)]
    #[verifier::spinoff_prover]
    proof fn lemma_layout(a: A, s: Seq<u8>, i: int)
        requires
            0 <= i,
            i + a.spec_render().len() <= s.len(),
            s.subrange(i, i + a.spec_render().len() as int) == a.spec_render(),
        ensures
            ({
                let w = spec_render_point_ws(a.rx, a.ry);
                let ra = spec_render_num(a.angle);
                let pt = spec_render_point(a.x, a.y);
                let q1 = i + 2 + w.len() as int;
                let q2 = q1 + 1 + ra.len() as int;
                &&& a.spec_render().len() == 8 + w.len() + ra.len() + pt.len()
                &&& s[i] == (if a.relative {
                    'a' as u8
                } else {
                    'A' as u8
                })
                &&& s[i + 1] == ' ' as u8
                &&& s.subrange(i + 2, q1) == w
                &&& s[q1] == ' ' as u8
                &&& s.subrange(q1 + 1, q2) == ra
                &&& s[q2] == ' ' as u8
                &&& s[q2 + 1] == (if a.large_arc_flag {
                    '1' as u8
                } else {
                    '0' as u8
                })
                &&& s[q2 + 2] == ' ' as u8
                &&& s[q2 + 3] == (if a.sweep_flag {
                    '1' as u8
                } else {
                    '0' as u8
                })
                &&& s[q2 + 4] == ' ' as u8
                &&& s.subrange(q2 + 5, i + a.spec_render().len() as int) == pt
            }),
    {
        let ren = a.spec_render();
        let r = ren.len() as int;
        let w = spec_render_point_ws(a.rx, a.ry);
        let ra = spec_render_num(a.angle);
        let pt = spec_render_point(a.x, a.y);
        let lw = w.len() as int;
        let la = ra.len() as int;
        let lp = pt.len() as int;
        let h2: Seq<u8> = seq![
            if a.relative {
                'a' as u8
            } else {
                'A' as u8
            },
            ' ' as u8,
        ];
        let mid: Seq<u8> = seq![
            ' ' as u8,
            if a.large_arc_flag {
                '1' as u8
            } else {
                '0' as u8
            },
            ' ' as u8,
            if a.sweep_flag {
                '1' as u8
            } else {
                '0' as u8
            },
            ' ' as u8,
        ];
        let u1 = h2 + w;
        let u2 = u1 + seq![' ' as u8];
        let u3 = u2 + ra;
        let u4 = u3 + mid;
        assert(ren == u4 + pt);
        assert(forall|k: int| 0 <= k < r ==> s[i + k] == #[trigger] ren[k]) by {
            assert(forall|k: int|
                0 <= k < r ==> s.subrange(i, i + r)[k] == s[i + k] && s.subrange(i, i + r)[k]
                    == #[trigger] ren[k]);
        };
        assert(ren[0] == h2[0] && ren[1] == ' ' as u8) by {
            assert(u1[0] == h2[0] && u1[1] == h2[1]);
            assert(u2[0] == u1[0] && u2[1] == u1[1]);
            assert(u3[0] == u2[0] && u3[1] == u2[1]);
            assert(u4[0] == u3[0] && u4[1] == u3[1]);
            assert(ren[0] == u4[0] && ren[1] == u4[1]);
        };
        assert(forall|k: int| 0 <= k < lw ==> ren[2 + k] == #[trigger] w[k]) by {
            assert(forall|k: int| 0 <= k < lw ==> u1[2 + k] == #[trigger] w[k]);
            assert(forall|k: int| 0 <= k < lw ==> #[trigger] u2[2 + k] == u1[2 + k]);
            assert(forall|k: int| 0 <= k < lw ==> #[trigger] u3[2 + k] == u2[2 + k]);
            assert(forall|k: int| 0 <= k < lw ==> #[trigger] u4[2 + k] == u3[2 + k]);
            assert(forall|k: int| 0 <= k < lw ==> #[trigger] ren[2 + k] == u4[2 + k]);
        };
        assert(ren[2 + lw] == ' ' as u8) by {
            assert(u2[2 + lw] == ' ' as u8);
            assert(u3[2 + lw] == u2[2 + lw]);
            assert(u4[2 + lw] == u3[2 + lw]);
            assert(ren[2 + lw] == u4[2 + lw]);
        };
        let ba = 2 + lw + 1;
        assert(forall|k: int| 0 <= k < la ==> ren[ba + k] == #[trigger] ra[k]) by {
            assert(forall|k: int| 0 <= k < la ==> u3[ba + k] == #[trigger] ra[k]);
            assert(forall|k: int| 0 <= k < la ==> #[trigger] u4[ba + k] == u3[ba + k]);
            assert(forall|k: int| 0 <= k < la ==> #[trigger] ren[ba + k] == u4[ba + k]);
        };
        assert(ren[ba + la] == mid[0] && ren[ba + la + 1] == mid[1] && ren[ba + la + 2]
            == mid[2] && ren[ba + la + 3] == mid[3] && ren[ba + la + 4] == mid[4]) by {
            assert(u4[ba + la] == mid[0] && u4[ba + la + 1] == mid[1] && u4[ba + la + 2]
                == mid[2] && u4[ba + la + 3] == mid[3] && u4[ba + la + 4] == mid[4]);
            assert(ren[ba + la] == u4[ba + la] && ren[ba + la + 1] == u4[ba + la + 1] && ren[ba
                + la + 2] == u4[ba + la + 2] && ren[ba + la + 3] == u4[ba + la + 3] && ren[ba + la
                + 4] == u4[ba + la + 4]);
        };
        let bp = ba + la + 5;
        assert(forall|k: int| 0 <= k < lp ==> ren[bp + k] == #[trigger] pt[k]);
        let q1 = i + 2 + lw;
        let q2 = q1 + 1 + la;
        assert(s.subrange(i + 2, q1) =~= w);
        assert(s.subrange(q1 + 1, q2) =~= ra);
        assert(s.subrange(q2 + 5, i + r) =~= pt);
        assert(s[i] == ren[0]);
        assert(s[i + 1] == ren[1]);
        assert(s[q1] == ren[2 + lw]);
        assert(s[q2] == ren[ba + la]);
        assert(s[q2 + 1] == ren[ba + la + 1]);
        assert(s[q2 + 2] == ren[ba + la + 2]);
        assert(s[q2 + 3] == ren[ba + la + 3]);
        assert(s[q2 + 4] == ren[ba + la + 4]);
    }

    /// Serialize-then-parse identity for a rendered arc.
    #[verifier::rlimit(100)]
    #[verifier::spinoff_prover]
    pub proof fn lemma_render_parse(a: A, s: Seq<u8>, i: int)
        requires
            a.wf(),
            0 <= i,
            i + a.spec_render().len() <= s.len(),
            s.subrange(i, i + a.spec_render().len() as int) == a.spec_render(),
            i + a.spec_render().len() < s.len() ==> num_boundary(
                s[i + a.spec_render().len()],
            ),
        ensures
            A::spec_parse(s, i) == Some((a, spec_skip_ws(s, i + a.spec_render().len()))),
    {
        Self::lemma_layout(a, s, i);
        let r = a.spec_render().len() as int;
        let w = spec_render_point_ws(a.rx, a.ry);
        let ra = spec_render_num(a.angle);
        let pt = spec_render_point(a.x, a.y);
        let lw = w.len() as int;
        let la = ra.len() as int;
        let q1 = i + 2 + lw;
        let q2 = q1 + 1 + la;
        lemma_render_num_chars(a.rx);
        lemma_render_num_chars(a.angle);
        lemma_render_num_chars(a.x);
        assert(spec_skip_ws(s, i) == i);
        // the radii
        assert(s[i + 2] == w[0]) by {
            assert(s.subrange(i + 2, q1)[0] == s[i + 2]);
        };
        assert(w[0] == spec_render_num(a.rx)[0]) by {
            assert(w[0] == (spec_render_num(a.rx) + seq![' ' as u8])[0]);
        };
        assert(spec_skip_ws(s, i + 1) == spec_skip_ws(s, i + 2));
        assert(spec_skip_ws(s, i + 2) == i + 2);
        lemma_render_point_ws_at(s, i + 1, i + 2, a.rx, a.ry);
        // the angle
        assert(s[q1 + 1] == ra[0]) by {
            assert(s.subrange(q1 + 1, q2)[0] == s[q1 + 1]);
        };
        assert(spec_skip_ws(s, q1) == spec_skip_ws(s, q1 + 1));
        assert(spec_skip_ws(s, q1 + 1) == q1 + 1);
        lemma_render_number_at(s, q1 + 1, q1 + 1, a.angle);
        // the flags
        assert(spec_skip_ws(s, q2) == spec_skip_ws(s, q2 + 1));
        assert(spec_skip_ws(s, q2 + 1) == q2 + 1);
        lemma_render_flag_at(s, q2 + 1, q2 + 1, a.large_arc_flag);
        assert(spec_skip_ws(s, q2 + 2) == spec_skip_ws(s, q2 + 3));
        assert(spec_skip_ws(s, q2 + 3) == q2 + 3);
        lemma_render_flag_at(s, q2 + 2, q2 + 3, a.sweep_flag);
        // the end point
        assert(s[q2 + 5] == pt[0]) by {
            assert(s.subrange(q2 + 5, i + r)[0] == s[q2 + 5]);
        };
        assert(pt[0] == spec_render_num(a.x)[0]) by {
            assert(pt[0] == (spec_render_num(a.x) + seq![',' as u8])[0]);
        };
        assert(spec_skip_ws(s, q2 + 4) == spec_skip_ws(s, q2 + 5));
        assert(spec_skip_ws(s, q2 + 5) == q2 + 5);
        lemma_render_point_at(s, q2 + 5, q2 + 5, a.x, a.y);
    }
}

} // verus!
