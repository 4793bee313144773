//! The path-data command union and the command sequence grammar.
//!
//! A command is one of the ten letter families; a path-data string is zero
//! or more commands read greedily, each deciding by its leading letter.
//! Each letter takes exactly one argument group: repeating argument groups
//! behind a single letter is not part of this grammar.  The serializer
//! joins commands with single spaces, and parsing a rendered sequence is
//! proved to give back exactly the commands it came from.

use vstd::prelude::*;

use super::close_path::Z;
use super::cubic_bezier::CubicBezier;
use super::elliptical_arc::A;
use super::line_to::LineTo;
use super::move_to::M;
use super::quadratic_bezier::QuadraticBezier;
use crate::num::num_boundary;
use crate::parser::{is_ws, skip_ws, spec_skip_ws, ErrorKind, ParseError};

verus! {

/// One path-data command, tagged by its letter family.
#[derive(Debug, Clone, Copy, PartialEq, Eq, Structural)]
pub enum Command {
    MoveTo(M),
    LineTo(LineTo),
    CubicBezier(CubicBezier),
    QuadraticBezier(QuadraticBezier),
    EllipticalArc(A),
    ClosePath(Z),
}

impl Command {
    pub open spec fn wf(self) -> bool {
        match self {
            Command::MoveTo(m) => m.wf(),
            Command::LineTo(lt) => lt.wf(),
            Command::CubicBezier(cb) => cb.wf(),
            Command::QuadraticBezier(qb) => qb.wf(),
            Command::EllipticalArc(a) => a.wf(),
            Command::ClosePath(_) => true,
        }
    }

    /// One command, decided by its leading letter.
    pub open spec fn spec_parse(s: Seq<u8>, i: int) -> Option<(Command, int)> {
        let j = spec_skip_ws(s, i);
        if j < s.len() && (s[j] == 'M' as u8 || s[j] == 'm' as u8) {
            match M::spec_parse(s, i) {
                Some((m, e)) => Some((Command::MoveTo(m), e)),
                None => None,
            }
        } else if j < s.len() && (s[j] == 'L' as u8 || s[j] == 'l' as u8 || s[j] == 'H' as u8
            || s[j] == 'h' as u8 || s[j] == 'V' as u8 || s[j] == 'v' as u8) {
            match LineTo::spec_parse(s, i) {
                Some((lt, e)) => Some((Command::LineTo(lt), e)),
                None => None,
            }
        } else if j < s.len() && (s[j] == 'C' as u8 || s[j] == 'c' as u8 || s[j] == 'S' as u8
            || s[j] == 's' as u8) {
            match CubicBezier::spec_parse(s, i) {
                Some((cb, e)) => Some((Command::CubicBezier(cb), e)),
                None => None,
            }
        } else if j < s.len() && (s[j] == 'Q' as u8 || s[j] == 'q' as u8 || s[j] == 'T' as u8
            || s[j] == 't' as u8) {
            match QuadraticBezier::spec_parse(s, i) {
                Some((qb, e)) => Some((Command::QuadraticBezier(qb), e)),
                None => None,
            }
        } else if j < s.len() && (s[j] == 'A' as u8 || s[j] == 'a' as u8) {
            match A::spec_parse(s, i) {
                Some((a, e)) => Some((Command::EllipticalArc(a), e)),
                None => None,
            }
        } else if j < s.len() && (s[j] == 'Z' as u8 || s[j] == 'z' as u8) {
            match Z::spec_parse(s, i) {
                Some((z, e)) => Some((Command::ClosePath(z), e)),
                None => None,
            }
        } else {
            None
        }
    }

    /// Reads one command, exactly as `spec_parse` describes.
    pub fn from_str(s: &[u8], i: usize) -> (r: Result<(Command, usize), ParseError>)
        requires
            i <= s@.len(),
        ensures
            r matches Ok((c, e)) ==> Self::spec_parse(s@, i as int) == Some((c, e as int))
                && c.wf() && i < e <= s@.len(),
            r is Err <==> Self::spec_parse(s@, i as int) is None,
    {
        let j = skip_ws(s, i);
        if j < s.len() && (s[j] == 'M' as u8 || s[j] == 'm' as u8) {
            match M::from_str(s, i) {
                Ok((m, e)) => Ok((Command::MoveTo(m), e)),
                Err(er) => Err(er),
            }
        } else if j < s.len() && (s[j] == 'L' as u8 || s[j] == 'l' as u8 || s[j] == 'H' as u8
            || s[j] == 'h' as u8 || s[j] == 'V' as u8 || s[j] == 'v' as u8) {
            match LineTo::from_str(s, i) {
                Ok((lt, e)) => Ok((Command::LineTo(lt), e)),
                Err(er) => Err(er),
            }
        } else if j < s.len() && (s[j] == 'C' as u8 || s[j] == 'c' as u8 || s[j] == 'S' as u8
            || s[j] == 's' as u8) {
            match CubicBezier::from_str(s, i) {
                Ok((cb, e)) => Ok((Command::CubicBezier(cb), e)),
                Err(er) => Err(er),
            }
        } else if j < s.len() && (s[j] == 'Q' as u8 || s[j] == 'q' as u8 || s[j] == 'T' as u8
            || s[j] == 't' as u8) {
            match QuadraticBezier::from_str(s, i) {
                Ok((qb, e)) => Ok((Command::QuadraticBezier(qb), e)),
                Err(er) => Err(er),
            }
        } else if j < s.len() && (s[j] == 'A' as u8 || s[j] == 'a' as u8) {
            match A::from_str(s, i) {
                Ok((a, e)) => Ok((Command::EllipticalArc(a), e)),
                Err(er) => Err(er),
            }
        } else if j < s.len() && (s[j] == 'Z' as u8 || s[j] == 'z' as u8) {
            match Z::from_str(s, i) {
                Ok((z, e)) => Ok((Command::ClosePath(z), e)),
                Err(er) => Err(er),
            }
        } else {
            Err(ParseError { kind: ErrorKind::CommandLetter, pos: j })
        }
    }

    /// The rendering of whichever member the value holds.
    pub open spec fn spec_render(self) -> Seq<u8> {
        match self {
            Command::MoveTo(m) => m.spec_render(),
            Command::LineTo(lt) => lt.spec_render(),
            Command::CubicBezier(cb) => cb.spec_render(),
            Command::QuadraticBezier(qb) => qb.spec_render(),
            Command::EllipticalArc(a) => a.spec_render(),
            Command::ClosePath(z) => z.spec_render(),
        }
    }

    /// Renders the command, exactly as `spec_render` describes.
    pub fn to_text(&self) -> (r: Vec<u8>)
        requires
            self.wf(),
        ensures
            r@ == self.spec_render(),
    {
        match self {
            Command::MoveTo(m) => m.to_text(),
            Command::LineTo(lt) => lt.to_text(),
            Command::CubicBezier(cb) => cb.to_text(),
            Command::QuadraticBezier(qb) => qb.to_text(),
            Command::EllipticalArc(a) => a.to_text(),
            Command::ClosePath(z) => z.to_text(),
        }
    }

    /// A rendered command opens with its letter, which is no whitespace.
    pub proof fn lemma_render_first(c: Command)
        requires
            c.wf(),
        ensures
            c.spec_render().len() >= 1,
            !is_ws(c.spec_render()[0]),
            65 <= c.spec_render()[0] <= 90 || 97 <= c.spec_render()[0] <= 122,
    {
        match c {
            Command::MoveTo(m) => {
                assert(c.spec_render()[0] == (if m.relative {
                    'm' as u8
                } else {
                    'M' as u8
                }));
            },
            Command::LineTo(lt) => match lt {
                LineTo::L(l) => {
                    assert(c.spec_render()[0] == (if l.relative {
                        'l' as u8
                    } else {
                        'L' as u8
                    }));
                },
                LineTo::H(h) => {
                    assert(c.spec_render()[0] == (if h.relative {
                        'h' as u8
                    } else {
                        'H' as u8
                    }));
                },
                LineTo::V(v) => {
                    assert(c.spec_render()[0] == (if v.relative {
                        'v' as u8
                    } else {
                        'V' as u8
                    }));
                },
            },
            Command::CubicBezier(cb) => match cb {
                CubicBezier::C(cc) => {
                    assert(c.spec_render()[0] == (if cc.relative {
                        'c' as u8
                    } else {
                        'C' as u8
                    }));
                },
                CubicBezier::S(sc) => {
                    assert(c.spec_render()[0] == (if sc.relative {
                        's' as u8
                    } else {
                        'S' as u8
                    }));
                },
            },
            Command::QuadraticBezier(qb) => match qb {
                QuadraticBezier::Q(q) => {
                    assert(c.spec_render()[0] == (if q.relative {
                        'q' as u8
                    } else {
                        'Q' as u8
                    }));
                },
                QuadraticBezier::T(t) => {
                    assert(c.spec_render()[0] == (if t.relative {
                        't' as u8
                    } else {
                        'T' as u8
                    }));
                },
            },
            Command::EllipticalArc(a) => {
                assert(c.spec_render()[0] == (if a.relative {
                    'a' as u8
                } else {
                    'A' as u8
                }));
            },
            Command::ClosePath(z) => {
                assert(c.spec_render()[0] == (if z.0 {
                    'z' as u8
                } else {
                    'Z' as u8
                }));
            },
        }
    }

    /// Serialize-then-parse identity for one rendered command at `i`.
    pub proof fn lemma_render_parse(c: Command, s: Seq<u8>, i: int)
        requires
            c.wf(),
            0 <= i,
            i + c.spec_render().len() <= s.len(),
            s.subrange(i, i + c.spec_render().len() as int) == c.spec_render(),
            i + c.spec_render().len() < s.len() ==> num_boundary(
                s[i + c.spec_render().len()],
            ),
        ensures
            Command::spec_parse(s, i) == Some(
                (c, spec_skip_ws(s, i + c.spec_render().len())),
            ),
    {
        let ren = c.spec_render();
        Command::lemma_render_first(c);
        assert(s[i] == ren[0]) by {
            assert(s.subrange(i, i + ren.len() as int)[0] == s[i]);
        };
        assert(spec_skip_ws(s, i) == i);
        match c {
            Command::MoveTo(m) => {
                M::lemma_render_parse(m, s, i);
            },
            Command::LineTo(lt) => {
                LineTo::lemma_render_parse(lt, s, i);
            },
            Command::CubicBezier(cb) => {
                CubicBezier::lemma_render_parse(cb, s, i);
            },
            Command::QuadraticBezier(qb) => {
                QuadraticBezier::lemma_render_parse(qb, s, i);
            },
            Command::EllipticalArc(a) => {
                A::lemma_render_parse(a, s, i);
            },
            Command::ClosePath(z) => {
                Z::lemma_render_parse(z, s, i);
            },
        }
    }

    /// Serialize-then-parse identity for one command on its own text: the
    /// canonical rendering parses back to a structurally equal command with
    /// nothing left over.
    pub proof fn lemma_round_trip(c: Command)
        requires
            c.wf(),
        ensures
            Command::spec_parse(c.spec_render(), 0) == Some(
                (c, c.spec_render().len() as int),
            ),
    {
        let s = c.spec_render();
        assert(s.subrange(0, s.len() as int) =~= s);
        Command::lemma_render_parse(c, s, 0);
        crate::parser::lemma_skip_ws_bounds(s, s.len() as int);
    }
}

/// Zero or more commands, read greedily; the first text that is no command
/// ends the sequence and stays unconsumed.
pub open spec fn spec_parse_commands(s: Seq<u8>, i: int) -> (Seq<Command>, int)
    decreases s.len() - i when 0 <= i <= s.len()
{
    match Command::spec_parse(s, i) {
        Some((c, e)) => {
            if i < e <= s.len() {
                let (rest, fin) = spec_parse_commands(s, e);
                (seq![c] + rest, fin)
            } else {
                (seq![c], e)
            }
        },
        None => (Seq::empty(), i),
    }
}

/// Reads a command sequence, exactly as `spec_parse_commands` describes.
pub fn parse_commands(s: &[u8], i: usize) -> (r: (Vec<Command>, usize))
    requires
        i <= s@.len(),
    ensures
        r.0@ == spec_parse_commands(s@, i as int).0,
        r.1 as int == spec_parse_commands(s@, i as int).1,
        r.1 <= s@.len(),
        forall|k: int| 0 <= k < r.0@.len() ==> #[trigger] r.0@[k].wf(),
{
    let mut out: Vec<Command> = Vec::new();
    let mut cur = i;
    loop
        invariant
            i <= cur <= s@.len(),
            spec_parse_commands(s@, i as int).0 =~= out@ + spec_parse_commands(
                s@,
                cur as int,
            ).0,
            spec_parse_commands(s@, i as int).1 == spec_parse_commands(s@, cur as int).1,
            forall|k: int| 0 <= k < out@.len() ==> #[trigger] out@[k].wf(),
        decreases s@.len() - cur,
    {
        match Command::from_str(s, cur) {
            Ok((c, e)) => {
                let ghost pre = out@;
                out.push(c);
                proof {
                    assert(spec_parse_commands(s@, cur as int).0 =~= seq![c]
                        + spec_parse_commands(s@, e as int).0);
                    assert(pre + (seq![c] + spec_parse_commands(s@, e as int).0) =~= out@
                        + spec_parse_commands(s@, e as int).0);
                }
                cur = e;
            },
            Err(_) => {
                proof {
                    assert(spec_parse_commands(s@, cur as int).0 =~= Seq::<Command>::empty());
                    assert(out@ + Seq::<Command>::empty() =~= out@);
                }
                return (out, cur);
            },
        }
    }
}

/// The canonical text of a command sequence: the commands' renderings joined
/// by single spaces.
pub open spec fn spec_render_commands(cs: Seq<Command>) -> Seq<u8>
    decreases cs.len(),
{
    if cs.len() == 0 {
        Seq::empty()
    } else if cs.len() == 1 {
        cs[0].spec_render()
    } else {
        cs[0].spec_render() + seq![' ' as u8] + spec_render_commands(cs.skip(1))
    }
}

/// Renders the commands from position `k` on.
fn render_commands_from(cs: &Vec<Command>, k: usize) -> (r: Vec<u8>)
    requires
        k <= cs@.len(),
        forall|q: int| 0 <= q < cs@.len() ==> #[trigger] cs@[q].wf(),
    ensures
        r@ == spec_render_commands(cs@.skip(k as int)),
    decreases cs@.len() - k,
{
    if k >= cs.len() {
        let r: Vec<u8> = Vec::new();
        proof {
            assert(cs@.skip(k as int) =~= Seq::<Command>::empty());
        }
        r
    } else {
        let mut out = cs[k].to_text();
        if k + 1 < cs.len() {
            out.push(' ' as u8);
            let mut tail = render_commands_from(cs, k + 1);
            out.append(&mut tail);
            proof {
                assert(cs@.skip(k as int).skip(1) =~= cs@.skip(k + 1 as int));
                assert(cs@.skip(k as int)[0] == cs@[k as int]);
                assert(out@ =~= spec_render_commands(cs@.skip(k as int)));
            }
        } else {
            proof {
                assert(cs@.skip(k as int).len() == 1);
                assert(cs@.skip(k as int)[0] == cs@[k as int]);
            }
        }
        out
    }
}

/// Renders a command sequence, exactly as `spec_render_commands` describes.
pub fn render_commands(cs: &Vec<Command>) -> (r: Vec<u8>)
    requires
        forall|q: int| 0 <= q < cs@.len() ==> #[trigger] cs@[q].wf(),
    ensures
        r@ == spec_render_commands(cs@),
{
    let r = render_commands_from(cs, 0);
    proof {
        assert(cs@.skip(0) =~= cs@);
    }
    r
}

/// Serialize-then-parse identity for a command sequence whose rendering
/// fills `s` from `i` to the end.
#[verifier::rlimit(100)]
#[verifier::spinoff_prover]
proof fn lemma_render_parse_commands_at(cs: Seq<Command>, s: Seq<u8>, i: int)
    requires
        forall|k: int| 0 <= k < cs.len() ==> #[trigger] cs[k].wf(),
        0 <= i,
        i + spec_render_commands(cs).len() == s.len(),
        s.subrange(i, s.len() as int) == spec_render_commands(cs),
    ensures
        spec_parse_commands(s, i) == (cs, s.len() as int),
    decreases cs.len(),
{
    if cs.len() == 0 {
        assert(Command::spec_parse(s, i) is None);
    } else {
        let c0 = cs[0];
        let r0 = c0.spec_render().len() as int;
        let ren = spec_render_commands(cs);
        Command::lemma_render_first(c0);
        assert(forall|k: int| 0 <= k < ren.len() ==> s[i + k] == #[trigger] ren[k]) by {
            assert(forall|k: int|
                0 <= k < ren.len() ==> s.subrange(i, s.len() as int)[k] == s[i + k]
                    && s.subrange(i, s.len() as int)[k] == #[trigger] ren[k]);
        };
        if cs.len() == 1 {
            assert(ren == c0.spec_render());
            assert(s.subrange(i, i + r0) =~= c0.spec_render());
            Command::lemma_render_parse(c0, s, i);
            assert(spec_skip_ws(s, s.len() as int) == s.len());
            assert(Command::spec_parse(s, s.len() as int) is None);
            assert(spec_parse_commands(s, s.len() as int) == (
                Seq::<Command>::empty(),
                s.len() as int,
            ));
            assert(seq![c0] + Seq::<Command>::empty() =~= seq![c0]);
            assert(spec_parse_commands(s, i) == (seq![c0], s.len() as int));
            assert(seq![c0] =~= cs);
        } else {
            let tail = cs.skip(1);
            let rent = spec_render_commands(tail);
            assert(ren == c0.spec_render() + seq![' ' as u8] + rent);
            assert(forall|k: int| 0 <= k < r0 ==> ren[k] == #[trigger] c0.spec_render()[k]) by {
                assert(forall|k: int|
                    0 <= k < r0 ==> (c0.spec_render() + seq![' ' as u8])[k]
                        == #[trigger] c0.spec_render()[k]);
                assert(forall|k: int|
                    0 <= k < r0 ==> ren[k] == (c0.spec_render() + seq![' ' as u8])[k]);
            };
            assert(ren[r0] == ' ' as u8) by {
                assert(ren[r0] == (c0.spec_render() + seq![' ' as u8])[r0]);
            };
            let b1 = r0 + 1;
            assert(forall|k: int| 0 <= k < rent.len() ==> ren[b1 + k] == #[trigger] rent[k]);
            assert(s.subrange(i, i + r0) =~= c0.spec_render());
            assert(s[i + r0] == ren[r0]);
            Command::lemma_render_parse(c0, s, i);
            // one space, then the next letter
            assert(tail.len() >= 1);
            Command::lemma_render_first(tail[0]);
            assert(rent[0] == tail[0].spec_render()[0]) by {
                if tail.len() == 1 {
                } else {
                    assert(rent[0] == (tail[0].spec_render() + seq![' ' as u8])[0]);
                }
            };
            assert(s[i + r0 + 1] == ren[b1]);
            assert(spec_skip_ws(s, i + r0) == spec_skip_ws(s, i + r0 + 1));
            assert(spec_skip_ws(s, i + r0 + 1) == i + r0 + 1);
            assert(s.subrange(i + r0 + 1, s.len() as int) =~= rent);
            lemma_render_parse_commands_at(tail, s, i + r0 + 1);
            assert(spec_parse_commands(s, i) == (seq![c0] + tail, s.len() as int));
            assert(seq![c0] + tail =~= cs);
        }
    }
}

/// Serialize-then-parse identity for a whole command sequence: rendering a
/// sequence of normalized commands and parsing the text again gives back a
/// structurally equal sequence with no unconsumed input.
pub proof fn lemma_commands_round_trip(cs: Seq<Command>)
    requires
        forall|k: int| 0 <= k < cs.len() ==> #[trigger] cs[k].wf(),
    ensures
        spec_parse_commands(spec_render_commands(cs), 0) == (
            cs,
            spec_render_commands(cs).len() as int,
        ),
{
    let s = spec_render_commands(cs);
    assert(s.subrange(0, s.len() as int) =~= s);
    lemma_render_parse_commands_at(cs, s, 0);
}

} // verus!
