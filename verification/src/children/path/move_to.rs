//! The moveto command: picking the drawing instrument up and setting it
//! down at another point, drawing nothing in between.

use vstd::prelude::*;

use crate::num::{lemma_render_num_chars, num_boundary, spec_render_num, Num};
use crate::parser::{
    lemma_render_point_at, point, skip_ws, spec_parse_point, spec_render_point,
    spec_skip_ws, ErrorKind, ParseError,
};

verus! {

/// Moveto: the new current point, and whether the letter was lowercase, in
/// which case the coordinates are relative to the previous current point.
#[derive(Debug, Clone, Copy, PartialEq, Eq, Structural)]
pub struct M {
    pub x: Num,
    pub y: Num,
    pub relative: bool,
}

impl M {
    pub open spec fn wf(self) -> bool {
        self.x.wf() && self.y.wf()
    }

    /// A moveto command: the letter `M` or `m`, then one point.
    pub open spec fn spec_parse(s: Seq<u8>, i: int) -> Option<(M, int)> {
        let j = spec_skip_ws(s, i);
        if j < s.len() && (s[j] == 'M' as u8 || s[j] == 'm' as u8) {
            match spec_parse_point(s, j + 1) {
                Some(((x, y), e)) => Some((M { x, y, relative: s[j] == 'm' as u8 }, e)),
                None => None,
            }
        } else {
            None
        }
    }

    /// Reads a moveto command, exactly as `spec_parse` describes.
    pub fn from_str(s: &[u8], i: usize) -> (r: Result<(M, usize), ParseError>)
        requires
            i <= s@.len(),
        ensures
            r matches Ok((m, e)) ==> Self::spec_parse(s@, i as int) == Some((m, e as int))
                && m.wf() && i < e <= s@.len(),
            r is Err <==> Self::spec_parse(s@, i as int) is None,
    {
        let j = skip_ws(s, i);
        if j < s.len() && (s[j] == 'M' as u8 || s[j] == 'm' as u8) {
            let relative = s[j] == 'm' as u8;
            match point(s, j + 1) {
                Ok(((x, y), e)) => Ok((M { x, y, relative }, e)),
                Err(er) => Err(er),
            }
        } else {
            Err(ParseError { kind: ErrorKind::CommandLetter, pos: j })
        }
    }

    /// The letter per the recorded form, a space, then `x,y`.
    pub open spec fn spec_render(self) -> Seq<u8> {
        seq![
            if self.relative {
                'm' as u8
            } else {
                'M' as u8
            },
            ' ' as u8,
        ] + spec_render_point(self.x, self.y)
    }

    /// Renders the command, exactly as `spec_render` describes.
    pub fn to_text(&self) -> (r: Vec<u8>)
        requires
            self.wf(),
        ensures
            r@ == self.spec_render(),
    {
        let mut out: Vec<u8> = Vec::new();
        out.push(if self.relative {
            'm' as u8
        } else {
            'M' as u8
        });
        out.push(' ' as u8);
        let mut xs = self.x.to_text();
        out.append(&mut xs);
        out.push(',' as u8);
        let mut ys = self.y.to_text();
        out.append(&mut ys);
        proof {
            assert(out@ =~= self.spec_render());
        }
        out
    }

    /// Serialize-then-parse identity: the rendered command at `i`, followed
    /// by nothing that could extend its final number, parses back to the
    /// same command.
    pub proof fn lemma_render_parse(m: M, s: Seq<u8>, i: int)
        requires
            m.wf(),
            0 <= i,
            i + m.spec_render().len() <= s.len(),
            s.subrange(i, i + m.spec_render().len() as int) == m.spec_render(),
            i + m.spec_render().len() < s.len() ==> num_boundary(
                s[i + m.spec_render().len()],
            ),
        ensures
            M::spec_parse(s, i) == Some((m, spec_skip_ws(s, i + m.spec_render().len()))),
    {
        let ren = m.spec_render();
        let r = ren.len() as int;
        let pt = spec_render_point(m.x, m.y);
        lemma_render_num_chars(m.x);
        assert(forall|k: int| 0 <= k < r ==> s[i + k] == #[trigger] ren[k]) by {
            assert(forall|k: int|
                0 <= k < r ==> s.subrange(i, i + r)[k] == s[i + k] && s.subrange(i, i + r)[k]
                    == #[trigger] ren[k]);
        };
        assert(forall|k: int| 0 <= k < pt.len() ==> ren[2 + k] == #[trigger] pt[k]);
        assert(s[i] == ren[0]);
        assert(ren[1] == ' ' as u8);
        assert(s[i + 1] == ren[1]);
        assert(ren[2] == pt[0]);
        assert(s[i + 2] == ren[2]);
        assert(pt[0] == spec_render_num(m.x)[0]) by {
            assert(pt[0] == (spec_render_num(m.x) + seq![',' as u8])[0]);
        };
        assert(spec_skip_ws(s, i) == i);
        assert(spec_skip_ws(s, i + 1) == spec_skip_ws(s, i + 2));
        assert(spec_skip_ws(s, i + 2) == i + 2);
        assert(s.subrange(i + 2, i + r) =~= pt);
        lemma_render_point_at(s, i + 1, i + 2, m.x, m.y);
    }
}

} // verus!
