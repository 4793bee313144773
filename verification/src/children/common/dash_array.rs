//! The stroke dash array: whitespace-separated numbers.  An empty attribute
//! yields an empty list, which renders back to an empty string.

use vstd::prelude::*;

use crate::num::{lex_number, spec_lex_number, spec_render_num, Num};
use crate::parser::{is_ws, is_ws_byte, skip_ws, spec_skip_ws, ErrorKind, ParseError};

verus! {

/// A dash array, held as exact decimals in document order.
#[derive(Debug, Clone)]
pub struct DashArray(pub Vec<Num>);

/// Whitespace-separated numbers from `i` to the end: every token must be
/// one whole number, and any other token is a failure.
pub open spec fn spec_parse_dash(s: Seq<u8>, i: int) -> Option<Seq<Num>>
    decreases s.len() - i when 0 <= i <= s.len()
{
    let j = spec_skip_ws(s, i);
    if j == s.len() {
        Some(Seq::empty())
    } else {
        match spec_lex_number(s, j) {
            Some((n, e)) => {
                if (e == s.len() || is_ws(s[e])) && i < e <= s.len() {
                    match spec_parse_dash(s, e) {
                        Some(rest) => Some(seq![n] + rest),
                        None => None,
                    }
                } else {
                    None
                }
            },
            None => None,
        }
    }
}

impl DashArray {
    pub open spec fn wf(self) -> bool {
        forall|k: int| 0 <= k < self.0@.len() ==> #[trigger] self.0@[k].wf()
    }

    /// Reads a dash array, exactly as `spec_parse_dash` describes.
    pub fn from_str(s: &[u8]) -> (r: Result<DashArray, ParseError>)
        ensures
            r matches Ok(d) ==> spec_parse_dash(s@, 0) == Some(d.0@) && d.wf(),
            r is Err <==> spec_parse_dash(s@, 0) is None,
    {
        let mut out: Vec<Num> = Vec::new();
        let mut cur: usize = 0;
        loop
            invariant
                cur <= s@.len(),
                forall|k: int| 0 <= k < out@.len() ==> #[trigger] out@[k].wf(),
                ({
                    let full = spec_parse_dash(s@, 0);
                    let rest = spec_parse_dash(s@, cur as int);
                    match rest {
                        Some(ns) => full == Some(out@ + ns),
                        None => full is None,
                    }
                }),
            decreases s@.len() - cur,
        {
            let j = skip_ws(s, cur);
            if j == s.len() {
                proof {
                    assert(spec_parse_dash(s@, cur as int) == Some(Seq::<Num>::empty()));
                    assert(out@ + Seq::<Num>::empty() =~= out@);
                }
                return Ok(DashArray(out));
            }
            match lex_number(s, j) {
                Ok((n, e)) => {
                    if e < s.len() && !is_ws_byte(s[e]) {
                        proof {
                            assert(spec_parse_dash(s@, cur as int) is None);
                        }
                        return Err(ParseError { kind: ErrorKind::Number, pos: e });
                    }
                    let ghost pre = out@;
                    out.push(n);
                    proof {
                        assert(spec_parse_dash(s@, cur as int) == (
                        match spec_parse_dash(s@, e as int) {
                            Some(rest) => Some(seq![n] + rest),
                            None => None,
                        }));
                        if let Some(rest) = spec_parse_dash(s@, e as int) {
                            assert(pre + (seq![n] + rest) =~= out@ + rest);
                        }
                    }
                    cur = e;
                },
                Err(er) => {
                    proof {
                        assert(spec_parse_dash(s@, cur as int) is None);
                    }
                    return Err(er);
                },
            }
        }
    }

    /// The numbers' canonical texts joined by single spaces; an empty list
    /// is the empty text.
    pub open spec fn spec_render(self) -> Seq<u8> {
        spec_render_dash(self.0@)
    }

    /// Renders the list, exactly as `spec_render` describes.
    pub fn to_text(&self) -> (r: Vec<u8>)
        requires
            self.wf(),
        ensures
            r@ == self.spec_render(),
    {
        let r = render_dash_from(&self.0, 0);
        proof {
            assert(self.0@.skip(0) =~= self.0@);
        }
        r
    }
}

/// The canonical text of a number list: renderings joined by single spaces.
pub open spec fn spec_render_dash(ns: Seq<Num>) -> Seq<u8>
    decreases ns.len(),
{
    if ns.len() == 0 {
        Seq::empty()
    } else if ns.len() == 1 {
        spec_render_num(ns[0])
    } else {
        spec_render_num(ns[0]) + seq![' ' as u8] + spec_render_dash(ns.skip(1))
    }
}

/// Renders the numbers from position `k` on.
fn render_dash_from(ns: &Vec<Num>, k: usize) -> (r: Vec<u8>)
    requires
        k <= ns@.len(),
        forall|q: int| 0 <= q < ns@.len() ==> #[trigger] ns@[q].wf(),
    ensures
        r@ == spec_render_dash(ns@.skip(k as int)),
    decreases ns@.len() - k,
{
    if k >= ns.len() {
        let r: Vec<u8> = Vec::new();
        proof {
            assert(ns@.skip(k as int) =~= Seq::<Num>::empty());
        }
        r
    } else {
        let mut out = ns[k].to_text();
        if k + 1 < ns.len() {
            out.push(' ' as u8);
            let mut tail = render_dash_from(ns, k + 1);
            out.append(&mut tail);
            proof {
                assert(ns@.skip(k as int).skip(1) =~= ns@.skip(k + 1 as int));
                assert(ns@.skip(k as int)[0] == ns@[k as int]);
                assert(out@ =~= spec_render_dash(ns@.skip(k as int)));
            }
        } else {
            proof {
                assert(ns@.skip(k as int).len() == 1);
                assert(ns@.skip(k as int)[0] == ns@[k as int]);
            }
        }
        out
    }
}

impl Default for DashArray {
    /// No dashes at all.
    fn default() -> (r: DashArray)
        ensures
            r.0@ == Seq::<Num>::empty(),
    {
        DashArray(Vec::new())
    }
}

} // verus!
