//! The closepath command: the letter `Z` or `z`, with no arguments.

use vstd::prelude::*;

use crate::parser::{skip_ws, spec_skip_ws, ErrorKind, ParseError};

verus! {

/// Closepath; the field records whether the letter was lowercase (relative).
#[derive(Debug, Clone, Copy, PartialEq, Eq, Structural)]
pub struct Z(pub bool);

impl Z {
    /// A closepath command: optional whitespace, `Z` or `z`, optional
    /// whitespace.
    pub open spec fn spec_parse(s: Seq<u8>, i: int) -> Option<(Z, int)> {
        let j = spec_skip_ws(s, i);
        if j < s.len() && (s[j] == 'Z' as u8 || s[j] == 'z' as u8) {
            Some((Z(s[j] == 'z' as u8), spec_skip_ws(s, j + 1)))
        } else {
            None
        }
    }

    /// Reads a closepath command, exactly as `spec_parse` describes.
    pub fn from_str(s: &[u8], i: usize) -> (r: Result<(Z, usize), ParseError>)
        requires
            i <= s@.len(),
        ensures
            r matches Ok((z, e)) ==> Self::spec_parse(s@, i as int) == Some((z, e as int)) && i
                < e <= s@.len(),
            r is Err <==> Self::spec_parse(s@, i as int) is None,
    {
        let j = skip_ws(s, i);
        if j < s.len() && (s[j] == 'Z' as u8 || s[j] == 'z' as u8) {
            let z = Z(s[j] == 'z' as u8);
            let e = skip_ws(s, j + 1);
            Ok((z, e))
        } else {
            Err(ParseError { kind: ErrorKind::CommandLetter, pos: j })
        }
    }

    /// The letter alone, uppercase or lowercase per the recorded form.
    pub open spec fn spec_render(self) -> Seq<u8> {
        if self.0 {
            seq!['z' as u8]
        } else {
            seq!['Z' as u8]
        }
    }

    /// Renders the command, exactly as `spec_render` describes.
    pub fn to_text(&self) -> (r: Vec<u8>)
        ensures
            r@ == self.spec_render(),
    {
        let mut out: Vec<u8> = Vec::new();
        if self.0 {
            out.push('z' as u8);
        } else {
            out.push('Z' as u8);
        }
        proof {
            assert(out@ =~= self.spec_render());
        }
        out
    }

    /// Serialize-then-parse identity: the rendered letter at `i` parses back
    /// to the same command, ending at the following whitespace's end.
    pub proof fn lemma_render_parse(z: Z, s: Seq<u8>, i: int)
        requires
            0 <= i,
            i + z.spec_render().len() <= s.len(),
            s.subrange(i, i + z.spec_render().len() as int) == z.spec_render(),
        ensures
            Z::spec_parse(s, i) == Some((z, spec_skip_ws(s, i + z.spec_render().len()))),
    {
        assert(s[i] == z.spec_render()[0]);
    }
}

} // verus!
