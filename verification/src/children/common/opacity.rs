//! The stroke opacity: a number constrained to the closed unit interval.
//! A value outside the bounds is a reported failure, never clamped.

use vstd::prelude::*;

use crate::num::{
    lemma_pow10_mono, pow10, pow10_u64, spec_num_from_text, spec_render_num, Num, MAX_EXP,
};
use crate::parser::{ErrorKind, ParseError};

verus! {

/// An opacity in `[0, 1]`, held as an exact decimal.
#[derive(Debug, Clone, Copy, PartialEq, Eq, Structural)]
pub struct Opacity(pub Num);

/// The value of a normalized number lies in the closed unit interval: zero,
/// one, or a positive fraction `mant * 10^exp <= 1` with `exp < 0`.
pub open spec fn spec_in_unit(n: Num) -> bool {
    ||| n.mant == 0
    ||| (!n.neg && n.exp == 0 && n.mant == 1)
    ||| (!n.neg && n.exp < 0 && n.mant as int <= pow10((-(n.exp as int)) as nat))
}

/// Attribute text for an opacity: one trimmed number inside the bounds; a
/// number outside them is a reported range failure.
pub open spec fn spec_parse_opacity(s: Seq<u8>) -> Option<Opacity> {
    match spec_num_from_text(s) {
        Some(n) => if spec_in_unit(n) {
            Some(Opacity(n))
        } else {
            None
        },
        None => None,
    }
}

/// Decides the unit-interval bound, exactly as `spec_in_unit` describes.
pub fn in_unit(n: &Num) -> (r: bool)
    requires
        n.wf(),
    ensures
        r == spec_in_unit(*n),
{
    if n.mant == 0 {
        true
    } else if n.neg {
        false
    } else if n.exp == 0 {
        n.mant == 1
    } else if n.exp > 0 {
        false
    } else {
        let p: i64 = -(n.exp as i64);
        if p >= 20 {
            proof {
                assert((u64::MAX as int) < pow10(20)) by {
                    reveal_with_fuel(pow10, 21);
                };
                lemma_pow10_mono(20, p as nat);
            }
            true
        } else {
            n.mant <= pow10_u64(p as usize)
        }
    }
}

impl Opacity {
    pub open spec fn wf(self) -> bool {
        self.0.wf() && spec_in_unit(self.0)
    }

    /// Reads an opacity, exactly as `spec_parse_opacity` describes: a
    /// failure either for malformed text or for a value out of bounds.
    pub fn from_str(s: &[u8]) -> (r: Result<Opacity, ParseError>)
        ensures
            r matches Ok(o) ==> spec_parse_opacity(s@) == Some(o) && o.wf(),
            r is Err <==> spec_parse_opacity(s@) is None,
    {
        match Num::from_text(s) {
            Ok(n) => {
                if in_unit(&n) {
                    Ok(Opacity(n))
                } else {
                    Err(ParseError { kind: ErrorKind::Range, pos: 0 })
                }
            },
            Err(er) => Err(er),
        }
    }

    /// The canonical text of the held value.
    pub open spec fn spec_render(self) -> Seq<u8> {
        spec_render_num(self.0)
    }

    /// Renders the value, exactly as `spec_render` describes.
    pub fn to_text(&self) -> (r: Vec<u8>)
        requires
            self.0.wf(),
        ensures
            r@ == self.spec_render(),
    {
        self.0.to_text()
    }
}

impl Default for Opacity {
    /// The documented default: fully opaque, one.
    fn default() -> (r: Opacity)
        ensures
            r == Opacity(Num { neg: false, mant: 1, exp: 0 }),
            r.wf(),
    {
        Opacity(Num { neg: false, mant: 1, exp: 0 })
    }
}

} // verus!
