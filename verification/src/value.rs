//! The auto-or-value attribute type.
//!
//! A field such as a radius is textually either the keyword `auto` or an
//! explicit number, and the attribute may also be absent altogether.  The
//! three states are kept apart explicitly — absent, the keyword, an explicit
//! value — so that equality is plain structural equality; an absent field
//! and the keyword both render as the literal text `auto`.

use vstd::prelude::*;

use vstd::string::StringSliceAdditionalSpecFns;

use crate::num::{lemma_num_round_trip, lemma_render_num_chars, spec_num_from_text, spec_render_num, Num};
use crate::parser::{
    copy_range, is_ws, kvs_view, lookup, match_at, skip_ws, spec_lookup, spec_skip_ws,
    spec_ws_end, ws_end, ParseError,
};

verus! {

/// An auto-or-value field: absent, the `auto` keyword, or an explicit value.
#[derive(Debug, Clone, Copy, PartialEq, Eq, Structural)]
pub enum Auto {
    /// The attribute was absent.
    Unset,
    /// The attribute held the literal keyword `auto`.
    Auto,
    /// The attribute held an explicit value.
    Value(Num),
}

/// Attribute text for an auto-or-value field: the keyword `auto` once
/// trimmed, or one number.  Unparsable text is a failure, never `auto`.
pub open spec fn spec_parse_auto(s: Seq<u8>) -> Option<Auto> {
    let a = spec_skip_ws(s, 0);
    let b = spec_ws_end(s, s.len() as int);
    if a <= b && s.subrange(a, b) == "auto".spec_bytes() {
        Some(Auto::Auto)
    } else {
        match spec_num_from_text(s) {
            Some(n) => Some(Auto::Value(n)),
            None => None,
        }
    }
}

impl Auto {
    pub open spec fn wf(self) -> bool {
        match self {
            Auto::Value(n) => n.wf(),
            _ => true,
        }
    }

    /// Reads an attribute text, exactly as `spec_parse_auto` describes.
    pub fn from_str(s: &[u8]) -> (r: Result<Auto, ParseError>)
        ensures
            r matches Ok(a) ==> spec_parse_auto(s@) == Some(a) && a.wf(),
            r is Err <==> spec_parse_auto(s@) is None,
            r matches Ok(a) ==> a != Auto::Unset,
    {
        let a = skip_ws(s, 0);
        let b = ws_end(s, s.len());
        let lit = "auto".as_bytes();
        if b >= a && b - a == lit.len() && match_at(s, a, lit) {
            proof {
                assert(s@.subrange(a as int, b as int) == "auto".spec_bytes());
            }
            Ok(Auto::Auto)
        } else {
            proof {
                if a <= b && s@.subrange(a as int, b as int) == "auto".spec_bytes() {
                    assert(b - a == "auto".spec_bytes().len());
                    assert(s@.subrange(a as int, a + "auto".spec_bytes().len() as int)
                        == "auto".spec_bytes());
                }
            }
            match Num::from_text(s) {
                Ok(n) => Ok(Auto::Value(n)),
                Err(er) => Err(er),
            }
        }
    }

    /// Looks the key up in an attribute list: an absent key is the `Unset`
    /// state, a present one is read as `spec_parse_auto` describes.
    pub fn get_from_map(kvs: &Vec<(Vec<u8>, Vec<u8>)>, k: &[u8]) -> (r: Result<
        Auto,
        ParseError,
    >)
        ensures
            r matches Ok(a) ==> spec_get_auto(kvs_view(kvs@), k@) == Some(a) && a.wf(),
            r is Err <==> spec_get_auto(kvs_view(kvs@), k@) is None,
    {
        match lookup(kvs, k) {
            Some(v) => Auto::from_str(v.as_slice()),
            None => Ok(Auto::Unset),
        }
    }

    /// The literal keyword for the absent and `auto` states, else the
    /// value's canonical text.
    pub open spec fn spec_render(self) -> Seq<u8> {
        match self {
            Auto::Value(n) => spec_render_num(n),
            _ => "auto".spec_bytes(),
        }
    }

    /// Renders the field, exactly as `spec_render` describes.
    pub fn to_text(&self) -> (r: Vec<u8>)
        requires
            self.wf(),
        ensures
            r@ == self.spec_render(),
    {
        match self {
            Auto::Value(n) => n.to_text(),
            _ => {
                let lit = "auto".as_bytes();
                copy_range(lit, 0, lit.len())
            },
        }
    }
}

/// The auto-or-value reading of a key in an attribute list.
pub open spec fn spec_get_auto(kvs: Seq<(Seq<u8>, Seq<u8>)>, k: Seq<u8>) -> Option<Auto> {
    match spec_lookup(kvs, k) {
        Some(v) => spec_parse_auto(v),
        None => Some(Auto::Unset),
    }
}

/// Serialize-then-parse identity for auto-or-value fields: the rendered
/// text of any field reads back as the `auto` keyword state when the field
/// was absent or `auto`, and as the same explicit value otherwise.
pub proof fn lemma_auto_round_trip(a: Auto)
    requires
        a.wf(),
    ensures
        spec_parse_auto(a.spec_render()) == Some(
            if a is Value {
                a
            } else {
                Auto::Auto
            },
        ),
{
    let s = a.spec_render();
    reveal_strlit("auto");
    vstd::string::is_ascii_spec_bytes("auto");
    assert("auto"@ =~= seq!['a', 'u', 't', 'o']);
    assert(vstd::string::is_ascii("auto"));
    assert("auto".spec_bytes() =~= seq!['a' as u8, 'u' as u8, 't' as u8, 'o' as u8]);
    match a {
        Auto::Value(n) => {
            lemma_render_num_chars(n);
            assert(s[0] != 'a' as u8);
            assert(spec_skip_ws(s, 0) == 0);
            let b = spec_ws_end(s, s.len() as int);
            assert(b == s.len()) by {
                assert(!is_ws(s[s.len() - 1]));
            };
            assert(s.subrange(0, s.len() as int) =~= s);
            assert(s != "auto".spec_bytes());
            lemma_num_round_trip(n);
        },
        _ => {
            assert(s == "auto".spec_bytes());
            assert(spec_skip_ws(s, 0) == 0);
            assert(spec_ws_end(s, s.len() as int) == s.len()) by {
                assert(!is_ws(s[s.len() - 1]));
            };
            assert(s.subrange(0, s.len() as int) =~= s);
        },
    }
}

impl Default for Auto {
    /// An absent attribute.
    fn default() -> (r: Auto)
        ensures
            r == Auto::Unset,
    {
        Auto::Unset
    }
}

} // verus!
