//! The path element and the path-data mini-language: ten drawing command
//! families, each with an absolute (uppercase) and a relative (lowercase)
//! letter form, parsed into a tagged command tree and rendered back to
//! canonical text.

pub mod close_path;
pub mod command;
pub mod cubic_bezier;
pub mod elliptical_arc;
pub mod line_to;
pub mod move_to;
pub mod quadratic_bezier;

use vstd::prelude::*;

use vstd::string::StringSliceAdditionalSpecFns;

use super::common::{spec_common_from, spec_others, CommonKVs, CommonKVsView};
use crate::parser::{
    lookup, push_attr, push_slice, spec_attr, spec_lookup, spec_parse_properties, ParseError,
};
use command::Command;

verus! {

/// A path element: the shared attributes and the drawing command of its
/// `d` attribute, when one is present.
#[derive(Debug, Clone)]
pub struct Path {
    pub common: CommonKVs,
    pub d: Option<Command>,
}

/// The mathematical shadow of `Path`.
pub struct PathView {
    pub common: CommonKVsView,
    pub d: Option<Command>,
}

impl View for Path {
    type V = PathView;

    open spec fn view(&self) -> PathView {
        PathView { common: self.common@, d: self.d }
    }
}

/// A path's attribute list: the common keys, then the leading drawing
/// command of the `d` value; text after that command is ignored.
pub open spec fn spec_parse_path(s: Seq<u8>, i: int) -> Option<(PathView, int)> {
    let (kvs, e) = spec_parse_properties(s, i);
    match spec_common_from(kvs) {
        Some(cv) => {
            let others = spec_others(kvs);
            match spec_lookup(others, "d".spec_bytes()) {
                None => Some((PathView { common: cv, d: None }, e)),
                Some(v) => match Command::spec_parse(v, 0) {
                    Some((c, _end)) => Some((PathView { common: cv, d: Some(c) }, e)),
                    None => None,
                },
            }
        },
        None => None,
    }
}

impl Path {
    pub open spec fn wf(self) -> bool {
        &&& self.common.wf()
        &&& (self.d matches Some(c) ==> c.wf())
    }

    /// Reads a path's attributes, exactly as `spec_parse_path` describes.
    #[verifier::rlimit(100)]
    #[verifier::spinoff_prover]
    pub fn from_str(s: &[u8], i: usize) -> (r: Result<(Path, usize), ParseError>)
        requires
            i <= s@.len(),
        ensures
            r matches Ok((p, e)) ==> spec_parse_path(s@, i as int) == Some((p@, e as int))
                && p.wf() && i <= e <= s@.len(),
            r is Err <==> spec_parse_path(s@, i as int) is None,
    {
        let ((common, others), e) = match CommonKVs::from_str(s, i) {
            Ok(v) => v,
            Err(er) => {
                return Err(er);
            },
        };
        let d = match lookup(&others, "d".as_bytes()) {
            Some(v) => match Command::from_str(v.as_slice(), 0) {
                Ok((c, _end)) => Some(c),
                Err(er) => {
                    return Err(er);
                },
            },
            None => None,
        };
        Ok((Path { common, d }, e))
    }

    /// `<path d=".." ..common.. />`; an absent command renders an empty
    /// `d` value.
    pub open spec fn spec_render(self) -> Seq<u8> {
        "<path ".spec_bytes() + spec_attr(
            "d".spec_bytes(),
            match self.d {
                Some(c) => c.spec_render(),
                None => Seq::empty(),
            },
        ) + self.common.spec_render() + "/>".spec_bytes()
    }

    /// Renders the element, exactly as `spec_render` describes.
    pub fn to_text(&self) -> (r: Vec<u8>)
        requires
            self.wf(),
        ensures
            r@ == self.spec_render(),
    {
        let mut out: Vec<u8> = Vec::new();
        push_slice(&mut out, "<path ".as_bytes());
        let dt: Vec<u8> = match &self.d {
            Some(c) => c.to_text(),
            None => Vec::new(),
        };
        push_attr(&mut out, "d".as_bytes(), dt.as_slice());
        let mut c = self.common.to_text();
        out.append(&mut c);
        push_slice(&mut out, "/>".as_bytes());
        proof {
            assert(out@ =~= self.spec_render());
        }
        out
    }
}

} // verus!
