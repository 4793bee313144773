//! The document header: `<?xml version="..." encoding="..."?>`.

use vstd::prelude::*;

use vstd::string::StringSliceAdditionalSpecFns;

use crate::encode::{spec_parse_encoding, spec_render_encoding, EnCoding, EnCodingView};
use crate::parser::{
    kvs_view, lookup, match_at, parse_properties, push_slice, skip_ws, spec_lookup,
    spec_match_at, spec_parse_properties, spec_skip_ws, ErrorKind, ParseError,
};

verus! {

/// A parsed document header; both attributes are optional.
#[derive(Debug, Clone)]
pub struct Header {
    pub version: Option<Vec<u8>>,
    pub encoding: Option<EnCoding>,
}

/// The mathematical shadow of `Header`.
pub struct HeaderView {
    pub version: Option<Seq<u8>>,
    pub encoding: Option<EnCodingView>,
}

impl View for Header {
    type V = HeaderView;

    open spec fn view(&self) -> HeaderView {
        HeaderView {
            version: match self.version {
                Some(v) => Some(v@),
                None => None,
            },
            encoding: match self.encoding {
                Some(e) => Some(e@),
                None => None,
            },
        }
    }
}

/// A header: `<?xml`, an attribute list, `?>`.  Only the `version` and
/// `encoding` keys are kept; on duplicates the later one wins, and other
/// keys are ignored.
pub open spec fn spec_parse_header(s: Seq<u8>, i: int) -> Option<(HeaderView, int)> {
    let j = spec_skip_ws(s, i);
    if spec_match_at(s, j, "<?xml".spec_bytes()) {
        let (kvs, e) = spec_parse_properties(s, j + "<?xml".spec_bytes().len());
        let e2 = spec_skip_ws(s, e);
        if spec_match_at(s, e2, "?>".spec_bytes()) {
            Some(
                (
                    HeaderView {
                        version: spec_lookup(kvs, "version".spec_bytes()),
                        encoding: match spec_lookup(kvs, "encoding".spec_bytes()) {
                            Some(v) => Some(spec_parse_encoding(v)),
                            None => None,
                        },
                    },
                    e2 + "?>".spec_bytes().len(),
                ),
            )
        } else {
            None
        }
    } else {
        None
    }
}

impl Header {
    /// Reads a header, exactly as `spec_parse_header` describes.
    pub fn from_str(s: &[u8], i: usize) -> (r: Result<(Header, usize), ParseError>)
        requires
            i <= s@.len(),
        ensures
            r matches Ok((h, e)) ==> spec_parse_header(s@, i as int) == Some((h@, e as int))
                && e <= s@.len(),
            r is Err <==> spec_parse_header(s@, i as int) is None,
    {
        let n = s.len();
        proof {
            assert(n == s@.len());
        }
        let j = skip_ws(s, i);
        let open_tag = "<?xml".as_bytes();
        if !match_at(s, j, open_tag) {
            return Err(ParseError { kind: ErrorKind::Tag, pos: j });
        }
        let (kvs, e) = parse_properties(s, j + open_tag.len());
        let e2 = skip_ws(s, e);
        let close_tag = "?>".as_bytes();
        if !match_at(s, e2, close_tag) {
            return Err(ParseError { kind: ErrorKind::Tag, pos: e2 });
        }
        let version = match lookup(&kvs, "version".as_bytes()) {
            Some(v) => Some(crate::parser::copy_range(v.as_slice(), 0, v.len())),
            None => None,
        };
        let encoding = match lookup(&kvs, "encoding".as_bytes()) {
            Some(v) => Some(EnCoding::from_str(v.as_slice())),
            None => None,
        };
        proof {
            if let Some(v) = spec_lookup(kvs_view(kvs@), "version".spec_bytes()) {
                assert(v.subrange(0, v.len() as int) =~= v);
            }
        }
        Ok((Header { version, encoding }, e2 + close_tag.len()))
    }

    /// The canonical header text, with the documented defaults for absent
    /// attributes: version `1.0` and the default encoding.
    pub open spec fn spec_render(self) -> Seq<u8> {
        "<?xml version=\"".spec_bytes() + (match self@.version {
            Some(v) => v,
            None => "1.0".spec_bytes(),
        }) + "\" encoding=\"".spec_bytes() + spec_render_encoding(
            match self@.encoding {
                Some(e) => e,
                None => EnCodingView::UTF8,
            },
        ) + "\"?>".spec_bytes()
    }

    /// Renders the header, exactly as `spec_render` describes.
    pub fn to_text(&self) -> (r: Vec<u8>)
        ensures
            r@ == self.spec_render(),
    {
        let mut out: Vec<u8> = Vec::new();
        push_slice(&mut out, "<?xml version=\"".as_bytes());
        match &self.version {
            Some(v) => push_slice(&mut out, v.as_slice()),
            None => push_slice(&mut out, "1.0".as_bytes()),
        }
        push_slice(&mut out, "\" encoding=\"".as_bytes());
        let enc_text = match &self.encoding {
            Some(e) => e.to_text(),
            None => EnCoding::UTF8.to_text(),
        };
        push_slice(&mut out, enc_text.as_slice());
        push_slice(&mut out, "\"?>".as_bytes());
        proof {
            assert(out@ =~= self.spec_render());
        }
        out
    }
}

} // verus!
