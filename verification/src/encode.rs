//! The text-encoding family of the document header.
//!
//! Unlike the closed keyword enumerations, this family is open-ended by
//! design: text that matches no known encoding is not a failure but is kept
//! verbatim, so that documents naming new encodings still reproduce
//! unchanged.

use vstd::prelude::*;

use vstd::string::StringSliceAdditionalSpecFns;

use crate::parser::{bytes_eq, copy_range};

verus! {

/// A text encoding named by a document header.
#[derive(Debug, Clone)]
pub enum EnCoding {
    UTF8,
    UTF16,
    UTF32,
    ASCII,
    ISO8859,
    ISO2022,
    EUCJP,
    SJIS,
    GB2312,
    BIG5,
    KOI8R,
    KOI8U,
    /// An encoding this crate does not know, kept verbatim.
    UNKNOWN(Vec<u8>),
}

/// The mathematical shadow of `EnCoding`: the unknown text as a sequence.
pub enum EnCodingView {
    UTF8,
    UTF16,
    UTF32,
    ASCII,
    ISO8859,
    ISO2022,
    EUCJP,
    SJIS,
    GB2312,
    BIG5,
    KOI8R,
    KOI8U,
    UNKNOWN(Seq<u8>),
}

impl View for EnCoding {
    type V = EnCodingView;

    open spec fn view(&self) -> EnCodingView {
        match self {
            EnCoding::UTF8 => EnCodingView::UTF8,
            EnCoding::UTF16 => EnCodingView::UTF16,
            EnCoding::UTF32 => EnCodingView::UTF32,
            EnCoding::ASCII => EnCodingView::ASCII,
            EnCoding::ISO8859 => EnCodingView::ISO8859,
            EnCoding::ISO2022 => EnCodingView::ISO2022,
            EnCoding::EUCJP => EnCodingView::EUCJP,
            EnCoding::SJIS => EnCodingView::SJIS,
            EnCoding::GB2312 => EnCodingView::GB2312,
            EnCoding::BIG5 => EnCodingView::BIG5,
            EnCoding::KOI8R => EnCodingView::KOI8R,
            EnCoding::KOI8U => EnCodingView::KOI8U,
            EnCoding::UNKNOWN(v) => EnCodingView::UNKNOWN(v@),
        }
    }
}

/// The known encoding names, matched exactly; anything else becomes the
/// verbatim unknown variant, never a failure.
pub open spec fn spec_parse_encoding(s: Seq<u8>) -> EnCodingView {
    if s == "UTF-8".spec_bytes() {
        EnCodingView::UTF8
    } else if s == "UTF-16".spec_bytes() {
        EnCodingView::UTF16
    } else if s == "UTF-32".spec_bytes() {
        EnCodingView::UTF32
    } else if s == "ASCII".spec_bytes() {
        EnCodingView::ASCII
    } else if s == "ISO-8859".spec_bytes() {
        EnCodingView::ISO8859
    } else if s == "ISO-2022".spec_bytes() {
        EnCodingView::ISO2022
    } else if s == "EUC-JP".spec_bytes() {
        EnCodingView::EUCJP
    } else if s == "SJIS".spec_bytes() {
        EnCodingView::SJIS
    } else if s == "GB2312".spec_bytes() {
        EnCodingView::GB2312
    } else if s == "BIG5".spec_bytes() {
        EnCodingView::BIG5
    } else if s == "KOI8-R".spec_bytes() {
        EnCodingView::KOI8R
    } else if s == "KOI8-U".spec_bytes() {
        EnCodingView::KOI8U
    } else {
        EnCodingView::UNKNOWN(s)
    }
}

/// The canonical text of an encoding: its name, or the unknown text
/// verbatim.
pub open spec fn spec_render_encoding(v: EnCodingView) -> Seq<u8> {
    match v {
        EnCodingView::UTF8 => "UTF-8".spec_bytes(),
        EnCodingView::UTF16 => "UTF-16".spec_bytes(),
        EnCodingView::UTF32 => "UTF-32".spec_bytes(),
        EnCodingView::ASCII => "ASCII".spec_bytes(),
        EnCodingView::ISO8859 => "ISO-8859".spec_bytes(),
        EnCodingView::ISO2022 => "ISO-2022".spec_bytes(),
        EnCodingView::EUCJP => "EUC-JP".spec_bytes(),
        EnCodingView::SJIS => "SJIS".spec_bytes(),
        EnCodingView::GB2312 => "GB2312".spec_bytes(),
        EnCodingView::BIG5 => "BIG5".spec_bytes(),
        EnCodingView::KOI8R => "KOI8-R".spec_bytes(),
        EnCodingView::KOI8U => "KOI8-U".spec_bytes(),
        EnCodingView::UNKNOWN(t) => t,
    }
}

impl EnCoding {
    /// Reads an encoding name, exactly as `spec_parse_encoding` describes;
    /// no input is refused.
    pub fn from_str(s: &[u8]) -> (r: EnCoding)
        ensures
            r@ == spec_parse_encoding(s@),
    {
        if bytes_eq(s, "UTF-8".as_bytes()) {
            EnCoding::UTF8
        } else if bytes_eq(s, "UTF-16".as_bytes()) {
            EnCoding::UTF16
        } else if bytes_eq(s, "UTF-32".as_bytes()) {
            EnCoding::UTF32
        } else if bytes_eq(s, "ASCII".as_bytes()) {
            EnCoding::ASCII
        } else if bytes_eq(s, "ISO-8859".as_bytes()) {
            EnCoding::ISO8859
        } else if bytes_eq(s, "ISO-2022".as_bytes()) {
            EnCoding::ISO2022
        } else if bytes_eq(s, "EUC-JP".as_bytes()) {
            EnCoding::EUCJP
        } else if bytes_eq(s, "SJIS".as_bytes()) {
            EnCoding::SJIS
        } else if bytes_eq(s, "GB2312".as_bytes()) {
            EnCoding::GB2312
        } else if bytes_eq(s, "BIG5".as_bytes()) {
            EnCoding::BIG5
        } else if bytes_eq(s, "KOI8-R".as_bytes()) {
            EnCoding::KOI8R
        } else if bytes_eq(s, "KOI8-U".as_bytes()) {
            EnCoding::KOI8U
        } else {
            let v = copy_range(s, 0, s.len());
            proof {
                assert(s@.subrange(0, s@.len() as int) =~= s@);
            }
            EnCoding::UNKNOWN(v)
        }
    }

    /// Renders the name, exactly as `spec_render_encoding` describes.
    pub fn to_text(&self) -> (r: Vec<u8>)
        ensures
            r@ == spec_render_encoding(self@),
    {
        match self {
            EnCoding::UTF8 => {
                let lit = "UTF-8".as_bytes();
                copy_range(lit, 0, lit.len())
            },
            EnCoding::UTF16 => {
                let lit = "UTF-16".as_bytes();
                copy_range(lit, 0, lit.len())
            },
            EnCoding::UTF32 => {
                let lit = "UTF-32".as_bytes();
                copy_range(lit, 0, lit.len())
            },
            EnCoding::ASCII => {
                let lit = "ASCII".as_bytes();
                copy_range(lit, 0, lit.len())
            },
            EnCoding::ISO8859 => {
                let lit = "ISO-8859".as_bytes();
                copy_range(lit, 0, lit.len())
            },
            EnCoding::ISO2022 => {
                let lit = "ISO-2022".as_bytes();
                copy_range(lit, 0, lit.len())
            },
            EnCoding::EUCJP => {
                let lit = "EUC-JP".as_bytes();
                copy_range(lit, 0, lit.len())
            },
            EnCoding::SJIS => {
                let lit = "SJIS".as_bytes();
                copy_range(lit, 0, lit.len())
            },
            EnCoding::GB2312 => {
                let lit = "GB2312".as_bytes();
                copy_range(lit, 0, lit.len())
            },
            EnCoding::BIG5 => {
                let lit = "BIG5".as_bytes();
                copy_range(lit, 0, lit.len())
            },
            EnCoding::KOI8R => {
                let lit = "KOI8-R".as_bytes();
                copy_range(lit, 0, lit.len())
            },
            EnCoding::KOI8U => {
                let lit = "KOI8-U".as_bytes();
                copy_range(lit, 0, lit.len())
            },
            EnCoding::UNKNOWN(v) => copy_range(v.as_slice(), 0, v.len()),
        }
    }
}

impl Default for EnCoding {
    /// The documented default encoding.
    fn default() -> (r: EnCoding)
        ensures
            r@ == EnCodingView::UTF8,
    {
        EnCoding::UTF8
    }
}

} // verus!
