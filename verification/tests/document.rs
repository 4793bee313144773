//! Whole documents: attribute lists, headers, elements and the root tag.

use svg_icon::children::Child;
use svg_icon::header::Header;
use svg_icon::num::Num;
use svg_icon::parser::{lookup, parse_properties, parse_property, parse_string};
use svg_icon::value::Auto;
use svg_icon::Svg;

fn n(v: i64) -> Num {
    if v < 0 {
        Num::from_integer(true, (-v) as u64)
    } else {
        Num::from_integer(false, v as u64)
    }
}

#[test]
fn properties_last_wins() {
    let s = b"a=\"1\" b=\"2\" a=\"3\"";
    let (kvs, pos) = parse_properties(s, 0);
    assert_eq!(pos, s.len());
    assert_eq!(kvs.len(), 3);
    assert_eq!(lookup(&kvs, b"a").unwrap().as_slice(), b"3");
    assert_eq!(lookup(&kvs, b"b").unwrap().as_slice(), b"2");
    assert!(lookup(&kvs, b"c").is_none());
}

#[test]
fn properties_stop_at_junk() {
    let s = b"a=\"1\" !junk";
    let (kvs, pos) = parse_properties(s, 0);
    assert_eq!(kvs.len(), 1);
    assert_eq!(&s[pos..], b"!junk");
}

#[test]
fn property_needs_tight_equals() {
    assert!(parse_property(b"a =\"1\"", 0).is_none());
    assert!(parse_property(b"a= \"1\"", 0).is_none());
    let ((k, v), pos) = parse_property(b"stroke-width=\"4\"", 0).unwrap();
    assert_eq!(k.as_slice(), b"stroke-width");
    assert_eq!(v.as_slice(), b"4");
    assert_eq!(pos, 16);
}

#[test]
fn quoted_string_needs_closing_quote() {
    assert!(parse_string(b"\"abc", 0).is_none());
    let (v, pos) = parse_string(b"\"\"", 0).unwrap();
    assert_eq!(v.len(), 0);
    assert_eq!(pos, 2);
}

#[test]
fn header_parse_and_render() {
    let s = b"<?xml version=\"1.0\" encoding=\"UTF-8\"?>";
    let (h, pos) = Header::from_str(s, 0).unwrap();
    assert_eq!(pos, s.len());
    assert_eq!(h.version.as_ref().unwrap().as_slice(), b"1.0");
    assert_eq!(h.to_text(), s.to_vec());
}

#[test]
fn header_renders_defaults() {
    let h = Header {
        version: None,
        encoding: None,
    };
    assert_eq!(
        h.to_text(),
        b"<?xml version=\"1.0\" encoding=\"UTF-8\"?>".to_vec()
    );
}

#[test]
fn child_element_parses() {
    let s = b"<circle cx=\"5\" cy=\"6\" r=\"7\" /> rest";
    let (c, pos) = Child::parse_single(s, 0).unwrap();
    match c {
        Child::Circle(circle) => {
            assert_eq!(circle.cx, Some(n(5)));
            assert_eq!(circle.cy, Some(n(6)));
            assert_eq!(circle.r, Some(n(7)));
            assert_eq!(
                circle.to_text(),
                b"<circle cx=\"5\" cy=\"6\" r=\"7\" />".to_vec()
            );
        },
        _ => panic!("expected a circle"),
    }
    assert_eq!(&s[pos..], b"rest");
}

#[test]
fn svg_minimal_document() {
    let s = b"<svg xmlns=\"http://www.w3.org/2000/svg\" width=\"100\" height=\"100\" viewBox=\"0 0 100 100\" fill=\"none\"></svg>";
    let svg = Svg::from_str(s).unwrap();
    assert_eq!(svg.fill.as_slice(), b"none");
    assert_eq!(svg.xmlns.as_slice(), b"http://www.w3.org/2000/svg");
    assert_eq!(svg.width, Auto::Value(n(100)));
    assert_eq!(svg.height, Auto::Value(n(100)));
    assert_eq!(svg.view_box, Some((0, 0, 100, 100)));
    assert_eq!(svg.children.len(), 0);
    assert!(svg.header.is_none());
}

#[test]
fn svg_document_with_children() {
    let s = b"<?xml version=\"1.0\" encoding=\"UTF-8\"?><svg width=\"24\" height=\"24\" viewBox=\"0 0 48 48\" fill=\"none\" xmlns=\"http://www.w3.org/2000/svg\"><path d=\"M24 19V4\" stroke=\"#008000\" stroke-width=\"4\" stroke-linecap=\"round\" stroke-linejoin=\"round\"/><path d=\"M12 22L24 19L36 16\" stroke=\"#008000\" stroke-width=\"4\" stroke-linecap=\"round\" stroke-linejoin=\"round\"/></svg>";
    let svg = Svg::from_str(s).unwrap();
    assert!(svg.header.is_some());
    assert_eq!(svg.children.len(), 2);
    assert!(matches!(svg.children[0], Child::Path(_)));
    // the rendered document parses again to the same shape
    let rendered = svg.to_text();
    let svg2 = Svg::from_str(rendered.as_slice()).unwrap();
    assert_eq!(svg2.children.len(), 2);
    assert_eq!(svg2.view_box, svg.view_box);
    assert_eq!(svg2.to_text(), rendered);
}

#[test]
fn svg_rejects_bad_documents() {
    // empty root tag text and unclosed root are reported failures
    assert!(Svg::from_str(b"<svg >").is_err());
    assert!(Svg::from_str(b"<svg fill=\"none\">").is_err());
    assert!(Svg::from_str(b"plain text").is_err());
    // a malformed number inside an attribute must not be absorbed
    assert!(Svg::from_str(b"<svg x=\"abc\" fill=\"none\"></svg>").is_err());
    // opacity out of bounds is a hard failure
    assert!(Svg::from_str(b"<svg fill=\"none\"><path stroke-opacity=\"1.5\" /></svg>").is_err());
}

#[test]
fn svg_trailing_text_is_refused() {
    assert!(Svg::from_str(b"<svg fill=\"none\"></svg> junk").is_err());
    assert!(Svg::from_str(b"<svg fill=\"none\"></svg>  ").is_ok());
}

#[test]
fn viewbox_u32_bounds() {
    let s = b"<svg fill=\"none\" viewBox=\"0 0 +10 4294967295\"></svg>";
    let svg = Svg::from_str(s).unwrap();
    assert_eq!(svg.view_box, Some((0, 0, 10, 4294967295)));
    // one more than the largest 32-bit value must be refused
    let s = b"<svg fill=\"none\" viewBox=\"0 0 10 4294967296\"></svg>";
    assert!(Svg::from_str(s).is_err());
    // a fifth token is ignored, three tokens are too few
    let s = b"<svg fill=\"none\" viewBox=\"1 2 3 4 junk\"></svg>";
    assert_eq!(Svg::from_str(s).unwrap().view_box, Some((1, 2, 3, 4)));
    let s = b"<svg fill=\"none\" viewBox=\"1 2 3\"></svg>";
    assert!(Svg::from_str(s).is_err());
}
