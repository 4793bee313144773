//! Typed attribute values: exact decimals, auto-or-value fields, keyword
//! enumerations, opacity bounds and documented defaults.

use svg_icon::children::common::dash_array::DashArray;
use svg_icon::children::common::dash_offset::DashOffset;
use svg_icon::children::common::line_cap::LineCap;
use svg_icon::children::common::line_join::LineJoin;
use svg_icon::children::common::miter_limit::MiterLimit;
use svg_icon::children::common::opacity::Opacity;
use svg_icon::children::path::command::Command;
use svg_icon::encode::EnCoding;
use svg_icon::num::Num;
use svg_icon::parser::{bool_flag, point, ErrorKind};
use svg_icon::value::Auto;

fn n(v: i64) -> Num {
    if v < 0 {
        Num::from_integer(true, (-v) as u64)
    } else {
        Num::from_integer(false, v as u64)
    }
}

#[test]
fn number_normalization() {
    assert_eq!(Num::from_text(b"10").unwrap(), n(10));
    assert_eq!(Num::from_text(b"10.0").unwrap(), n(10));
    assert_eq!(Num::from_text(b"1e1").unwrap(), n(10));
    assert_eq!(Num::from_text(b"+10").unwrap(), n(10));
    assert_eq!(Num::from_text(b"-80").unwrap(), n(-80));
    assert_eq!(
        Num::from_text(b"0.50").unwrap(),
        Num::from_text(b".5").unwrap()
    );
    assert_eq!(Num::from_text(b"-0.0").unwrap(), n(0));
    assert_eq!(Num::from_text(b" 12 ").unwrap(), n(12));
}

#[test]
fn number_rendering() {
    assert_eq!(Num::from_text(b"40.5").unwrap().to_text(), b"40.5".to_vec());
    assert_eq!(Num::from_text(b"-0.8").unwrap().to_text(), b"-0.8".to_vec());
    assert_eq!(Num::from_text(b"10.0").unwrap().to_text(), b"10".to_vec());
    assert_eq!(Num::from_text(b"2e3").unwrap().to_text(), b"2000".to_vec());
    assert_eq!(Num::from_text(b"5e-3").unwrap().to_text(), b"0.005".to_vec());
    assert_eq!(Num::from_text(b"0").unwrap().to_text(), b"0".to_vec());
}

#[test]
fn number_failures() {
    assert!(Num::from_text(b"").is_err());
    assert!(Num::from_text(b"abc").is_err());
    assert!(Num::from_text(b"1 2").is_err());
    assert!(Num::from_text(b"1e200").is_err());
    assert!(Num::from_text(b"99999999999999999999999").is_err());
}

#[test]
fn auto_or_value() {
    assert_eq!(Auto::from_str(b"auto").unwrap(), Auto::Auto);
    assert_eq!(Auto::from_str(b" auto ").unwrap(), Auto::Auto);
    assert_eq!(Auto::from_str(b"10").unwrap(), Auto::Value(n(10)));
    assert!(Auto::from_str(b"autox").is_err());
    assert_eq!(Auto::Auto.to_text(), b"auto".to_vec());
    assert_eq!(Auto::Unset.to_text(), b"auto".to_vec());
    assert_eq!(Auto::Value(n(10)).to_text(), b"10".to_vec());
    assert_eq!(Auto::default(), Auto::Unset);
}

#[test]
fn opacity_bounds() {
    assert!(Opacity::from_str(b"1.5").is_err());
    assert!(Opacity::from_str(b"-0.1").is_err());
    let o = Opacity::from_str(b"0").unwrap();
    assert_eq!(o.to_text(), b"0".to_vec());
    let o = Opacity::from_str(b"1").unwrap();
    assert_eq!(o.to_text(), b"1".to_vec());
    let o = Opacity::from_str(b"0.5").unwrap();
    assert_eq!(o.to_text(), b"0.5".to_vec());
    let o = Opacity::from_str(b"1.0").unwrap();
    assert_eq!(o.to_text(), b"1".to_vec());
    let o = Opacity::from_str(b"0.999").unwrap();
    assert_eq!(o.to_text(), b"0.999".to_vec());
}

#[test]
fn documented_defaults() {
    assert_eq!(LineCap::default().to_text(), b"butt".to_vec());
    assert_eq!(LineJoin::default().to_text(), b"miter".to_vec());
    assert_eq!(MiterLimit::default().to_text(), b"4".to_vec());
    assert_eq!(DashOffset::default().to_text(), b"0".to_vec());
    assert_eq!(Opacity::default().to_text(), b"1".to_vec());
    assert_eq!(DashArray::default().to_text(), b"".to_vec());
}

#[test]
fn line_cap_keywords() {
    assert_eq!(LineCap::from_str(b"butt").unwrap(), LineCap::Butt);
    assert_eq!(LineCap::from_str(b"round").unwrap(), LineCap::Round);
    assert_eq!(LineCap::from_str(b"square").unwrap(), LineCap::Square);
    assert!(LineCap::from_str(b"rounded").is_err());
    assert!(LineCap::from_str(b"Butt").is_err());
}

#[test]
fn line_join_keywords() {
    assert_eq!(LineJoin::from_str(b"arcs").unwrap(), LineJoin::Arcs);
    assert_eq!(LineJoin::from_str(b"miter").unwrap(), LineJoin::Miter);
    assert_eq!(LineJoin::from_str(b"round").unwrap(), LineJoin::Round);
    assert_eq!(LineJoin::from_str(b"bevel").unwrap(), LineJoin::Bevel);
    assert_eq!(
        LineJoin::from_str(b"miter-clip").unwrap(),
        LineJoin::MiterClip
    );
    assert!(LineJoin::from_str(b"none").is_err());
}

#[test]
fn dash_array_lists() {
    let d = DashArray::from_str(b"1 2.5 3").unwrap();
    assert_eq!(d.0.len(), 3);
    assert_eq!(d.to_text(), b"1 2.5 3".to_vec());
    let d = DashArray::from_str(b"").unwrap();
    assert_eq!(d.0.len(), 0);
    assert_eq!(d.to_text(), b"".to_vec());
    let d = DashArray::from_str(b"  4  ").unwrap();
    assert_eq!(d.to_text(), b"4".to_vec());
    assert!(DashArray::from_str(b"1,2").is_err());
    assert!(DashArray::from_str(b"1 x").is_err());
}

#[test]
fn encoding_names() {
    assert_eq!(EnCoding::from_str(b"UTF-8").to_text(), b"UTF-8".to_vec());
    assert_eq!(EnCoding::from_str(b"SJIS").to_text(), b"SJIS".to_vec());
    assert_eq!(EnCoding::from_str(b"KOI8-R").to_text(), b"KOI8-R".to_vec());
    // an unknown encoding is kept verbatim, never refused
    assert_eq!(EnCoding::from_str(b"X-FUTURE").to_text(), b"X-FUTURE".to_vec());
    assert_eq!(EnCoding::default().to_text(), b"UTF-8".to_vec());
}

#[test]
fn error_kinds() {
    assert_eq!(Num::from_text(b"abc").unwrap_err().kind, ErrorKind::Number);
    assert_eq!(Num::from_text(b"1e200").unwrap_err().kind, ErrorKind::NumberTooLarge);
    assert_eq!(bool_flag(b"x", 0).unwrap_err().kind, ErrorKind::Flag);
    assert_eq!(point(b"5x5", 0).unwrap_err().kind, ErrorKind::Tag);
    assert_eq!(Command::from_str(b"X 1,2", 0).unwrap_err().kind, ErrorKind::CommandLetter);
    assert_eq!(LineCap::from_str(b"fancy").unwrap_err().kind, ErrorKind::Keyword);
    assert_eq!(Opacity::from_str(b"1.5").unwrap_err().kind, ErrorKind::Range);
}
