//! The path-data mini-language: single commands, sequences, and the
//! serialize-then-parse round trip.

use svg_icon::children::path::close_path::Z;
use svg_icon::children::path::command::{parse_commands, render_commands, Command};
use svg_icon::children::path::cubic_bezier::{CubicBezier, C, S};
use svg_icon::children::path::elliptical_arc::A;
use svg_icon::children::path::line_to::{LineTo, H, L, V};
use svg_icon::children::path::move_to::M;
use svg_icon::children::path::quadratic_bezier::{QuadraticBezier, Q, T};
use svg_icon::num::Num;

fn n(v: i64) -> Num {
    if v < 0 {
        Num::from_integer(true, (-v) as u64)
    } else {
        Num::from_integer(false, v as u64)
    }
}

#[test]
fn test_close() {
    let s = b"Z";
    assert_eq!(Z::from_str(s, 0), Ok((Z(false), 1)));
    let s = b"z";
    assert_eq!(Z::from_str(s, 0), Ok((Z(true), 1)));
}

#[test]
fn test1() {
    let s = b"M 10 10";
    assert_eq!(
        Command::from_str(s, 0),
        Ok((
            Command::MoveTo(M {
                x: n(10),
                y: n(10),
                relative: false,
            }),
            s.len()
        ))
    );
}

#[test]
fn test_full() {
    let s = b"M 10 10 L 20 20 C 30 30 40 40 50 50 Q 60 60 70 70 A 80 80 90 0 1 100 100 Z";
    let (cs, pos) = parse_commands(s, 0);
    assert_eq!(pos, s.len());
    assert_eq!(cs.len(), 6);
    assert!(matches!(cs[0], Command::MoveTo(_)));
    assert!(matches!(cs[1], Command::LineTo(_)));
    assert!(matches!(cs[2], Command::CubicBezier(_)));
    assert!(matches!(cs[3], Command::QuadraticBezier(_)));
    assert!(matches!(cs[4], Command::EllipticalArc(_)));
    assert!(matches!(cs[5], Command::ClosePath(_)));
}

#[test]
fn test_cubic_bezier() {
    let s = b"c 20,0 15,-80 40,-80 s 20,80 40,80";
    let (first, p1) = CubicBezier::from_str(s, 0).unwrap();
    assert!(matches!(first, CubicBezier::C(_)));
    let (second, p2) = CubicBezier::from_str(s, p1).unwrap();
    assert!(matches!(second, CubicBezier::S(_)));
    assert_eq!(p2, s.len());
}

#[test]
fn test_c() {
    let s = b"c 10 10 20 20 30 30";
    assert_eq!(
        C::from_str(s, 0),
        Ok((
            C {
                x1: n(10),
                y1: n(10),
                x2: n(20),
                y2: n(20),
                x: n(30),
                y: n(30),
                relative: true,
            },
            s.len()
        ))
    );
    let s = b"C 10,10 20,20 30,30";
    assert_eq!(
        C::from_str(s, 0),
        Ok((
            C {
                x1: n(10),
                y1: n(10),
                x2: n(20),
                y2: n(20),
                x: n(30),
                y: n(30),
                relative: false,
            },
            s.len()
        ))
    );
}

#[test]
fn test_s() {
    let s = b"s 10 10 20 20";
    assert_eq!(
        S::from_str(s, 0),
        Ok((
            S {
                x2: n(10),
                y2: n(10),
                x: n(20),
                y: n(20),
                relative: true,
            },
            s.len()
        ))
    );
    let s = b"S 10,10 20,20";
    assert_eq!(
        S::from_str(s, 0),
        Ok((
            S {
                x2: n(10),
                y2: n(10),
                x: n(20),
                y: n(20),
                relative: false,
            },
            s.len()
        ))
    );
}

#[test]
fn test_a() {
    let s = b"A 5 5 0 0 1 10 10";
    assert_eq!(
        A::from_str(s, 0),
        Ok((
            A {
                rx: n(5),
                ry: n(5),
                angle: n(0),
                large_arc_flag: false,
                sweep_flag: true,
                x: n(10),
                y: n(10),
                relative: false,
            },
            s.len()
        ))
    );
    let s = b"A 6 4 10 0 1 14,10";
    assert_eq!(
        A::from_str(s, 0),
        Ok((
            A {
                rx: n(6),
                ry: n(4),
                angle: n(10),
                large_arc_flag: false,
                sweep_flag: true,
                x: n(14),
                y: n(10),
                relative: false,
            },
            s.len()
        ))
    );
}

#[test]
fn test_line_to() {
    let s = b"L 90,90 V 10 H 50";
    let (first, p1) = LineTo::from_str(s, 0).unwrap();
    assert!(matches!(first, LineTo::L(_)));
    let (second, p2) = LineTo::from_str(s, p1).unwrap();
    assert!(matches!(second, LineTo::V(_)));
    let (third, p3) = LineTo::from_str(s, p2).unwrap();
    assert!(matches!(third, LineTo::H(_)));
    assert_eq!(p3, s.len());
}

#[test]
fn test_v() {
    let s = b"V 10";
    assert_eq!(
        V::from_str(s, 0),
        Ok((
            V {
                y: n(10),
                relative: false,
            },
            s.len()
        ))
    );
    let s = b"v -10";
    assert_eq!(
        V::from_str(s, 0),
        Ok((
            V {
                y: n(-10),
                relative: true,
            },
            s.len()
        ))
    );
}

#[test]
fn test_h() {
    let s = b"H 10";
    assert_eq!(
        H::from_str(s, 0),
        Ok((
            H {
                x: n(10),
                relative: false,
            },
            s.len()
        ))
    );
    let s = b"h -10";
    assert_eq!(
        H::from_str(s, 0),
        Ok((
            H {
                x: n(-10),
                relative: true,
            },
            s.len()
        ))
    );
}

#[test]
fn test_l() {
    let s = b"L10 20";
    assert_eq!(
        L::from_str(s, 0),
        Ok((
            L {
                x: n(10),
                y: n(20),
                relative: false,
            },
            s.len()
        ))
    );
    let s = b"l -10,20";
    assert_eq!(
        L::from_str(s, 0),
        Ok((
            L {
                x: n(-10),
                y: n(20),
                relative: true,
            },
            s.len()
        ))
    );
}

#[test]
fn test_move_to() {
    let s = b"M 10,20 l 80, 80";
    let (m, pos) = M::from_str(s, 0).unwrap();
    assert_eq!(
        m,
        M {
            x: n(10),
            y: n(20),
            relative: false,
        }
    );
    assert_eq!(&s[pos..], b"l 80, 80");
    let s = b"m 10,20";
    assert_eq!(
        M::from_str(s, 0),
        Ok((
            M {
                x: n(10),
                y: n(20),
                relative: true,
            },
            s.len()
        ))
    );
    let s = b"M 10 20";
    let (m, _) = M::from_str(s, 0).unwrap();
    assert_eq!(m.to_text(), b"M 10,20".to_vec());
}

#[test]
fn test_q() {
    let s = b"Q 5 5 10 10";
    assert_eq!(
        Q::from_str(s, 0),
        Ok((
            Q {
                x1: n(5),
                y1: n(5),
                x: n(10),
                y: n(10),
                relative: false,
            },
            s.len()
        ))
    );
    let s = b"q 25,25 40,50";
    assert_eq!(
        Q::from_str(s, 0),
        Ok((
            Q {
                x1: n(25),
                y1: n(25),
                x: n(40),
                y: n(50),
                relative: true,
            },
            s.len()
        ))
    );
}

#[test]
fn test_t() {
    let s = b"t 10 10";
    assert_eq!(
        T::from_str(s, 0),
        Ok((
            T {
                x: n(10),
                y: n(10),
                relative: true,
            },
            s.len()
        ))
    );
}

fn round_trip(text: &[u8]) {
    let (c, pos) = Command::from_str(text, 0).unwrap();
    assert_eq!(pos, text.len());
    let rendered = c.to_text();
    let (c2, pos2) = Command::from_str(rendered.as_slice(), 0).unwrap();
    assert_eq!(pos2, rendered.len());
    assert_eq!(c2, c);
}

#[test]
fn test_round_trip_each_command() {
    round_trip(b"M 10,10");
    round_trip(b"m 10,10");
    round_trip(b"L 90,90");
    round_trip(b"H 10");
    round_trip(b"V -10");
    round_trip(b"c 10,10 20,20 30,30");
    round_trip(b"C 10,10 20,20 30,30");
    round_trip(b"S 10,10 20,20");
    round_trip(b"Q 5,5 10,10");
    round_trip(b"T 10,10");
    round_trip(b"A 5,5 0 0 1 10,10");
    round_trip(b"Z");
    round_trip(b"z");
}

#[test]
fn test_close_renders_case() {
    let (z, _) = Z::from_str(b"z", 0).unwrap();
    assert_eq!(z.to_text(), b"z".to_vec());
    let (z, _) = Z::from_str(b"Z", 0).unwrap();
    assert_eq!(z.to_text(), b"Z".to_vec());
}

#[test]
fn test_sequence_round_trip() {
    let s = b"M 10 10 L 20 20 C 30 30 40 40 50 50 Q 60 60 70 70 A 80 80 90 0 1 100 100 Z";
    let (cs, pos) = parse_commands(s, 0);
    assert_eq!(pos, s.len());
    let rendered = render_commands(&cs);
    assert_eq!(
        rendered,
        b"M 10,10 L 20,20 C 30,30 40,40 50,50 Q 60,60 70,70 A 80 80 90 0 1 100,100 Z".to_vec()
    );
    let (cs2, pos2) = parse_commands(rendered.as_slice(), 0);
    assert_eq!(pos2, rendered.len());
    assert_eq!(cs2, cs);
}

#[test]
fn test_fractional_and_exponent_coordinates() {
    let s = b"L 1.5,-0.25";
    let (c, pos) = Command::from_str(s, 0).unwrap();
    assert_eq!(pos, s.len());
    assert_eq!(c.to_text(), b"L 1.5,-0.25".to_vec());
    let s = b"H 2e3";
    let (c, pos) = Command::from_str(s, 0).unwrap();
    assert_eq!(pos, s.len());
    assert_eq!(c.to_text(), b"H 2000".to_vec());
}

#[test]
fn test_command_letter_failure() {
    assert!(Command::from_str(b"X 1,2", 0).is_err());
    assert!(M::from_str(b"M 10", 0).is_err());
    assert!(A::from_str(b"A 5 5 0 2 1 10 10", 0).is_err());
}
