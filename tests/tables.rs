use fso_tables::binder::{consume_string, consume_variant, parse_field, parse_optional, parse_repeated};
use fso_tables::{Curve, CurveKeyframe, CurveSegment, CurveTable, FSOParser, FSOTable, FSOTableFileParser, Numeral};

fn rest(p: &FSOTableFileParser) -> String {
    p.get().iter().collect()
}

fn chars(s: &str) -> Vec<char> {
    s.chars().collect()
}

fn num(s: &str) -> Numeral {
    Numeral::new(s).unwrap()
}

fn kf(x: &str, y: &str, segment: CurveSegment) -> CurveKeyframe {
    CurveKeyframe { x: num(x), y: num(y), segment }
}

const SAMPLE: &str = ";;FSO 3.6.12;;
; a comment
$Name: Fade
(0, 0): Linear
(0.5, -1.25): Polynomial 2 true
(1, 1): Constant

/* second */
$Name: Wobble In
( 0 , 1 ):Circular false
(1, 0): Subcurve EaseInQuad ; trailing note
";

#[test]
fn parses_a_table() {
    let mut p = FSOTableFileParser::new(SAMPLE);
    let table = CurveTable::parse(&mut p).unwrap();
    assert_eq!(table.curves.len(), 2);
    let fade = &table.curves[0];
    assert_eq!(fade.name, "Fade");
    assert_eq!(fade.keyframes.len(), 3);
    assert_eq!(fade.keyframes[1].x.text(), "0.5");
    assert_eq!(fade.keyframes[1].y.text(), "-1.25");
    match &fade.keyframes[1].segment {
        CurveSegment::Polynomial { degree, ease_in } => {
            assert_eq!(degree.text(), "2");
            assert!(*ease_in);
        }
        _ => panic!("expected a polynomial segment"),
    }
    assert!(matches!(fade.keyframes[0].segment, CurveSegment::Linear));
    assert!(matches!(fade.keyframes[2].segment, CurveSegment::Constant));
    let wobble = &table.curves[1];
    assert_eq!(wobble.name, "Wobble In");
    assert!(matches!(wobble.keyframes[0].segment, CurveSegment::Circular { ease_in: false }));
    match &wobble.keyframes[1].segment {
        CurveSegment::Subcurve { curve } => assert_eq!(curve, "EaseInQuad"),
        _ => panic!("expected a subcurve segment"),
    }
}

#[test]
fn table_of_nothing_is_empty() {
    let mut p = FSOTableFileParser::new("; only a comment\n");
    let table = CurveTable::parse(&mut p).unwrap();
    assert_eq!(table.curves.len(), 0);
}

#[test]
fn dump_writes_the_table_format() {
    let curve = Curve {
        name: "A".to_string(),
        keyframes: vec![
            kf("0", "0", CurveSegment::Linear),
            kf("0.5", "2", CurveSegment::Polynomial { degree: num("3"), ease_in: false }),
            kf("1", "1", CurveSegment::Constant),
        ],
    };
    assert_eq!(
        curve.dump(),
        "$Name: A\n(0, 0): Linear\n(0.5, 2): Polynomial 3 false\n(1, 1): Constant\n"
    );
    assert_eq!(CurveSegment::Circular { ease_in: true }.dump(), "Circular true");
    assert_eq!(CurveSegment::Subcurve { curve: "B".to_string() }.dump(), "Subcurve B");
}

#[test]
fn round_trip_keeps_the_table() {
    let table = CurveTable {
        curves: vec![
            Curve {
                name: "First curve".to_string(),
                keyframes: vec![
                    kf("0", "1", CurveSegment::Circular { ease_in: true }),
                    kf("2.5e-1", "-3.5", CurveSegment::Subcurve { curve: "EaseOutCubicRev".to_string() }),
                    kf("1", "0", CurveSegment::Constant),
                ],
            },
            Curve {
                name: "Flat".to_string(),
                keyframes: vec![kf("0", "2", CurveSegment::Constant), kf("1", "2", CurveSegment::Constant)],
            },
            Curve {
                name: "Last".to_string(),
                keyframes: vec![
                    kf("-1", "+0.", CurveSegment::Polynomial { degree: num(".5E1"), ease_in: true }),
                    kf("1", "10", CurveSegment::Linear),
                ],
            },
        ],
    };
    let text = table.dump();
    let mut p = FSOTableFileParser::new(&text);
    let back = CurveTable::parse(&mut p).unwrap();
    assert_eq!(back.curves.len(), 3);
    assert_eq!(back.dump(), text);
    assert_eq!(back.curves[0].name, "First curve");
    assert_eq!(back.curves[1].keyframes.len(), 2);
    assert_eq!(back.curves[2].keyframes[0].x.text(), "-1");
    match &back.curves[0].keyframes[1].segment {
        CurveSegment::Subcurve { curve } => assert_eq!(curve, "EaseOutCubicRev"),
        _ => panic!("expected a subcurve segment"),
    }
}

#[test]
fn repeated_records_stop_at_first_mismatch() {
    let mut p = FSOTableFileParser::new("\n(0, 0): Linear\n(0.5, 1): Constant\n(1, 2): Linear\n$Name: next");
    let ks = parse_repeated::<CurveKeyframe>(&mut p);
    assert_eq!(ks.len(), 3);
    assert_eq!(ks[2].y.text(), "2");
    assert_eq!(rest(&p), "\n$Name: next");
}

#[test]
fn repeated_records_may_be_none() {
    let mut p = FSOTableFileParser::new("  $Name: x");
    let ks = parse_repeated::<CurveKeyframe>(&mut p);
    assert_eq!(ks.len(), 0);
    assert_eq!(rest(&p), "  $Name: x");
}

#[test]
fn declared_variant_order_decides() {
    let short_first = vec![chars("Circ"), chars("Circular")];
    let long_first = vec![chars("Circular"), chars("Circ")];
    let mut p = FSOTableFileParser::new("$Circular: x");
    assert_eq!(consume_variant(&mut p, &['$'], &short_first, &[]).ok(), Some(0));
    assert_eq!(rest(&p), "ular: x");
    let mut q = FSOTableFileParser::new("$Circular: x");
    assert_eq!(consume_variant(&mut q, &['$'], &long_first, &[]).ok(), Some(0));
    assert_eq!(rest(&q), ": x");
    let mut r = FSOTableFileParser::new("$Circular: x");
    assert_eq!(consume_variant(&mut r, &['$'], &long_first, &[':']).ok(), Some(0));
    assert_eq!(rest(&r), " x");
}

#[test]
fn unmatched_variant_lists_what_was_tried() {
    let names = vec![chars("Constant"), chars("Linear")];
    let mut p = FSOTableFileParser::new("Bogus thing here that is long\nnext");
    let e = consume_variant(&mut p, &['$'], &names, &[':']).err().unwrap();
    assert_eq!(e.line, 1);
    assert_eq!(e.reason, "Expected one of $Constant:, $Linear:, got Bogus thing here tha.");
    assert_eq!(rest(&p), "Bogus thing here that is long\nnext");
}

#[test]
fn variant_literal_is_matched_at_the_cursor() {
    let names = vec![chars("A")];
    let mut p = FSOTableFileParser::new(" A rest");
    assert_eq!(consume_variant(&mut p, &[' '], &names, &[]).ok(), Some(0));
    assert_eq!(rest(&p), " rest");
    let mut q = FSOTableFileParser::new("\nX");
    let e = consume_variant(&mut q, &[], &names, &[]).err().unwrap();
    assert_eq!(e.line, 1);
    assert_eq!(e.reason, "Expected one of A, got .");
    assert_eq!(rest(&q), "\nX");
}

#[test]
fn unmatched_variant_snippet_stops_at_line_end() {
    let names = vec![chars("A")];
    let mut p = FSOTableFileParser::new("xy\nz");
    let e = consume_variant(&mut p, &[], &names, &[]).err().unwrap();
    assert_eq!(e.reason, "Expected one of A, got xy.");
    assert_eq!(e.line, 1);
}

#[test]
fn missing_key_reports_its_line() {
    let mut p = FSOTableFileParser::new("; c\n\n$Nome: x\n");
    let e = parse_field::<String>(&mut p, &chars("$Name:")).err().unwrap();
    assert_eq!(e.line, 3);
    assert_eq!(e.reason, "Expected $Name:");
    assert_eq!(rest(&p), "; c\n\n$Nome: x\n");
}

#[test]
fn keyed_field_reads_its_value() {
    let mut p = FSOTableFileParser::new("\n$Name:   My Curve  ; note\n");
    let name = parse_field::<String>(&mut p, &chars("$Name:")).unwrap();
    assert_eq!(name, "My Curve");
}

#[test]
fn empty_text_value_is_an_error() {
    let mut p = FSOTableFileParser::new("$Name:   \n");
    let e = parse_field::<String>(&mut p, &chars("$Name:")).err().unwrap();
    assert_eq!(e.line, 1);
    assert_eq!(rest(&p), "$Name:   \n");
}

#[test]
fn broken_keyframe_rolls_back() {
    let mut p = FSOTableFileParser::new("\n(0, x): Linear");
    let e = CurveKeyframe::parse(&mut p).err().unwrap();
    assert_eq!(e.line, 2);
    assert_eq!(rest(&p), "\n(0, x): Linear");
}

#[test]
fn optional_field_absent_or_present() {
    let key = chars("$Flag:");
    let mut p = FSOTableFileParser::new("\n$Flag: true rest");
    assert_eq!(parse_optional::<bool>(&mut p, &key), Some(true));
    assert_eq!(rest(&p), " rest");
    let mut q = FSOTableFileParser::new("$Flag: maybe");
    assert_eq!(parse_optional::<bool>(&mut q, &key), None);
    assert_eq!(rest(&q), "$Flag: maybe");
    let mut r = FSOTableFileParser::new("$Other: true");
    assert_eq!(parse_optional::<bool>(&mut r, &key), None);
    assert_eq!(rest(&r), "$Other: true");
}

#[test]
fn literal_after_comments() {
    let mut p = FSOTableFileParser::new("// c\n  ):");
    assert!(consume_string(&mut p, &[')', ':']).is_ok());
    assert_eq!(rest(&p), "");
    let mut q = FSOTableFileParser::new(" (");
    let e = consume_string(&mut q, &[')']).err().unwrap();
    assert_eq!(e.reason, "Expected )");
    assert_eq!(e.line, 1);
    assert_eq!(rest(&q), " (");
}

#[test]
fn numerals_valid_and_not() {
    for good in ["0", "-12.075", "+2", "1.", ".5", "-.5", "1e3", "2.5E-3", "7e+10", "0.25e1"] {
        assert!(Numeral::new(good).is_some(), "{}", good);
    }
    for bad in ["", "-", "+", ".", "e5", "1e", "1e+", "1.2.3", "1,5", " 1", "inf"] {
        assert!(Numeral::new(bad).is_none(), "{}", bad);
    }
    assert_eq!(Numeral::new("3.25").unwrap().text(), "3.25");
}

#[test]
fn numeral_reads_longest_prefix() {
    for (input, numeral, left) in [
        ("  12.5.3", "12.5", ".3"),
        (" 7.x", "7.", "x"),
        (" 1e5,", "1e5", ","),
        (" 2E-3)", "2E-3", ")"),
        (" 3e+", "3", "e+"),
        (" .5 ", ".5", " "),
    ] {
        let mut p = FSOTableFileParser::new(input);
        assert_eq!(Numeral::parse(&mut p).ok().map(|n| n.text()), Some(numeral.to_string()));
        assert_eq!(rest(&p), left);
    }
    let mut r = FSOTableFileParser::new(" -x");
    assert!(Numeral::parse(&mut r).is_err());
    assert_eq!(rest(&r), " -x");
}

#[test]
fn keyframe_comma_may_be_left_out() {
    let mut p = FSOTableFileParser::new("( 0.5 -2 ): Linear\n");
    let k = CurveKeyframe::parse(&mut p).unwrap();
    assert_eq!(k.x.text(), "0.5");
    assert_eq!(k.y.text(), "-2");
    assert!(matches!(k.segment, CurveSegment::Linear));
}

#[test]
fn segment_after_a_line_break() {
    let mut p = FSOTableFileParser::new("(0, 0):\n  ; note\n  Circular true\n");
    let k = CurveKeyframe::parse(&mut p).unwrap();
    assert!(matches!(k.segment, CurveSegment::Circular { ease_in: true }));
}

#[test]
fn curve_needs_two_keyframes() {
    let mut p = FSOTableFileParser::new("$Name: Lonely\n(0, 0): Linear\n");
    let e = Curve::parse(&mut p).err().unwrap();
    assert_eq!(e.line, 2);
    assert_eq!(e.reason, "A curve needs two keyframes or more");
    assert_eq!(rest(&p), "$Name: Lonely\n(0, 0): Linear\n");
}

#[test]
fn every_error_has_a_reason() {
    for input in ["", "$Name:", "$Name: x\n(", "(0,", "(0, 0): Wobble"] {
        let mut p = FSOTableFileParser::new(input);
        let e = if input.starts_with('(') {
            CurveKeyframe::parse(&mut p).err().unwrap()
        } else {
            Curve::parse(&mut p).err().unwrap()
        };
        assert!(!e.reason.is_empty());
    }
}
