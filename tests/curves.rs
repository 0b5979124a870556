use fso_tables::names::eq_ignore_ascii_case_exec;
use fso_tables::{builtin_curves, find_curve, find_name_collision, get_available_curves, is_curve_table_file_name, rename_curve};
use fso_tables::{Curve, CurveKeyframe, CurveSegment, CurveTable, Numeral};

fn kf(x: &str, y: &str, segment: CurveSegment) -> CurveKeyframe {
    CurveKeyframe { x: Numeral::new(x).unwrap(), y: Numeral::new(y).unwrap(), segment }
}

fn curve(name: &str, sub: &str) -> Curve {
    Curve {
        name: name.to_string(),
        keyframes: vec![
            kf("0", "0", CurveSegment::Subcurve { curve: sub.to_string() }),
            kf("1", "1", CurveSegment::Constant),
        ],
    }
}

fn subcurve_of(c: &Curve) -> String {
    match &c.keyframes[0].segment {
        CurveSegment::Subcurve { curve } => curve.clone(),
        _ => panic!("expected a subcurve segment"),
    }
}

#[test]
fn builtin_set_is_complete() {
    let b = builtin_curves();
    assert_eq!(b.len(), 30);
    assert_eq!(b[0].name, "EaseInCircRev");
    assert_eq!(b[6].name, "EaseInQuad");
    assert_eq!(b[29].name, "EaseInOutQuint");
    let names: Vec<&str> = b.iter().map(|c| c.name.as_str()).collect();
    for ease in ["EaseIn", "EaseOut", "EaseInOut"] {
        for shape in ["Circ", "Quad", "Cubic", "Quart", "Quint"] {
            for rev in ["", "Rev"] {
                let n = format!("{}{}{}", ease, shape, rev);
                assert!(names.contains(&n.as_str()), "{}", n);
            }
        }
    }
}

#[test]
fn builtin_ease_in_out_quad_shape() {
    let b = builtin_curves();
    let c = b.iter().find(|c| c.name == "EaseInOutQuad").unwrap();
    assert_eq!(c.keyframes.len(), 3);
    assert_eq!(c.keyframes[1].x.text(), "0.5");
    assert_eq!(c.keyframes[1].y.text(), "0.5");
    assert_eq!(c.keyframes[2].y.text(), "1");
    match &c.keyframes[0].segment {
        CurveSegment::Polynomial { degree, ease_in } => {
            assert_eq!(degree.text(), "2");
            assert!(*ease_in);
        }
        _ => panic!("expected a polynomial segment"),
    }
    assert!(matches!(&c.keyframes[1].segment, CurveSegment::Polynomial { ease_in: false, .. }));
    assert!(matches!(c.keyframes[2].segment, CurveSegment::Constant));
}

#[test]
fn builtin_reversed_and_circular() {
    let b = builtin_curves();
    let c = b.iter().find(|c| c.name == "EaseOutCircRev").unwrap();
    assert_eq!(c.keyframes.len(), 2);
    assert_eq!(c.keyframes[0].y.text(), "1");
    assert_eq!(c.keyframes[1].y.text(), "0");
    assert!(matches!(c.keyframes[0].segment, CurveSegment::Circular { ease_in: false }));
}

#[test]
fn lookup_ignores_case() {
    let b = builtin_curves();
    let visible: Vec<&Curve> = b.iter().collect();
    let i = find_curve(&visible, "easeinquad").unwrap();
    assert_eq!(visible[i].name, "EaseInQuad");
    assert_eq!(find_curve(&visible, "EASEINOUTQUINT"), Some(29));
    assert_eq!(find_curve(&visible, "EaseInQua"), None);
    assert_eq!(find_curve(&visible, "nothing"), None);
}

#[test]
fn lookup_takes_the_first_match() {
    let a = curve("Twin", "x");
    let b = curve("TWIN", "y");
    let visible = vec![&a, &b];
    assert_eq!(find_curve(&visible, "twin"), Some(0));
}

#[test]
fn ascii_case_folding_only() {
    assert!(eq_ignore_ascii_case_exec(&"AbC".chars().collect(), &"aBc".chars().collect()));
    assert!(!eq_ignore_ascii_case_exec(&"É".chars().collect(), &"é".chars().collect()));
    assert!(!eq_ignore_ascii_case_exec(&"[".chars().collect(), &"{".chars().collect()));
    assert!(!eq_ignore_ascii_case_exec(&"ab".chars().collect(), &"abc".chars().collect()));
}

#[test]
fn available_curves_put_builtins_first() {
    let b = builtin_curves();
    let tables = vec![
        CurveTable { curves: vec![curve("A", "x"), curve("B", "x")] },
        CurveTable { curves: vec![curve("C", "x")] },
    ];
    let visible = get_available_curves(&b, &tables);
    assert_eq!(visible.len(), 33);
    assert_eq!(visible[0].name, "EaseInCircRev");
    assert_eq!(visible[30].name, "A");
    assert_eq!(visible[32].name, "C");
}

#[test]
fn rename_rewrites_references_everywhere() {
    let mut tables = vec![
        CurveTable { curves: vec![curve("Base", "EaseInQuad"), curve("User", "Base")] },
        CurveTable { curves: vec![curve("Other", "Base"), curve("Near", "base")] },
    ];
    assert!(rename_curve(&mut tables, 0, 0, "Foundation"));
    assert_eq!(tables[0].curves[0].name, "Foundation");
    assert_eq!(subcurve_of(&tables[0].curves[0]), "EaseInQuad");
    assert_eq!(subcurve_of(&tables[0].curves[1]), "Foundation");
    assert_eq!(subcurve_of(&tables[1].curves[0]), "Foundation");
    assert_eq!(subcurve_of(&tables[1].curves[1]), "base");
}

#[test]
fn rename_refuses_a_taken_name() {
    let mut tables = vec![CurveTable { curves: vec![curve("Base", "Base"), curve("Other", "x")] }];
    assert!(!rename_curve(&mut tables, 0, 0, "other"));
    assert!(!rename_curve(&mut tables, 0, 0, "easeinquad"));
    assert_eq!(tables[0].curves[0].name, "Base");
    assert_eq!(subcurve_of(&tables[0].curves[0]), "Base");
    assert!(rename_curve(&mut tables, 0, 0, "BASE"));
    assert_eq!(tables[0].curves[0].name, "BASE");
    assert_eq!(subcurve_of(&tables[0].curves[0]), "BASE");
}

#[test]
fn default_curve_is_a_unit_line() {
    let c = Curve::default();
    assert_eq!(c.name, "");
    assert_eq!(c.keyframes.len(), 2);
    assert_eq!(c.keyframes[0].x.text(), "0");
    assert_eq!(c.keyframes[1].y.text(), "1");
    assert!(matches!(c.keyframes[0].segment, CurveSegment::Linear));
    assert!(matches!(c.keyframes[1].segment, CurveSegment::Constant));
}

#[test]
fn table_file_names() {
    assert!(is_curve_table_file_name("curves.tbl"));
    assert!(is_curve_table_file_name("Curves.TBL"));
    assert!(is_curve_table_file_name("mod-crv.tbm"));
    assert!(is_curve_table_file_name("-CRV.tbm"));
    assert!(!is_curve_table_file_name("curves.tbm"));
    assert!(!is_curve_table_file_name("crv.tbm"));
    assert!(!is_curve_table_file_name("mycurves.tbl"));
    assert!(!is_curve_table_file_name(""));
}

#[test]
fn loading_a_table_checks_name_collisions() {
    let b = builtin_curves();
    let loaded = vec![CurveTable { curves: vec![curve("Mine", "x")] }];
    let visible = get_available_curves(&b, &loaded);
    let fresh = CurveTable { curves: vec![curve("Yours", "x"), curve("Other", "x")] };
    assert_eq!(find_name_collision(&visible, &fresh), None);
    let clash = CurveTable { curves: vec![curve("Yours", "x"), curve("MINE", "x"), curve("easeinquad", "x")] };
    assert_eq!(find_name_collision(&visible, &clash), Some(1));
    let builtin_clash = CurveTable { curves: vec![curve("EaseOutQuart", "x")] };
    assert_eq!(find_name_collision(&visible, &builtin_clash), Some(0));
}
