use vstd::prelude::*;
use crate::model::{Curve, CurveKeyframe, CurveSegment, CurveView, KeyframeView, SegmentView};
use crate::primitives::Numeral;
use crate::scanner::{append_chars, chars_of, string_of};

verus! {

/// The number of builtin curves: three easings, forward and reversed, five
/// shapes each.
pub const BUILTIN_COUNT: usize = 30;

/// The name of easing `e`: in, out, or in then out.
pub open spec fn ease_name(e: int) -> Seq<char> {
    if e == 0 {
        "EaseIn"@
    } else if e == 1 {
        "EaseOut"@
    } else {
        "EaseInOut"@
    }
}

/// The name of shape `t`: circular, then polynomials of degree 2 to 5.
pub open spec fn shape_name(t: int) -> Seq<char> {
    if t == 0 {
        "Circ"@
    } else if t == 1 {
        "Quad"@
    } else if t == 2 {
        "Cubic"@
    } else if t == 3 {
        "Quart"@
    } else {
        "Quint"@
    }
}

/// The segment of shape `t`, easing in or out.
pub open spec fn shape_segment(t: int, ease_in: bool) -> SegmentView {
    if t == 0 {
        SegmentView::Circular { ease_in }
    } else {
        SegmentView::Polynomial { degree: seq![digit_char(t + 1)], ease_in }
    }
}

/// The digit that writes a degree from 2 to 5.
pub open spec fn digit_char(d: int) -> char {
    if d == 2 {
        '2'
    } else if d == 3 {
        '3'
    } else if d == 4 {
        '4'
    } else {
        '5'
    }
}

/// Builtin curve of easing `e`, reversed or not, and shape `t`: from (0, 0)
/// to (1, 1), or from (0, 1) to (1, 0) when reversed; an in-out easing
/// passes (0.5, 0.5), easing in before it and out after it.
pub open spec fn builtin_curve(e: int, rev: bool, t: int) -> CurveView {
    let ease_in = e != 1;
    let first = KeyframeView {
        x: seq!['0'],
        y: if rev { seq!['1'] } else { seq!['0'] },
        segment: shape_segment(t, ease_in),
    };
    let mid = KeyframeView { x: seq!['0', '.', '5'], y: seq!['0', '.', '5'], segment: shape_segment(t, !ease_in) };
    let last = KeyframeView {
        x: seq!['1'],
        y: if rev { seq!['0'] } else { seq!['1'] },
        segment: SegmentView::Constant,
    };
    CurveView {
        name: ease_name(e) + shape_name(t) + if rev { "Rev"@ } else { seq![] },
        keyframes: if e == 2 { seq![first, mid, last] } else { seq![first, last] },
    }
}

/// The builtin curves, easing by easing, reversed before forward, shape by
/// shape.
pub open spec fn builtin_set() -> Seq<CurveView> {
    Seq::new(BUILTIN_COUNT as nat, |k: int| builtin_curve(k / 10, (k / 5) % 2 == 0, k % 5))
}

/// The one-digit numeral `d`.
fn digit_numeral(d: char) -> (r: Numeral)
    ensures
        r@ == seq![d],
{
    let cs = vec![d];
    proof {
        assert(cs@ =~= seq![d]);
    }
    Numeral::from_chars(cs)
}

/// The numeral `0.5`.
fn half_numeral() -> (r: Numeral)
    ensures
        r@ == seq!['0', '.', '5'],
{
    let cs = vec!['0', '.', '5'];
    proof {
        assert(cs@ =~= seq!['0', '.', '5']);
    }
    Numeral::from_chars(cs)
}

fn shape_segment_exec(t: usize, ease_in: bool) -> (r: CurveSegment)
    requires
        t < 5,
    ensures
        r@ == shape_segment(t as int, ease_in),
{
    if t == 0 {
        CurveSegment::Circular { ease_in }
    } else {
        let d = if t == 1 {
            '2'
        } else if t == 2 {
            '3'
        } else if t == 3 {
            '4'
        } else {
            '5'
        };
        let r = CurveSegment::Polynomial { degree: digit_numeral(d), ease_in };
        proof {
            assert(d == digit_char(t + 1));
        }
        r
    }
}

/// Builds the builtin curve of easing `e`, reversed or not, and shape `t`.
pub fn make_builtin(e: usize, rev: bool, t: usize) -> (r: Curve)
    requires
        e < 3,
        t < 5,
    ensures
        r@ == builtin_curve(e as int, rev, t as int),
{
    let ease_in = e != 1;
    let mut name = if e == 0 {
        chars_of("EaseIn")
    } else if e == 1 {
        chars_of("EaseOut")
    } else {
        chars_of("EaseInOut")
    };
    let shape = if t == 0 {
        chars_of("Circ")
    } else if t == 1 {
        chars_of("Quad")
    } else if t == 2 {
        chars_of("Cubic")
    } else if t == 3 {
        chars_of("Quart")
    } else {
        chars_of("Quint")
    };
    append_chars(&mut name, &shape);
    if rev {
        append_chars(&mut name, &chars_of("Rev"));
    }
    let mut keyframes: Vec<CurveKeyframe> = Vec::new();
    keyframes.push(
        CurveKeyframe {
            x: digit_numeral('0'),
            y: digit_numeral(if rev { '1' } else { '0' }),
            segment: shape_segment_exec(t, ease_in),
        },
    );
    if e == 2 {
        keyframes.push(
            CurveKeyframe {
                x: half_numeral(),
                y: half_numeral(),
                segment: shape_segment_exec(t, !ease_in),
            },
        );
    }
    keyframes.push(
        CurveKeyframe {
            x: digit_numeral('1'),
            y: digit_numeral(if rev { '0' } else { '1' }),
            segment: CurveSegment::Constant,
        },
    );
    let r = Curve { name: string_of(name.as_slice()), keyframes };
    proof {
        let v = builtin_curve(e as int, rev, t as int);
        assert(r@.name =~= v.name);
        assert(r@.keyframes =~= v.keyframes);
    }
    r
}

/// The builtin curves, in the order of `builtin_set`.
pub fn builtin_curves() -> (r: Vec<Curve>)
    ensures
        crate::binder::views_of(r@) == builtin_set(),
{
    let mut r: Vec<Curve> = Vec::new();
    let mut k: usize = 0;
    while k < BUILTIN_COUNT
        invariant
            0 <= k <= BUILTIN_COUNT,
            r@.len() == k,
            crate::binder::views_of(r@) == builtin_set().subrange(0, k as int),
        decreases BUILTIN_COUNT - k,
    {
        let c = make_builtin(k / 10, (k / 5) % 2 == 0, k % 5);
        let ghost cv = c@;
        r.push(c);
        proof {
            assert(r@[k as int]@ == cv);
            assert(builtin_set()[k as int] == builtin_curve(k as int / 10, (k as int / 5) % 2 == 0, k as int % 5));
            assert(crate::binder::views_of(r@) =~= builtin_set().subrange(0, k + 1));
        }
        k = k + 1;
    }
    proof {
        assert(builtin_set().subrange(0, BUILTIN_COUNT as int) =~= builtin_set());
    }
    r
}

} // verus!
