use vstd::prelude::*;
use crate::binder::{FSOTable, field_grammar, first_variant, literal_grammar, repeated, ws_end};
use crate::model::{
    Curve, CurveKeyframe, CurveSegment, CurveTable, CurveView, KeyframeView, SegmentView, curves_text, keyframes_text,
    segment_names,
};
use crate::primitives::Numeral;
use crate::primitives::{is_numeral, mantissa_end, numeral_end, sign_end};
use crate::scanner::{comment_starts_at, digits_end, is_digit, lemma_digits_end_bound, is_inline_ws, opens_comment, matches_at, skip_inline, value_end, ws_scan};

verus! {

/// A character at which skipping whitespace and comments stops at once.
pub open spec fn plain(c: char) -> bool {
    !is_inline_ws(c) && c != '\n' && c != ';' && c != '/' && c != '!'
}

/// A free-text value that reads back as itself: not empty, on one line,
/// without a comment in it, and without blanks at either end.
pub open spec fn valid_text(t: Seq<char>) -> bool {
    &&& 0 < t.len()
    &&& !is_inline_ws(t[0])
    &&& !is_inline_ws(t.last())
    &&& forall|i: int| 0 <= i < t.len() ==> #[trigger] t[i] != '\n' && t[i] != ';'
    &&& forall|i: int| 0 <= i < t.len() - 1 ==> !opens_comment(#[trigger] t[i], t[i + 1])
}

proof fn lemma_ws_at_plain(s: Seq<char>, p: int)
    requires
        0 <= p < s.len(),
        plain(s[p]),
    ensures
        ws_scan(s, p, false, true, None) == (p, None::<Seq<char>>, None::<Seq<char>>),
        ws_end(s, p) == p,
{
    assert(!Seq::<char>::empty().contains(s[p]));
    assert(skip_inline(s, p, seq![]) == p);
}

proof fn lemma_ws_at_end(s: Seq<char>)
    ensures
        ws_scan(s, s.len() as int, false, true, None) == (s.len() as int, None::<Seq<char>>, None::<Seq<char>>),
        ws_end(s, s.len() as int) == s.len(),
{
    assert(skip_inline(s, s.len() as int, seq![]) == s.len());
}

/// Skipping from a newline that the end of the text or a plain character
/// follows stops right after the newline.
proof fn lemma_ws_newline(s: Seq<char>, p: int)
    requires
        0 <= p < s.len(),
        s[p] == '\n',
        p + 1 == s.len() || plain(s[p + 1]),
    ensures
        ws_end(s, p) == p + 1,
{
    assert(!Seq::<char>::empty().contains(s[p]));
    assert(skip_inline(s, p, seq![]) == p);
    if p + 1 == s.len() {
        lemma_ws_at_end(s);
    } else {
        lemma_ws_at_plain(s, p + 1);
    }
    assert(ws_scan(s, p, false, true, None) == ws_scan(s, p + 1, false, true, None));
}

proof fn lemma_ws_space_then_plain(s: Seq<char>, p: int)
    requires
        0 <= p,
        p + 1 < s.len(),
        s[p] == ' ',
        plain(s[p + 1]),
    ensures
        ws_end(s, p) == p + 1,
        skip_inline(s, p, seq![]) == p + 1,
{
    assert(!Seq::<char>::empty().contains(s[p + 1]));
    assert(!Seq::<char>::empty().contains(s[p]));
    assert(skip_inline(s, p + 1, seq![]) == p + 1);
    assert(skip_inline(s, p, seq![]) == p + 1);
    assert(ws_scan(s, p, false, true, None) == (p + 1, None::<Seq<char>>, None::<Seq<char>>));
}

proof fn lemma_skip_inline_at(s: Seq<char>, p: int)
    requires
        0 <= p < s.len(),
        !is_inline_ws(s[p]),
    ensures
        skip_inline(s, p, seq![]) == p,
{
    assert(!Seq::<char>::empty().contains(s[p]));
}

proof fn lemma_digits_shift(s: Seq<char>, x: Seq<char>, q: int, i: int)
    requires
        0 <= q,
        q + x.len() <= s.len(),
        s.subrange(q, q + x.len()) == x,
        0 <= i <= x.len(),
        q + x.len() < s.len() ==> !is_digit(s[q + x.len()]),
    ensures
        digits_end(s, q + i) == q + digits_end(x, i),
    decreases x.len() - i,
{
    if i < x.len() {
        assert(s[q + i] == x[i]);
        if is_digit(x[i]) {
            lemma_digits_shift(s, x, q, i + 1);
        }
    }
}

/// The first character of a numeral is a sign, a digit or a `.`.
pub proof fn lemma_numeral_start(x: Seq<char>)
    requires
        is_numeral(x),
    ensures
        x[0] == '-' || x[0] == '+' || x[0] == '.' || is_digit(x[0]),
{
    lemma_digits_end_bound(x, 0);
}

/// A numeral standing at `q` and followed by no digit, `.`, `e` or `E`
/// reads back as exactly itself.
pub proof fn lemma_numeral_at(s: Seq<char>, q: int, x: Seq<char>)
    requires
        0 <= q,
        q + x.len() <= s.len(),
        s.subrange(q, q + x.len()) == x,
        is_numeral(x),
        q + x.len() < s.len() ==> !is_digit(s[q + x.len()]) && s[q + x.len()] != '.' && s[q + x.len()] != 'e'
            && s[q + x.len()] != 'E',
    ensures
        numeral_end(s, q) == q + x.len(),
{
    let n = x.len() as int;
    assert forall|k: int| 0 <= k < n implies #[trigger] s[q + k] == x[k] by {
        assert(s[q + k] == s.subrange(q, q + n)[k]);
    }
    assert(s[q] == x[0]);
    let a0 = sign_end(x, 0);
    assert(sign_end(s, q) == q + a0);
    lemma_digits_end_bound(x, a0);
    lemma_digits_shift(s, x, q, a0);
    let b0 = digits_end(x, a0);
    if b0 < n {
        assert(s[q + b0] == x[b0]);
        if x[b0] == '.' {
            lemma_digits_end_bound(x, b0 + 1);
            lemma_digits_shift(s, x, q, b0 + 1);
        }
    }
    let m0 = mantissa_end(x, 0);
    assert(mantissa_end(s, q) == q + m0);
    if m0 < n {
        assert(s[q + m0] == x[m0]);
        if x[m0] == 'e' || x[m0] == 'E' {
            if m0 + 1 < n {
                assert(s[q + m0 + 1] == x[m0 + 1]);
            }
            let d0 = sign_end(x, m0 + 1);
            assert(sign_end(s, q + m0 + 1) == q + d0);
            lemma_digits_end_bound(x, d0);
            lemma_digits_shift(s, x, q, d0);
        }
    }
}

/// A valid text value at `q` that ends its line reads back as itself.
pub proof fn lemma_value_end_at(s: Seq<char>, i: int, last: int, e: int)
    requires
        0 <= i < e < s.len(),
        s[e] == '\n',
        forall|k: int| i <= k < e ==> #[trigger] s[k] != '\n' && !comment_starts_at(s, k),
        !is_inline_ws(s[e - 1]),
    ensures
        value_end(s, i, last) == e,
    decreases e - i,
{
    let nl = if is_inline_ws(s[i]) { last } else { i + 1 };
    if i + 1 < e {
        lemma_value_end_at(s, i + 1, nl, e);
    } else {
        assert(value_end(s, e, nl) == nl);
    }
    assert(value_end(s, i, last) == value_end(s, i + 1, nl));
}

/// A part of a text standing at `a` stands at the matching place.
pub proof fn lemma_sub(s: Seq<char>, a: int, t: Seq<char>, i: int, j: int)
    requires
        0 <= a,
        a + t.len() <= s.len(),
        s.subrange(a, a + t.len()) == t,
        0 <= i <= j <= t.len(),
    ensures
        s.subrange(a + i, a + j) == t.subrange(i, j),
{
    assert(s.subrange(a + i, a + j) =~= t.subrange(i, j)) by {
        assert forall|k: int| 0 <= k < j - i implies s.subrange(a + i, a + j)[k] == t.subrange(i, j)[k] by {
            assert(s[a + i + k] == s.subrange(a, a + t.len())[i + k]);
        }
    }
}

/// A valid text value after one space, ending its line, reads back as itself.
pub proof fn lemma_string_at(s: Seq<char>, p: int, t: Seq<char>)
    requires
        valid_text(t),
        0 <= p,
        s[p] == ' ',
        p + 1 + t.len() < s.len(),
        s.subrange(p + 1, p + 1 + t.len()) == t,
        s[p + 1 + t.len()] == '\n',
    ensures
        <String as FSOTable>::grammar(s, p) == Ok::<(Seq<char>, int), int>((t, p + 1 + t.len())),
{
    let e = p + 1 + t.len();
    assert(s[p + 1] == t[0]);
    lemma_skip_inline_at(s, p + 1);
    assert(!Seq::<char>::empty().contains(s[p]));
    assert(skip_inline(s, p, seq![]) == p + 1);
    assert forall|k: int| p + 1 <= k < e implies #[trigger] s[k] != '\n' && !comment_starts_at(s, k) by {
        assert(s[k] == t[k - p - 1]);
        if k + 1 < e {
            assert(s[k + 1] == t[k - p]);
        }
    }
    assert(s[e - 1] == t.last());
    lemma_value_end_at(s, p + 1, p + 1, e);
}

/// A flag after one space reads back as itself.
pub proof fn lemma_bool_at(s: Seq<char>, p: int, b: bool)
    requires
        0 <= p,
        s[p] == ' ',
        p + 1 + <bool as FSOTable>::text_of(b).len() <= s.len(),
        s.subrange(p + 1, p + 1 + <bool as FSOTable>::text_of(b).len()) == <bool as FSOTable>::text_of(b),
    ensures
        <bool as FSOTable>::grammar(s, p) == Ok::<(bool, int), int>((b, p + 1 + <bool as FSOTable>::text_of(b).len())),
{
    reveal_strlit("true");
    reveal_strlit("false");
    let t = <bool as FSOTable>::text_of(b);
    assert(s[p + 1] == t[0]);
    lemma_skip_inline_at(s, p + 1);
    assert(!Seq::<char>::empty().contains(s[p]));
    assert(skip_inline(s, p, seq![]) == p + 1);
    if !b {
        assert(s.subrange(p + 1, p + 5)[0] == s[p + 1]);
    }
}

/// A segment whose parameters read back as themselves.
pub open spec fn valid_segment(sv: SegmentView) -> bool {
    match sv {
        SegmentView::Polynomial { degree, ease_in } => is_numeral(degree),
        SegmentView::Subcurve { curve } => valid_text(curve),
        _ => true,
    }
}

/// A valid segment after one space, ending its line, reads back as itself.
pub proof fn lemma_segment_at(s: Seq<char>, p: int, sv: SegmentView)
    requires
        valid_segment(sv),
        0 <= p,
        s[p] == ' ',
        p + 1 + <CurveSegment as FSOTable>::text_of(sv).len() < s.len(),
        s.subrange(p + 1, p + 1 + <CurveSegment as FSOTable>::text_of(sv).len()) == <CurveSegment as FSOTable>::text_of(sv),
        s[p + 1 + <CurveSegment as FSOTable>::text_of(sv).len()] == '\n',
    ensures
        <CurveSegment as FSOTable>::grammar(s, p) == Ok::<(SegmentView, int), int>(
            (sv, p + 1 + <CurveSegment as FSOTable>::text_of(sv).len()),
        ),
{
    reveal_strlit("Constant");
    reveal_strlit("Linear");
    reveal_strlit("Polynomial");
    reveal_strlit("Circular");
    reveal_strlit("Subcurve");
    reveal_strlit("true");
    reveal_strlit("false");
    reveal_with_fuel(first_variant, 6);
    let t = <CurveSegment as FSOTable>::text_of(sv);
    let q = p + 1;
    let e = p + 1 + t.len();
    let names = segment_names();
    assert(s[q] == t[0]);
    lemma_ws_space_then_plain(s, p);
    assert forall|i: int| 0 <= i < names.len() implies #[trigger] (Seq::<char>::empty() + names[i] + Seq::<char>::empty()) == names[i] by {
        assert(Seq::<char>::empty() + names[i] + Seq::<char>::empty() =~= names[i]);
    }
    assert(names[0] == "Constant"@);
    assert(names[1] == "Linear"@);
    assert(names[2] == "Polynomial"@);
    assert(names[3] == "Circular"@);
    assert(names[4] == "Subcurve"@);
    match sv {
        SegmentView::Constant => {
            assert(s.subrange(q, q + 8) == t);
        },
        SegmentView::Linear => {
            if q + 8 <= s.len() {
                assert(s.subrange(q, q + 8)[0] == s[q]);
            }
            assert(s.subrange(q, q + 6) == t);
        },
        SegmentView::Polynomial { degree, ease_in } => {
            assert(s.subrange(q, q + 8)[0] == s[q]);
            assert(s.subrange(q, q + 6)[0] == s[q]);
            lemma_sub(s, q, t, 0, 10);
            assert(t.subrange(0, 10) =~= "Polynomial"@);
            let d = degree;
            let dn = d.len() as int;
            let bt = <bool as FSOTable>::text_of(ease_in);
            assert(t =~= "Polynomial"@ + seq![' '] + d + seq![' '] + bt);
            assert(s[q + 10] == t[10]);
            lemma_sub(s, q, t, 11, 11 + dn);
            assert(t.subrange(11, 11 + dn) =~= d);
            lemma_numeral_start(d);
            assert(s[q + 11] == t[11]);
            lemma_skip_inline_at(s, q + 11);
            assert(!Seq::<char>::empty().contains(s[q + 10]));
            assert(skip_inline(s, q + 10, seq![]) == q + 11);
            assert(s[q + 11 + dn] == t[11 + dn]);
            lemma_numeral_at(s, q + 11, d);
            lemma_sub(s, q, t, 12 + dn, t.len() as int);
            assert(t.subrange(12 + dn, t.len() as int) =~= bt);
            lemma_bool_at(s, q + 11 + dn, ease_in);
        },
        SegmentView::Circular { ease_in } => {
            assert(s.subrange(q, q + 8)[1] == s[q + 1]);
            assert(s.subrange(q, q + 6)[0] == s[q]);
            assert(s.subrange(q, q + 10)[0] == s[q]);
            lemma_sub(s, q, t, 0, 8);
            assert(t.subrange(0, 8) =~= "Circular"@);
            let bt = <bool as FSOTable>::text_of(ease_in);
            assert(t =~= "Circular"@ + seq![' '] + bt);
            assert(s[q + 8] == t[8]);
            lemma_sub(s, q, t, 9, t.len() as int);
            assert(t.subrange(9, t.len() as int) =~= bt);
            lemma_bool_at(s, q + 8, ease_in);
        },
        SegmentView::Subcurve { curve } => {
            assert(s.subrange(q, q + 8)[0] == s[q]);
            assert(s.subrange(q, q + 6)[0] == s[q]);
            assert(s.subrange(q, q + 10)[0] == s[q]);
            assert(s.subrange(q, q + 8)[0] == s[q]);
            lemma_sub(s, q, t, 0, 8);
            assert(t.subrange(0, 8) =~= "Subcurve"@);
            assert(t =~= "Subcurve"@ + seq![' '] + curve);
            assert(s[q + 8] == t[8]);
            lemma_sub(s, q, t, 9, t.len() as int);
            assert(t.subrange(9, t.len() as int) =~= curve);
            lemma_string_at(s, q + 8, curve);
        },
    }
}

/// A keyframe whose values all read back as themselves.
pub open spec fn valid_keyframe(k: KeyframeView) -> bool {
    is_numeral(k.x) && is_numeral(k.y) && valid_segment(k.segment)
}

/// A literal standing at a plain character is bound there.
proof fn lemma_literal_at(s: Seq<char>, p: int, lit: Seq<char>)
    requires
        0 <= p < s.len(),
        plain(s[p]),
        matches_at(s, p, lit),
    ensures
        literal_grammar(s, p, lit) == Ok::<int, int>(p + lit.len()),
{
    lemma_ws_at_plain(s, p);
}

/// A numeral at `q`, right at `p` or after one space, followed by no digit,
/// `.`, `e` or `E`, reads back as itself.
proof fn lemma_numeral_grammar(s: Seq<char>, p: int, q: int, x: Seq<char>)
    requires
        0 <= p,
        q == p || (q == p + 1 && s[p] == ' '),
        q + x.len() < s.len(),
        s.subrange(q, q + x.len()) == x,
        is_numeral(x),
        !is_digit(s[q + x.len()]) && s[q + x.len()] != '.' && s[q + x.len()] != 'e' && s[q + x.len()] != 'E',
    ensures
        <Numeral as FSOTable>::grammar(s, p) == Ok::<(Seq<char>, int), int>((x, q + x.len())),
{
    lemma_numeral_start(x);
    assert(s[q] == x[0]);
    lemma_skip_inline_at(s, q);
    if q == p + 1 {
        assert(!Seq::<char>::empty().contains(s[p]));
        assert(skip_inline(s, p, seq![]) == q);
    }
    lemma_numeral_at(s, q, x);
}

/// A valid keyframe on a line of its own reads back as itself.
#[verifier::rlimit(30)]
pub proof fn lemma_keyframe_at(s: Seq<char>, p: int, q: int, kv: KeyframeView)
    requires
        valid_keyframe(kv),
        0 <= p <= q,
        ws_end(s, p) == q,
        q + <CurveKeyframe as FSOTable>::text_of(kv).len() < s.len(),
        s.subrange(q, q + <CurveKeyframe as FSOTable>::text_of(kv).len()) == <CurveKeyframe as FSOTable>::text_of(kv),
        s[q + <CurveKeyframe as FSOTable>::text_of(kv).len()] == '\n',
    ensures
        <CurveKeyframe as FSOTable>::grammar(s, p) == Ok::<(KeyframeView, int), int>(
            (kv, q + <CurveKeyframe as FSOTable>::text_of(kv).len()),
        ),
{
    reveal_strlit("(");
    reveal_strlit(", ");
    reveal_strlit(",");
    reveal_strlit("): ");
    reveal_strlit("):");
    let t = <CurveKeyframe as FSOTable>::text_of(kv);
    let st = <CurveSegment as FSOTable>::text_of(kv.segment);
    let x = kv.x;
    let y = kv.y;
    let xn = x.len() as int;
    let yn = y.len() as int;
    assert(t =~= seq!['('] + x + seq![',', ' '] + y + seq![')', ':', ' '] + st);
    let a = q + 1 + xn;
    let b = a + 2 + yn;
    assert(literal_grammar(s, p, "("@) == Ok::<int, int>(q + 1)) by {
        assert(s[q] == t[0]);
        lemma_ws_at_plain(s, q);
        lemma_sub(s, q, t, 0, 1);
        assert(t.subrange(0, 1) =~= "("@);
        lemma_literal_at(s, q, "("@);
    }
    assert(<Numeral as FSOTable>::grammar(s, q + 1) == Ok::<(Seq<char>, int), int>((x, a))) by {
        lemma_sub(s, q, t, 1, 1 + xn);
        assert(t.subrange(1, 1 + xn) =~= x);
        assert(s[a] == t[1 + xn]);
        lemma_numeral_grammar(s, q + 1, q + 1, x);
    }
    assert(literal_grammar(s, a, ","@) == Ok::<int, int>(a + 1)) by {
        assert(s[a] == t[1 + xn]);
        lemma_sub(s, q, t, 1 + xn, 2 + xn);
        assert(t.subrange(1 + xn, 2 + xn) =~= ","@);
        lemma_literal_at(s, a, ","@);
    }
    assert(<Numeral as FSOTable>::grammar(s, a + 1) == Ok::<(Seq<char>, int), int>((y, b))) by {
        assert(s[a + 1] == t[2 + xn]);
        lemma_sub(s, q, t, 3 + xn, 3 + xn + yn);
        assert(t.subrange(3 + xn, 3 + xn + yn) =~= y);
        assert(s[b] == t[3 + xn + yn]);
        lemma_numeral_grammar(s, a + 1, a + 2, y);
    }
    assert(literal_grammar(s, b, "):"@) == Ok::<int, int>(b + 2)) by {
        assert(s[b] == t[3 + xn + yn]);
        lemma_sub(s, q, t, 3 + xn + yn, 5 + xn + yn);
        assert(t.subrange(3 + xn + yn, 5 + xn + yn) =~= "):"@);
        lemma_literal_at(s, b, "):"@);
    }
    assert(<CurveSegment as FSOTable>::grammar(s, b + 2) == Ok::<(SegmentView, int), int>(
        (kv.segment, q + t.len()),
    )) by {
        assert(s[b + 2] == t[5 + xn + yn]);
        lemma_sub(s, q, t, 6 + xn + yn, t.len() as int);
        assert(t.subrange(6 + xn + yn, t.len() as int) =~= st);
        lemma_segment_at(s, b + 2, kv.segment);
    }
}

/// Reading back the text that a keyframe is written as, at the start of a
/// text and followed by the end of its line, gives the same keyframe, with
/// the cursor at that line end. It holds of every keyframe whose numerals and
/// subcurve name read back as themselves.
pub proof fn lemma_keyframe_round_trip(kv: KeyframeView, rest: Seq<char>)
    requires
        valid_keyframe(kv),
        0 < rest.len(),
        rest[0] == '\n',
    ensures
        <CurveKeyframe as FSOTable>::grammar(<CurveKeyframe as FSOTable>::text_of(kv) + rest, 0) == Ok::<
            (KeyframeView, int),
            int,
        >((kv, <CurveKeyframe as FSOTable>::text_of(kv).len() as int)),
{
    reveal_strlit("(");
    let t = <CurveKeyframe as FSOTable>::text_of(kv);
    let s = t + rest;
    assert(s[0] == '(');
    lemma_ws_at_plain(s, 0);
    assert(s.subrange(0, t.len() as int) =~= t);
    assert(s[t.len() as int] == rest[0]);
    lemma_keyframe_at(s, 0, 0, kv);
}

/// Valid keyframes, each on a line of its own, read back as themselves, up to
/// the first line that holds no keyframe.
#[verifier::rlimit(60)]
pub proof fn lemma_keyframes_at(s: Seq<char>, p: int, ks: Seq<KeyframeView>)
    requires
        forall|i: int| 0 <= i < ks.len() ==> valid_keyframe(#[trigger] ks[i]),
        0 <= p,
        p + keyframes_text(ks).len() < s.len(),
        s.subrange(p, p + keyframes_text(ks).len()) == keyframes_text(ks),
        s[p + keyframes_text(ks).len()] == '\n',
        <CurveKeyframe as FSOTable>::grammar(s, p + keyframes_text(ks).len()) is Err,
    ensures
        repeated::<CurveKeyframe>(s, p) == (ks, p + keyframes_text(ks).len()),
    decreases ks.len(),
{
    if ks.len() == 0 {
        assert(ks =~= Seq::<KeyframeView>::empty());
    } else {
        let t = keyframes_text(ks);
        let kt = <CurveKeyframe as FSOTable>::text_of(ks[0]);
        let kn = kt.len() as int;
        let rest = ks.subrange(1, ks.len() as int);
        let rt = keyframes_text(rest);
        let e = p + 1 + kt.len();
        assert(t == seq!['\n'] + kt + rt);
        assert(s[p] == t[0]);
        lemma_sub(s, p, t, 1, 1 + kn);
        assert(t.subrange(1, 1 + kn) =~= kt);
        lemma_sub(s, p, t, 1 + kn, t.len() as int);
        assert(t.subrange(1 + kn, t.len() as int) =~= rt);
        if rest.len() > 0 {
            assert(rt[0] == '\n');
            assert(s[e] == t[1 + kn]);
        }
        assert(s[p + 1] == t[1]);
        assert(t[1] == kt[0]);
        reveal_strlit("(");
        lemma_ws_newline(s, p);
        lemma_keyframe_at(s, p, p + 1, ks[0]);
        lemma_keyframes_at(s, e, rest);
        assert(seq![ks[0]] + rest =~= ks);
    }
}

/// A curve of two keyframes or more whose name and keyframes all read back
/// as themselves.
pub open spec fn valid_curve(c: CurveView) -> bool {
    valid_text(c.name) && c.keyframes.len() >= 2 && forall|i: int| 0 <= i < c.keyframes.len() ==> valid_keyframe(#[trigger] c.keyframes[i])
}

/// A table whose curves all read back as themselves.
pub open spec fn valid_table(cs: Seq<CurveView>) -> bool {
    forall|i: int| 0 <= i < cs.len() ==> valid_curve(#[trigger] cs[i])
}

/// No keyframe starts after a newline that the end of the text or a `$`
/// follows.
proof fn lemma_no_keyframe_before(s: Seq<char>, e: int)
    requires
        0 <= e < s.len(),
        s[e] == '\n',
        e + 1 == s.len() || s[e + 1] == '$',
    ensures
        <CurveKeyframe as FSOTable>::grammar(s, e) is Err,
{
    reveal_strlit("(");
    lemma_ws_newline(s, e);
    if e + 1 < s.len() {
        assert(s.subrange(e + 1, e + 2)[0] == s[e + 1]);
    }
}

/// A valid curve whose text stands where skipping from `pos` stops, followed
/// by the end of the text or another curve, reads back as itself; binding
/// stops at its last newline.
#[verifier::rlimit(30)]
pub proof fn lemma_curve_at(s: Seq<char>, pos: int, q: int, cv: CurveView)
    requires
        valid_curve(cv),
        0 <= pos <= q,
        ws_end(s, pos) == q,
        q + <Curve as FSOTable>::text_of(cv).len() <= s.len(),
        s.subrange(q, q + <Curve as FSOTable>::text_of(cv).len()) == <Curve as FSOTable>::text_of(cv),
        q + <Curve as FSOTable>::text_of(cv).len() == s.len() || s[q + <Curve as FSOTable>::text_of(cv).len()] == '$',
    ensures
        <Curve as FSOTable>::grammar(s, pos) == Ok::<(CurveView, int), int>(
            (cv, q + <Curve as FSOTable>::text_of(cv).len() - 1),
        ),
{
    reveal_strlit("$Name: ");
    reveal_strlit("$Name:");
    let t = <Curve as FSOTable>::text_of(cv);
    let name = cv.name;
    let nn = name.len() as int;
    let kt = keyframes_text(cv.keyframes);
    let kn = kt.len() as int;
    assert(t =~= seq!['$', 'N', 'a', 'm', 'e', ':', ' '] + name + kt + seq!['\n']);
    let e = q + t.len() - 1;
    assert(literal_grammar(s, pos, "$Name:"@) == Ok::<int, int>(q + 6)) by {
        lemma_sub(s, q, t, 0, 6);
        assert(t.subrange(0, 6) =~= "$Name:"@);
    }
    assert(<String as FSOTable>::grammar(s, q + 6) == Ok::<(Seq<char>, int), int>((name, q + 7 + nn))) by {
        assert(s[q + 6] == t[6]);
        lemma_sub(s, q, t, 7, 7 + nn);
        assert(t.subrange(7, 7 + nn) =~= name);
        if kn > 0 {
            assert(kt[0] == '\n');
        }
        assert(s[q + 7 + nn] == t[7 + nn]);
        lemma_string_at(s, q + 6, name);
    }
    assert(field_grammar::<String>(s, pos, "$Name:"@) == Ok::<(Seq<char>, int), int>((name, q + 7 + nn)));
    assert(repeated::<CurveKeyframe>(s, q + 7 + nn) == (cv.keyframes, e)) by {
        lemma_sub(s, q, t, 7 + nn, 7 + nn + kn);
        assert(t.subrange(7 + nn, 7 + nn + kn) =~= kt);
        assert(s[e] == t[t.len() - 1]);
        lemma_no_keyframe_before(s, e);
        lemma_keyframes_at(s, q + 7 + nn, cv.keyframes);
    }
}

/// No curve starts where skipping reaches the end of the text.
proof fn lemma_no_curve_at_end(s: Seq<char>, pos: int)
    requires
        ws_end(s, pos) == s.len(),
    ensures
        <Curve as FSOTable>::grammar(s, pos) is Err,
{
    reveal_strlit("$Name:");
    assert(literal_grammar(s, pos, "$Name:"@) is Err);
}

/// Valid curves whose texts fill the text from where skipping from `pos`
/// stops to its end read back as themselves.
#[verifier::rlimit(30)]
pub proof fn lemma_curves_at(s: Seq<char>, pos: int, q: int, cs: Seq<CurveView>)
    requires
        valid_table(cs),
        0 <= pos <= q <= s.len(),
        ws_end(s, pos) == q,
        s.subrange(q, s.len() as int) == curves_text(cs),
    ensures
        repeated::<Curve>(s, pos).0 == cs,
    decreases cs.len(),
{
    if cs.len() == 0 {
        assert(q == s.len());
        assert(cs =~= Seq::<CurveView>::empty());
        lemma_no_curve_at_end(s, pos);
    } else {
        let ct = <Curve as FSOTable>::text_of(cs[0]);
        let rest = cs.subrange(1, cs.len() as int);
        let rt = curves_text(rest);
        let all = curves_text(cs);
        let cn = ct.len() as int;
        let e = q + cn - 1;
        assert(all == ct + rt);
        assert(s.subrange(q, q + cn) == ct) by {
            lemma_sub(s, q, all, 0, cn);
            assert(all.subrange(0, cn) =~= ct);
        }
        assert(q + cn == s.len() || s[q + cn] == '$') by {
            if rest.len() > 0 {
                reveal_strlit("$Name: ");
                let ct1 = <Curve as FSOTable>::text_of(rest[0]);
                assert(rt == ct1 + curves_text(rest.subrange(1, rest.len() as int)));
                assert(ct1[0] == '$');
                assert(s[q + cn] == s.subrange(q, s.len() as int)[cn]);
            }
        }
        assert(valid_table(rest)) by {
            assert forall|i: int| 0 <= i < rest.len() implies valid_curve(#[trigger] rest[i]) by {
                assert(rest[i] == cs[i + 1]);
            }
        }
        assert(valid_curve(cs[0]));
        lemma_curve_at(s, pos, q, cs[0]);
        assert(ws_end(s, e) == e + 1) by {
            reveal_strlit("$Name: ");
            assert(ct[cn - 1] == '\n');
            assert(s[e] == s.subrange(q, q + cn)[cn - 1]);
            lemma_ws_newline(s, e);
        }
        assert(s.subrange(e + 1, s.len() as int) == rt) by {
            lemma_sub(s, q, all, cn, all.len() as int);
            assert(all.subrange(cn, all.len() as int) =~= rt);
        }
        lemma_curves_at(s, e, e + 1, rest);
        assert(seq![cs[0]] + rest =~= cs);
    }
}

/// Reading back the text that a table is written as gives the same table:
/// the same curves in the same order, each with its name and its keyframes
/// in order, with their coordinates and segments. It holds of every table
/// whose names, numerals and subcurve names read back as themselves.
pub proof fn lemma_round_trip(cs: Seq<CurveView>)
    requires
        valid_table(cs),
    ensures
        <CurveTable as FSOTable>::grammar(<CurveTable as FSOTable>::text_of(cs), 0) matches Ok((v, _)) && v == cs,
{
    let s = curves_text(cs);
    if s.len() == 0 {
        lemma_ws_at_end(s);
    } else {
        reveal_strlit("$Name: ");
        assert(cs.len() > 0);
        let ct = <Curve as FSOTable>::text_of(cs[0]);
        assert(s == ct + curves_text(cs.subrange(1, cs.len() as int)));
        assert(s[0] == '$');
        lemma_ws_at_plain(s, 0);
    }
    assert(s.subrange(0, s.len() as int) =~= s);
    lemma_curves_at(s, 0, 0, cs);
}

} // verus!
