use vstd::prelude::*;
use crate::binder::{
    FSOParsingError, FSOTable, consume_string, error_here, consume_variant, field_grammar, literal_grammar, names_view,
    parse_field, parse_repeated, repeated, skip_layout, variant_grammar, views_of, ws_end,
};
use crate::primitives::Numeral;
use crate::scanner::{FSOParser, FSOTableFileParser, append_chars, chars_of, string_of};

verus! {

/// How a segment moves from its keyframe to the next, as plain values.
pub enum SegmentView {
    Constant,
    Linear,
    Polynomial { degree: Seq<char>, ease_in: bool },
    Circular { ease_in: bool },
    Subcurve { curve: Seq<char> },
}

/// A keyframe as plain values: its coordinates as numerals, and its segment.
pub struct KeyframeView {
    pub x: Seq<char>,
    pub y: Seq<char>,
    pub segment: SegmentView,
}

/// A curve as plain values.
pub struct CurveView {
    pub name: Seq<char>,
    pub keyframes: Seq<KeyframeView>,
}

/// How to interpolate from a keyframe to the next one.
#[derive(Debug)]
pub enum CurveSegment {
    /// Stays at the start value.
    Constant,
    /// Moves in proportion to the position between the keyframes.
    Linear,
    /// Eases in (`t^degree`) or out (`1 - (1 - t)^degree`).
    Polynomial { degree: Numeral, ease_in: bool },
    /// Eases in or out along a quarter circle.
    Circular { ease_in: bool },
    /// Follows the curve of that name over the unit interval.
    Subcurve { curve: String },
}

/// A point of a curve and the segment that leaves it.
#[derive(Debug)]
pub struct CurveKeyframe {
    pub x: Numeral,
    pub y: Numeral,
    pub segment: CurveSegment,
}

/// A named curve: keyframes in ascending order of `x`.
#[derive(Debug)]
pub struct Curve {
    pub name: String,
    pub keyframes: Vec<CurveKeyframe>,
}

/// The curves of one table file, in file order.
#[derive(Debug)]
pub struct CurveTable {
    pub curves: Vec<Curve>,
}

impl View for CurveSegment {
    type V = SegmentView;

    open spec fn view(&self) -> SegmentView {
        match self {
            CurveSegment::Constant => SegmentView::Constant,
            CurveSegment::Linear => SegmentView::Linear,
            CurveSegment::Polynomial { degree, ease_in } => SegmentView::Polynomial {
                degree: degree@,
                ease_in: *ease_in,
            },
            CurveSegment::Circular { ease_in } => SegmentView::Circular { ease_in: *ease_in },
            CurveSegment::Subcurve { curve } => SegmentView::Subcurve { curve: curve@ },
        }
    }
}

impl View for CurveKeyframe {
    type V = KeyframeView;

    open spec fn view(&self) -> KeyframeView {
        KeyframeView { x: self.x@, y: self.y@, segment: self.segment@ }
    }
}

impl View for Curve {
    type V = CurveView;

    open spec fn view(&self) -> CurveView {
        CurveView { name: self.name@, keyframes: views_of(self.keyframes@) }
    }
}

impl View for CurveTable {
    type V = Seq<CurveView>;

    open spec fn view(&self) -> Seq<CurveView> {
        views_of(self.curves@)
    }
}

/// The names of the segment kinds, in the order they are tried.
pub open spec fn segment_names() -> Seq<Seq<char>> {
    seq!["Constant"@, "Linear"@, "Polynomial"@, "Circular"@, "Subcurve"@]
}

/// The text of a flag.
pub open spec fn bool_text(b: bool) -> Seq<char> {
    <bool as FSOTable>::text_of(b)
}

impl FSOTable for CurveSegment {
    /// After whitespace and comments, the kind's name, then its parameters:
    /// a degree and a flag for `Polynomial`, a flag for `Circular`, a curve
    /// name for `Subcurve`.
    open spec fn grammar(s: Seq<char>, pos: int) -> Result<(SegmentView, int), int> {
        match variant_grammar(s, ws_end(s, pos), seq![], segment_names(), seq![]) {
            Err(f) => Err(f),
            Ok((i, p)) => if i == 0 {
                Ok((SegmentView::Constant, p))
            } else if i == 1 {
                Ok((SegmentView::Linear, p))
            } else if i == 2 {
                match <Numeral as FSOTable>::grammar(s, p) {
                    Err(f) => Err(f),
                    Ok((d, at2)) => match <bool as FSOTable>::grammar(s, at2) {
                        Err(f) => Err(f),
                        Ok((b, at3)) => Ok((SegmentView::Polynomial { degree: d, ease_in: b }, at3)),
                    },
                }
            } else if i == 3 {
                match <bool as FSOTable>::grammar(s, p) {
                    Err(f) => Err(f),
                    Ok((b, at2)) => Ok((SegmentView::Circular { ease_in: b }, at2)),
                }
            } else {
                match <String as FSOTable>::grammar(s, p) {
                    Err(f) => Err(f),
                    Ok((c, at2)) => Ok((SegmentView::Subcurve { curve: c }, at2)),
                }
            },
        }
    }

    open spec fn text_of(v: SegmentView) -> Seq<char> {
        match v {
            SegmentView::Constant => "Constant"@,
            SegmentView::Linear => "Linear"@,
            SegmentView::Polynomial { degree, ease_in } => "Polynomial"@ + seq![' '] + degree + seq![' ']
                + bool_text(ease_in),
            SegmentView::Circular { ease_in } => "Circular"@ + seq![' '] + bool_text(ease_in),
            SegmentView::Subcurve { curve } => "Subcurve"@ + seq![' '] + curve,
        }
    }

    fn parse(state: &mut FSOTableFileParser) -> (r: Result<CurveSegment, FSOParsingError>) {
        let snap = state.snapshot();
        let names = vec![
            chars_of("Constant"),
            chars_of("Linear"),
            chars_of("Polynomial"),
            chars_of("Circular"),
            chars_of("Subcurve"),
        ];
        let none: Vec<char> = Vec::new();
        proof {
            assert(names_view(names@) =~= segment_names());
            assert(none@ =~= seq![]);
        }
        skip_layout(state);
        let i = match consume_variant(state, none.as_slice(), &names, none.as_slice()) {
            Ok(i) => i,
            Err(e) => {
                state.restore(snap);
                return Err(e);
            },
        };
        if i == 0 {
            Ok(CurveSegment::Constant)
        } else if i == 1 {
            Ok(CurveSegment::Linear)
        } else if i == 2 {
            let degree = match Numeral::parse(state) {
                Ok(d) => d,
                Err(e) => {
                    state.restore(snap);
                    return Err(e);
                },
            };
            match bool::parse(state) {
                Ok(ease_in) => Ok(CurveSegment::Polynomial { degree, ease_in }),
                Err(e) => {
                    state.restore(snap);
                    Err(e)
                },
            }
        } else if i == 3 {
            match bool::parse(state) {
                Ok(ease_in) => Ok(CurveSegment::Circular { ease_in }),
                Err(e) => {
                    state.restore(snap);
                    Err(e)
                },
            }
        } else {
            match String::parse(state) {
                Ok(curve) => Ok(CurveSegment::Subcurve { curve }),
                Err(e) => {
                    state.restore(snap);
                    Err(e)
                },
            }
        }
    }

    fn dump(&self) -> (r: String) {
        let mut out: Vec<char>;
        match self {
            CurveSegment::Constant => {
                out = chars_of("Constant");
            },
            CurveSegment::Linear => {
                out = chars_of("Linear");
            },
            CurveSegment::Polynomial { degree, ease_in } => {
                out = chars_of("Polynomial");
                out.push(' ');
                append_chars(&mut out, &chars_of(degree.dump().as_str()));
                out.push(' ');
                append_chars(&mut out, &chars_of(ease_in.dump().as_str()));
            },
            CurveSegment::Circular { ease_in } => {
                out = chars_of("Circular");
                out.push(' ');
                append_chars(&mut out, &chars_of(ease_in.dump().as_str()));
            },
            CurveSegment::Subcurve { curve } => {
                out = chars_of("Subcurve");
                out.push(' ');
                append_chars(&mut out, &chars_of(curve.as_str()));
            },
        }
        proof {
            assert(out@ =~= Self::text_of(self@));
        }
        string_of(out.as_slice())
    }
}

/// Past a comma at `pos` (after whitespace and comments), if one stands
/// there; else `pos`.
pub open spec fn after_comma(s: Seq<char>, pos: int) -> int {
    match literal_grammar(s, pos, ","@) {
        Ok(p) => p,
        Err(_) => pos,
    }
}

impl FSOTable for CurveKeyframe {
    /// `(x, y):` and then the segment; the comma may be left out.
    open spec fn grammar(s: Seq<char>, pos: int) -> Result<(KeyframeView, int), int> {
        match literal_grammar(s, pos, "("@) {
            Err(f) => Err(f),
            Ok(at1) => match <Numeral as FSOTable>::grammar(s, at1) {
                Err(f) => Err(f),
                Ok((x, at2)) => match after_comma(s, at2) {
                    at3 => match <Numeral as FSOTable>::grammar(s, at3) {
                        Err(f) => Err(f),
                        Ok((y, at4)) => match literal_grammar(s, at4, "):"@) {
                            Err(f) => Err(f),
                            Ok(at5) => match <CurveSegment as FSOTable>::grammar(s, at5) {
                                Err(f) => Err(f),
                                Ok((seg, at6)) => Ok((KeyframeView { x, y, segment: seg }, at6)),
                            },
                        },
                    },
                },
            },
        }
    }

    open spec fn text_of(v: KeyframeView) -> Seq<char> {
        "("@ + v.x + ", "@ + v.y + "): "@ + <CurveSegment as FSOTable>::text_of(v.segment)
    }

    fn parse(state: &mut FSOTableFileParser) -> (r: Result<CurveKeyframe, FSOParsingError>) {
        let snap = state.snapshot();
        let open = chars_of("(");
        let comma = chars_of(",");
        let close = chars_of("):");
        match consume_string(state, open.as_slice()) {
            Ok(()) => {},
            Err(e) => {
                return Err(e);
            },
        }
        let x = match Numeral::parse(state) {
            Ok(x) => x,
            Err(e) => {
                state.restore(snap);
                return Err(e);
            },
        };
        let _ = consume_string(state, comma.as_slice());
        let y = match Numeral::parse(state) {
            Ok(y) => y,
            Err(e) => {
                state.restore(snap);
                return Err(e);
            },
        };
        match consume_string(state, close.as_slice()) {
            Ok(()) => {},
            Err(e) => {
                state.restore(snap);
                return Err(e);
            },
        }
        match CurveSegment::parse(state) {
            Ok(segment) => Ok(CurveKeyframe { x, y, segment }),
            Err(e) => {
                state.restore(snap);
                Err(e)
            },
        }
    }

    fn dump(&self) -> (r: String) {
        let mut out = chars_of("(");
        append_chars(&mut out, &chars_of(self.x.dump().as_str()));
        append_chars(&mut out, &chars_of(", "));
        append_chars(&mut out, &chars_of(self.y.dump().as_str()));
        append_chars(&mut out, &chars_of("): "));
        append_chars(&mut out, &chars_of(self.segment.dump().as_str()));
        proof {
            assert(out@ =~= Self::text_of(self@));
        }
        string_of(out.as_slice())
    }
}

/// Each keyframe's text on a line of its own, each line begun by a newline.
pub open spec fn keyframes_text(ks: Seq<KeyframeView>) -> Seq<char>
    decreases ks.len(),
{
    if ks.len() == 0 {
        seq![]
    } else {
        seq!['\n'] + <CurveKeyframe as FSOTable>::text_of(ks[0]) + keyframes_text(ks.subrange(1, ks.len() as int))
    }
}

pub proof fn lemma_keyframes_text_push(ks: Seq<KeyframeView>, k: KeyframeView)
    ensures
        keyframes_text(ks.push(k)) == keyframes_text(ks) + seq!['\n'] + <CurveKeyframe as FSOTable>::text_of(k),
    decreases ks.len(),
{
    if ks.len() == 0 {
        assert(ks.push(k).subrange(1, 1) =~= Seq::<KeyframeView>::empty());
        assert(keyframes_text(Seq::<KeyframeView>::empty()) == Seq::<char>::empty());
        assert(keyframes_text(ks) == Seq::<char>::empty());
        assert(ks.push(k)[0] == k);
        assert(keyframes_text(ks.push(k)) =~= keyframes_text(ks) + seq!['\n'] + <CurveKeyframe as FSOTable>::text_of(k));
    } else {
        let rest = ks.subrange(1, ks.len() as int);
        lemma_keyframes_text_push(rest, k);
        assert(ks.push(k)[0] == ks[0]);
        assert(ks.push(k).subrange(1, ks.len() as int + 1) =~= rest.push(k));
        assert(keyframes_text(ks.push(k)) =~= keyframes_text(ks) + seq!['\n'] + <CurveKeyframe as FSOTable>::text_of(k));
    }
}

impl FSOTable for Curve {
    /// The field `$Name:`, then two or more keyframes.
    open spec fn grammar(s: Seq<char>, pos: int) -> Result<(CurveView, int), int> {
        match field_grammar::<String>(s, pos, "$Name:"@) {
            Err(f) => Err(f),
            Ok((name, at1)) => {
                let (ks, at2) = repeated::<CurveKeyframe>(s, at1);
                if ks.len() >= 2 {
                    Ok((CurveView { name, keyframes: ks }, at2))
                } else {
                    Err(at2)
                }
            },
        }
    }

    open spec fn text_of(v: CurveView) -> Seq<char> {
        "$Name: "@ + v.name + keyframes_text(v.keyframes) + seq!['\n']
    }

    fn parse(state: &mut FSOTableFileParser) -> (r: Result<Curve, FSOParsingError>) {
        let snap = state.snapshot();
        let key = chars_of("$Name:");
        let name = match parse_field::<String>(state, key.as_slice()) {
            Ok(n) => n,
            Err(e) => {
                return Err(e);
            },
        };
        let keyframes = parse_repeated::<CurveKeyframe>(state);
        if keyframes.len() < 2 {
            proof {
                reveal_strlit("A curve needs two keyframes or more");
            }
            let e = error_here(state, string_of(chars_of("A curve needs two keyframes or more").as_slice()));
            state.restore(snap);
            return Err(e);
        }
        Ok(Curve { name, keyframes })
    }

    fn dump(&self) -> (r: String) {
        let mut out = chars_of("$Name: ");
        append_chars(&mut out, &chars_of(self.name.as_str()));
        let ghost head = out@;
        let mut i: usize = 0;
        while i < self.keyframes.len()
            invariant
                0 <= i <= self.keyframes@.len(),
                out@ == head + keyframes_text(views_of(self.keyframes@.subrange(0, i as int))),
            decreases self.keyframes@.len() - i,
        {
            out.push('\n');
            append_chars(&mut out, &chars_of(self.keyframes[i].dump().as_str()));
            proof {
                let sub = views_of(self.keyframes@.subrange(0, i + 1));
                let prev = views_of(self.keyframes@.subrange(0, i as int));
                assert(sub =~= prev.push(self.keyframes@[i as int]@));
                lemma_keyframes_text_push(prev, self.keyframes@[i as int]@);
                assert(out@ =~= head + keyframes_text(sub));
            }
            i = i + 1;
        }
        out.push('\n');
        proof {
            assert(self.keyframes@.subrange(0, self.keyframes@.len() as int) =~= self.keyframes@);
            assert(out@ =~= Self::text_of(self@));
        }
        string_of(out.as_slice())
    }
}

/// Each curve's text, one after the other.
pub open spec fn curves_text(cs: Seq<CurveView>) -> Seq<char>
    decreases cs.len(),
{
    if cs.len() == 0 {
        seq![]
    } else {
        <Curve as FSOTable>::text_of(cs[0]) + curves_text(cs.subrange(1, cs.len() as int))
    }
}

pub proof fn lemma_curves_text_push(cs: Seq<CurveView>, c: CurveView)
    ensures
        curves_text(cs.push(c)) == curves_text(cs) + <Curve as FSOTable>::text_of(c),
    decreases cs.len(),
{
    if cs.len() == 0 {
        assert(cs.push(c).subrange(1, 1) =~= Seq::<CurveView>::empty());
        assert(curves_text(Seq::<CurveView>::empty()) == Seq::<char>::empty());
        assert(curves_text(cs) == Seq::<char>::empty());
        assert(cs.push(c)[0] == c);
        assert(curves_text(cs.push(c)) =~= curves_text(cs) + <Curve as FSOTable>::text_of(c));
    } else {
        let rest = cs.subrange(1, cs.len() as int);
        lemma_curves_text_push(rest, c);
        assert(cs.push(c)[0] == cs[0]);
        assert(cs.push(c).subrange(1, cs.len() as int + 1) =~= rest.push(c));
        assert(curves_text(cs.push(c)) =~= curves_text(cs) + <Curve as FSOTable>::text_of(c));
    }
}

impl FSOTable for CurveTable {
    /// Any number of curves.
    open spec fn grammar(s: Seq<char>, pos: int) -> Result<(Seq<CurveView>, int), int> {
        let (cs, p) = repeated::<Curve>(s, pos);
        Ok((cs, p))
    }

    open spec fn text_of(v: Seq<CurveView>) -> Seq<char> {
        curves_text(v)
    }

    fn parse(state: &mut FSOTableFileParser) -> (r: Result<CurveTable, FSOParsingError>) {
        let curves = parse_repeated::<Curve>(state);
        Ok(CurveTable { curves })
    }

    fn dump(&self) -> (r: String) {
        let mut out: Vec<char> = Vec::new();
        let mut i: usize = 0;
        proof {
            assert(views_of(self.curves@.subrange(0, 0)) =~= Seq::<CurveView>::empty());
        }
        while i < self.curves.len()
            invariant
                0 <= i <= self.curves@.len(),
                out@ == curves_text(views_of(self.curves@.subrange(0, i as int))),
            decreases self.curves@.len() - i,
        {
            append_chars(&mut out, &chars_of(self.curves[i].dump().as_str()));
            proof {
                let sub = views_of(self.curves@.subrange(0, i + 1));
                let prev = views_of(self.curves@.subrange(0, i as int));
                assert(sub =~= prev.push(self.curves@[i as int]@));
                lemma_curves_text_push(prev, self.curves@[i as int]@);
                assert(out@ =~= curves_text(sub));
            }
            i = i + 1;
        }
        proof {
            assert(self.curves@.subrange(0, self.curves@.len() as int) =~= self.curves@);
        }
        string_of(out.as_slice())
    }
}

impl Default for Curve {
    /// An unnamed straight line from (0, 0) to (1, 1).
    fn default() -> (r: Curve)
        ensures
            r@ == (CurveView {
                name: seq![],
                keyframes: seq![
                    KeyframeView { x: seq!['0'], y: seq!['0'], segment: SegmentView::Linear },
                    KeyframeView { x: seq!['1'], y: seq!['1'], segment: SegmentView::Constant },
                ],
            }),
    {
        let zero = vec!['0'];
        let one = vec!['1'];
        let name = string_of(Vec::<char>::new().as_slice());
        proof {
            assert(zero@ =~= seq!['0']);
            assert(one@ =~= seq!['1']);
        }
        let keyframes = vec![
            CurveKeyframe {
                x: Numeral::from_chars(zero.clone()),
                y: Numeral::from_chars(zero),
                segment: CurveSegment::Linear,
            },
            CurveKeyframe {
                x: Numeral::from_chars(one.clone()),
                y: Numeral::from_chars(one),
                segment: CurveSegment::Constant,
            },
        ];
        let r = Curve { name, keyframes };
        proof {
            assert(r@.name =~= Seq::<char>::empty());
            assert(r@.keyframes =~= seq![
                KeyframeView { x: seq!['0'], y: seq!['0'], segment: SegmentView::Linear },
                KeyframeView { x: seq!['1'], y: seq!['1'], segment: SegmentView::Constant },
            ]);
        }
        r
    }
}

} // verus!
