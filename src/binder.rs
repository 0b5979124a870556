use vstd::prelude::*;
use crate::scanner::{FSOParser, FSOTableFileParser, append_chars, chars_of, line_at, matches_at, snippet_end, string_of, ws_scan};

verus! {

/// Why and where a bind failed: a reason, and the line (from 1) of the
/// position at which it failed.
#[derive(Debug)]
pub struct FSOParsingError {
    pub reason: String,
    pub line: usize,
}

/// Where skipping whitespace, comments and version markers from `pos` stops.
pub open spec fn ws_end(s: Seq<char>, pos: int) -> int
    decreases s.len() - pos,
{
    let r = ws_scan(s, pos, false, true, None);
    if r.2 is Some && pos < r.0 <= s.len() {
        ws_end(s, r.0)
    } else {
        r.0
    }
}

/// Skips whitespace, comments and version markers.
pub fn skip_layout(state: &mut FSOTableFileParser)
    requires
        old(state).wf(),
    ensures
        final(state).wf(),
        final(state).text() == old(state).text(),
        final(state).pos() == ws_end(old(state).text(), old(state).pos()),
{
    let ghost s = state.text();
    let mut going = true;
    while going
        invariant
            state.wf(),
            state.text() == s,
            s == old(state).text(),
            going ==> ws_end(s, state.pos()) == ws_end(s, old(state).pos()),
            !going ==> state.pos() == ws_end(s, old(state).pos()),
        decreases if going { s.len() - state.pos() + 1 } else { 0int },
    {
        let before = state.snapshot();
        let (_, version) = state.consume_whitespace(false);
        proof {
            state.lemma_pos_in_text();
        }
        if version.is_none() || state.snapshot().0 <= before.0 {
            going = false;
        }
    }
}

/// `r` and the cursor's end position `end` are what the grammar result `g`
/// says: the value bound and the position after it, or an error with a
/// reason, on the line where binding failed, with the cursor back at `start`.
pub open spec fn binds<T: View>(
    g: Result<(T::V, int), int>,
    s: Seq<char>,
    start: int,
    r: Result<T, FSOParsingError>,
    end: int,
) -> bool {
    match g {
        Ok((v, p)) => match r {
            Ok(x) => x@ == v && end == p,
            Err(_) => false,
        },
        Err(f) => match r {
            Ok(_) => false,
            Err(e) => e.line == line_at(s, f) && e.reason@.len() > 0 && end == start,
        },
    }
}

/// A record type that can be bound to table text and written back to it.
pub trait FSOTable: Sized + View {
    /// The value that the text `s` from `pos` binds to and the position
    /// after it, or the position where binding fails.
    spec fn grammar(s: Seq<char>, pos: int) -> Result<(Self::V, int), int>;

    /// The text that `dump` writes for a value.
    spec fn text_of(v: Self::V) -> Seq<char>;

    /// Binds a value at the cursor; on failure the cursor does not move.
    fn parse(state: &mut FSOTableFileParser) -> (r: Result<Self, FSOParsingError>)
        requires
            old(state).wf(),
        ensures
            final(state).wf(),
            final(state).text() == old(state).text(),
            binds::<Self>(
                Self::grammar(old(state).text(), old(state).pos()),
                old(state).text(),
                old(state).pos(),
                r,
                final(state).pos(),
            ),
    ;

    /// The value written in table text.
    fn dump(&self) -> (r: String)
        ensures
            r@ == Self::text_of(self@),
    ;
}

/// An error at the cursor's line.
pub fn error_here(state: &FSOTableFileParser, reason: String) -> (e: FSOParsingError)
    requires
        state.wf(),
    ensures
        e.line == line_at(state.text(), state.pos()),
        e.reason == reason,
{
    FSOParsingError { reason, line: state.line() }
}

/// After whitespace and comments, the literal `lit`: the position after it,
/// or the position where it is missing.
pub open spec fn literal_grammar(s: Seq<char>, pos: int, lit: Seq<char>) -> Result<int, int> {
    let p = ws_end(s, pos);
    if matches_at(s, p, lit) {
        Ok(p + lit.len())
    } else {
        Err(p)
    }
}

/// Skips whitespace and comments, then consumes `lit`; on failure the
/// cursor does not move.
pub fn consume_string(state: &mut FSOTableFileParser, lit: &[char]) -> (r: Result<(), FSOParsingError>)
    requires
        old(state).wf(),
    ensures
        final(state).wf(),
        final(state).text() == old(state).text(),
        match literal_grammar(old(state).text(), old(state).pos(), lit@) {
            Ok(p) => r is Ok && final(state).pos() == p,
            Err(f) => match r {
                Ok(_) => false,
                Err(e) => {
                    &&& e.line == line_at(old(state).text(), f)
                    &&& e.reason@ == "Expected "@ + lit@
                    &&& e.reason@.len() > 0
                    &&& final(state).pos() == old(state).pos()
                },
            },
        },
{
    let snap = state.snapshot();
    skip_layout(state);
    if state.starts_with(lit) {
        state.consume(lit.len());
        Ok(())
    } else {
        proof {
            reveal_strlit("Expected ");
        }
        let mut reason = chars_of("Expected ");
        append_chars(&mut reason, &slice_to_vec_chars(lit));
        let e = error_here(state, string_of(reason.as_slice()));
        state.restore(snap);
        Err(e)
    }
}

fn slice_to_vec_chars(cs: &[char]) -> (r: Vec<char>)
    ensures
        r@ == cs@,
{
    let mut r: Vec<char> = Vec::new();
    let mut i: usize = 0;
    while i < cs.len()
        invariant
            0 <= i <= cs@.len(),
            r@ == cs@.subrange(0, i as int),
        decreases cs@.len() - i,
    {
        r.push(cs[i]);
        i = i + 1;
        proof {
            assert(r@ =~= cs@.subrange(0, i as int));
        }
    }
    proof {
        assert(r@ =~= cs@);
    }
    r
}

/// A keyed field: the key after whitespace and comments, then a value.
pub open spec fn field_grammar<T: FSOTable>(s: Seq<char>, pos: int, key: Seq<char>) -> Result<(T::V, int), int> {
    match literal_grammar(s, pos, key) {
        Ok(p) => T::grammar(s, p),
        Err(f) => Err(f),
    }
}

/// The characters of each name.
pub open spec fn names_view(names: Seq<Vec<char>>) -> Seq<Seq<char>> {
    names.map_values(|n: Vec<char>| n@)
}

/// The index of the first of `names`, from the `i`-th on, whose literal
/// `prefix + name + suffix` stands at `p`; the number of names if none does.
pub open spec fn first_variant(
    s: Seq<char>,
    p: int,
    prefix: Seq<char>,
    names: Seq<Seq<char>>,
    suffix: Seq<char>,
    i: int,
) -> int
    decreases names.len() - i,
{
    if i < 0 || i >= names.len() {
        names.len() as int
    } else if matches_at(s, p, prefix + names[i] + suffix) {
        i
    } else {
        first_variant(s, p, prefix, names, suffix, i + 1)
    }
}

/// A tagged variant at `pos`: the index of the first name in declared order
/// whose literal stands there and the position after that literal, or `pos`
/// where none does.
pub open spec fn variant_grammar(
    s: Seq<char>,
    pos: int,
    prefix: Seq<char>,
    names: Seq<Seq<char>>,
    suffix: Seq<char>,
) -> Result<(int, int), int> {
    let p = pos;
    let i = first_variant(s, p, prefix, names, suffix, 0);
    if 0 <= i < names.len() {
        Ok((i, p + (prefix + names[i] + suffix).len()))
    } else {
        Err(p)
    }
}

/// Every literal tried, each followed by `", "`.
pub open spec fn literal_list(prefix: Seq<char>, names: Seq<Seq<char>>, suffix: Seq<char>) -> Seq<char>
    decreases names.len(),
{
    if names.len() == 0 {
        seq![]
    } else {
        literal_list(prefix, names.drop_last(), suffix) + prefix + names.last() + suffix + ", "@
    }
}

/// The reason given when no variant matches at `p`: the literals tried and
/// up to 20 characters of what stands there.
pub open spec fn variant_reason(
    prefix: Seq<char>,
    names: Seq<Seq<char>>,
    suffix: Seq<char>,
    s: Seq<char>,
    p: int,
) -> Seq<char> {
    "Expected one of "@ + literal_list(prefix, names, suffix) + "got "@ + s.subrange(p, snippet_end(s, p, 20))
        + "."@
}

/// Binds a tagged variant: consumes the literal `prefix + name + suffix` of
/// the first name, in the order given, that stands at the cursor, and
/// returns that name's index. On failure the cursor does not move.
pub fn consume_variant(
    state: &mut FSOTableFileParser,
    prefix: &[char],
    names: &Vec<Vec<char>>,
    suffix: &[char],
) -> (r: Result<usize, FSOParsingError>)
    requires
        old(state).wf(),
    ensures
        final(state).wf(),
        final(state).text() == old(state).text(),
        match variant_grammar(old(state).text(), old(state).pos(), prefix@, names_view(names@), suffix@) {
            Ok((i, p)) => r == Ok::<usize, FSOParsingError>(i as usize) && final(state).pos() == p,
            Err(f) => match r {
                Ok(_) => false,
                Err(e) => {
                    &&& e.line == line_at(old(state).text(), f)
                    &&& e.reason@ == variant_reason(prefix@, names_view(names@), suffix@, old(state).text(), f)
                    &&& e.reason@.len() > 0
                    &&& final(state).pos() == old(state).pos()
                },
            },
        },
{
    let ghost s = state.text();
    let ghost nv = names_view(names@);
    let ghost p = state.pos();
    let pre = slice_to_vec_chars(prefix);
    let suf = slice_to_vec_chars(suffix);
    let mut listed = chars_of("Expected one of ");
    let ghost head = listed@;
    proof {
        assert(nv.subrange(0, 0) =~= seq![]);
        assert(listed@ =~= head + literal_list(prefix@, nv.subrange(0, 0), suffix@));
    }
    let mut i: usize = 0;
    while i < names.len()
        invariant
            state.wf(),
            state.text() == s,
            s == old(state).text(),
            p == old(state).pos(),
            state.pos() == p,
            nv == names_view(names@),
            pre@ == prefix@,
            suf@ == suffix@,
            0 <= i <= names@.len(),
            first_variant(s, p, prefix@, nv, suffix@, i as int) == first_variant(s, p, prefix@, nv, suffix@, 0),
            listed@ == head + literal_list(prefix@, nv.subrange(0, i as int), suffix@),
        decreases names@.len() - i,
    {
        let mut lit = pre.clone();
        proof {
            assert(lit@ == pre@);
        }
        append_chars(&mut lit, &names[i]);
        append_chars(&mut lit, &suf);
        proof {
            assert(nv[i as int] == names@[i as int]@);
            assert(lit@ == prefix@ + nv[i as int] + suffix@);
        }
        if state.starts_with(lit.as_slice()) {
            state.consume(lit.len());
            return Ok(i);
        }
        append_chars(&mut listed, &lit);
        append_chars(&mut listed, &chars_of(", "));
        proof {
            let sub = nv.subrange(0, i + 1);
            assert(sub.drop_last() =~= nv.subrange(0, i as int));
            assert(sub.last() == nv[i as int]);
            assert(listed@ =~= head + literal_list(prefix@, sub, suffix@));
        }
        i = i + 1;
    }
    proof {
        assert(nv.subrange(0, names@.len() as int) =~= nv);
    }
    append_chars(&mut listed, &chars_of("got "));
    append_chars(&mut listed, &state.snippet(20));
    append_chars(&mut listed, &chars_of("."));
    proof {
        reveal_strlit("Expected one of ");
    }
    let e = error_here(state, string_of(listed.as_slice()));
    Err(e)
}

/// A run of bound values ends at the first position where binding fails:
/// when `vs[i]` binds from `ps[i]` to `ps[i + 1]`, each time moving on, and
/// nothing binds at the last position, the run from `ps[0]` holds exactly
/// `vs` and ends at that last position.
pub proof fn lemma_repeated_stops_at_first_failure<T: FSOTable>(s: Seq<char>, ps: Seq<int>, vs: Seq<T::V>)
    requires
        ps.len() == vs.len() + 1,
        forall|i: int|
            0 <= i < vs.len() ==> ps[i] < ps[i + 1] <= s.len() && #[trigger] T::grammar(s, ps[i]) == Ok::<(T::V, int), int>((vs[i], ps[i + 1])),
        T::grammar(s, ps.last()) is Err,
    ensures
        repeated::<T>(s, ps[0]) == (vs, ps.last()),
    decreases vs.len(),
{
    if vs.len() > 0 {
        let ps1 = ps.subrange(1, ps.len() as int);
        let vs1 = vs.subrange(1, vs.len() as int);
        assert forall|i: int| 0 <= i < vs1.len() implies ps1[i] < ps1[i + 1] <= s.len() && #[trigger] T::grammar(s, ps1[i]) == Ok::<(T::V, int), int>((vs1[i], ps1[i + 1])) by {
            assert(T::grammar(s, ps[i + 1]) == Ok::<(T::V, int), int>((vs[i + 1], ps[i + 2])));
        }
        assert(ps1.last() == ps.last());
        lemma_repeated_stops_at_first_failure::<T>(s, ps1, vs1);
        assert(T::grammar(s, ps[0]) == Ok::<(T::V, int), int>((vs[0], ps[1])));
        assert(seq![vs[0]] + vs1 =~= vs);
    }
}

/// The declared order of the variants decides between two whose literals
/// both stand at the cursor: with `a` declared first, `a` is bound; with `b`
/// declared first, `b` is; each consumes its own literal.
pub proof fn lemma_declared_order_decides(
    s: Seq<char>,
    pos: int,
    prefix: Seq<char>,
    a: Seq<char>,
    b: Seq<char>,
    suffix: Seq<char>,
)
    requires
        matches_at(s, pos, prefix + a + suffix),
        matches_at(s, pos, prefix + b + suffix),
    ensures
        variant_grammar(s, pos, prefix, seq![a, b], suffix) == Ok::<(int, int), int>(
            (0, pos + (prefix + a + suffix).len()),
        ),
        variant_grammar(s, pos, prefix, seq![b, a], suffix) == Ok::<(int, int), int>(
            (0, pos + (prefix + b + suffix).len()),
        ),
{
    assert(seq![a, b][0] == a);
    assert(seq![b, a][0] == b);
}

/// Binds the field with key `key`; on failure the cursor does not move.
pub fn parse_field<T: FSOTable>(state: &mut FSOTableFileParser, key: &[char]) -> (r: Result<T, FSOParsingError>)
    requires
        old(state).wf(),
    ensures
        final(state).wf(),
        final(state).text() == old(state).text(),
        binds::<T>(field_grammar::<T>(old(state).text(), old(state).pos(), key@), old(state).text(), old(state).pos(), r, final(state).pos()),
{
    let snap = state.snapshot();
    match consume_string(state, key) {
        Ok(()) => {},
        Err(e) => {
            return Err(e);
        },
    }
    match T::parse(state) {
        Ok(v) => Ok(v),
        Err(e) => {
            state.restore(snap);
            Err(e)
        },
    }
}

/// Binds the optional field with key `key`: its value if the field binds,
/// and otherwise `None`, with the cursor left where it was.
pub fn parse_optional<T: FSOTable>(state: &mut FSOTableFileParser, key: &[char]) -> (r: Option<T>)
    requires
        old(state).wf(),
    ensures
        final(state).wf(),
        final(state).text() == old(state).text(),
        match field_grammar::<T>(old(state).text(), old(state).pos(), key@) {
            Ok((v, p)) => match r {
                Some(x) => x@ == v && final(state).pos() == p,
                None => false,
            },
            Err(_) => r is None && final(state).pos() == old(state).pos(),
        },
{
    match parse_field::<T>(state, key) {
        Ok(v) => Some(v),
        Err(_) => None,
    }
}

/// The views of a sequence of values.
pub open spec fn views_of<T: View>(xs: Seq<T>) -> Seq<T::V> {
    xs.map_values(|x: T| x@)
}

/// Values bound one after another from `pos` for as long as binding
/// succeeds, and the position after the last one. A bind that does not
/// move the cursor ends the run after its value.
pub open spec fn repeated<T: FSOTable>(s: Seq<char>, pos: int) -> (Seq<T::V>, int)
    decreases s.len() - pos,
{
    match T::grammar(s, pos) {
        Ok((v, p)) => if pos < p <= s.len() {
            let (rest, e) = repeated::<T>(s, p);
            (seq![v] + rest, e)
        } else {
            (seq![v], p)
        },
        Err(_) => (seq![], pos),
    }
}

/// Binds values one after another until one fails; the cursor stays after
/// the last value bound.
pub fn parse_repeated<T: FSOTable>(state: &mut FSOTableFileParser) -> (r: Vec<T>)
    requires
        old(state).wf(),
    ensures
        final(state).wf(),
        final(state).text() == old(state).text(),
        repeated::<T>(old(state).text(), old(state).pos()) == (views_of(r@), final(state).pos()),
{
    let ghost s = state.text();
    let ghost start = state.pos();
    let mut out: Vec<T> = Vec::new();
    let mut going = true;
    proof {
        assert(views_of(out@) =~= seq![]);
        let (rest, e) = repeated::<T>(s, start);
        assert(seq![] + rest =~= rest);
    }
    while going
        invariant
            state.wf(),
            state.text() == s,
            going ==> repeated::<T>(s, start) == (
                views_of(out@) + repeated::<T>(s, state.pos()).0,
                repeated::<T>(s, state.pos()).1,
            ),
            !going ==> repeated::<T>(s, start) == (views_of(out@), state.pos()),
        decreases if going { s.len() - state.pos() + 1 } else { 0int },
    {
        let before = state.snapshot();
        match T::parse(state) {
            Ok(x) => {
                let ghost old_out = out@;
                out.push(x);
                proof {
                    assert(views_of(out@) =~= views_of(old_out) + seq![x@]);
                    let p = state.pos();
                    if before.0 < p {
                        let (rest, e) = repeated::<T>(s, p);
                        assert(views_of(old_out) + (seq![x@] + rest) =~= views_of(out@) + rest);
                    } else {
                        assert(views_of(old_out) + seq![x@] =~= views_of(out@));
                    }
                }
                if state.snapshot().0 <= before.0 {
                    going = false;
                }
            },
            Err(_) => {
                proof {
                    assert(views_of(out@) + seq![] =~= views_of(out@));
                }
                going = false;
            },
        }
    }
    out
}

} // verus!
