use vstd::prelude::*;
use crate::binder::{FSOParsingError, FSOTable, error_here};
use crate::scanner::{digits_end, is_digit, lemma_digits_end_bound, FSOParser, FSOTableFileParser, chars_of, matches_at, skip_inline, string_of, value_end};

verus! {

impl FSOTable for String {
    /// After blanks, the rest of the line up to a `;` comment, without
    /// trailing blanks; it must not be empty.
    open spec fn grammar(s: Seq<char>, pos: int) -> Result<(Seq<char>, int), int> {
        let q = skip_inline(s, pos, seq![]);
        let e = value_end(s, q, q);
        if q < e {
            Ok((s.subrange(q, e), e))
        } else {
            Err(q)
        }
    }

    open spec fn text_of(v: Seq<char>) -> Seq<char> {
        v
    }

    fn parse(state: &mut FSOTableFileParser) -> (r: Result<String, FSOParsingError>) {
        let snap = state.snapshot();
        let empty: Vec<char> = Vec::new();
        proof {
            assert(empty@ =~= seq![]);
        }
        state.consume_whitespace_strict(empty.as_slice());
        proof {
            state.lemma_pos_in_text();
            crate::scanner::lemma_value_end_bound(state.text(), state.pos(), state.pos());
        }
        let v = state.read_until_last_whitespace_of_line();
        if v.len() == 0 {
            proof {
                reveal_strlit("Expected a text value");
            }
            let e = error_here(state, string_of(chars_of("Expected a text value").as_slice()));
            state.restore(snap);
            Err(e)
        } else {
            Ok(string_of(v.as_slice()))
        }
    }

    fn dump(&self) -> (r: String) {
        self.clone()
    }
}

impl FSOTable for bool {
    /// After blanks, `true` or `false`.
    open spec fn grammar(s: Seq<char>, pos: int) -> Result<(bool, int), int> {
        let q = skip_inline(s, pos, seq![]);
        if matches_at(s, q, "true"@) {
            Ok((true, q + "true"@.len()))
        } else if matches_at(s, q, "false"@) {
            Ok((false, q + "false"@.len()))
        } else {
            Err(q)
        }
    }

    open spec fn text_of(v: bool) -> Seq<char> {
        if v {
            "true"@
        } else {
            "false"@
        }
    }

    fn parse(state: &mut FSOTableFileParser) -> (r: Result<bool, FSOParsingError>) {
        let snap = state.snapshot();
        let empty: Vec<char> = Vec::new();
        proof {
            assert(empty@ =~= seq![]);
        }
        state.consume_whitespace_strict(empty.as_slice());
        let t = chars_of("true");
        let f = chars_of("false");
        if state.starts_with(t.as_slice()) {
            state.consume(t.len());
            Ok(true)
        } else if state.starts_with(f.as_slice()) {
            state.consume(f.len());
            Ok(false)
        } else {
            proof {
                reveal_strlit("Expected true or false");
            }
            let e = error_here(state, string_of(chars_of("Expected true or false").as_slice()));
            state.restore(snap);
            Err(e)
        }
    }

    fn dump(&self) -> (r: String) {
        if *self {
            string_of(chars_of("true").as_slice())
        } else {
            string_of(chars_of("false").as_slice())
        }
    }
}

/// Just past a sign (`+` or `-`) at `i`, or `i` where none stands.
pub open spec fn sign_end(s: Seq<char>, i: int) -> int {
    if 0 <= i < s.len() && (s[i] == '+' || s[i] == '-') {
        i + 1
    } else {
        i
    }
}

/// The end of the longest mantissa at `q`: an optional sign, then digits
/// with an optional `.` and more digits, with a digit on at least one side
/// of the `.`; or `q` where none starts.
pub open spec fn mantissa_end(s: Seq<char>, q: int) -> int {
    let a = sign_end(s, q);
    let b = digits_end(s, a);
    if b < s.len() && s[b] == '.' {
        let c = digits_end(s, b + 1);
        if a < b || b + 1 < c {
            c
        } else {
            q
        }
    } else if a < b {
        b
    } else {
        q
    }
}

/// The end of the longest decimal numeral at `q`, or `q` where none starts:
/// a mantissa, then optionally `e` or `E`, an optional sign and digits.
pub open spec fn numeral_end(s: Seq<char>, q: int) -> int {
    let m = mantissa_end(s, q);
    if m == q {
        q
    } else if m < s.len() && (s[m] == 'e' || s[m] == 'E') {
        let d = sign_end(s, m + 1);
        let e = digits_end(s, d);
        if d < e {
            e
        } else {
            m
        }
    } else {
        m
    }
}

/// `t` is a whole decimal numeral.
pub open spec fn is_numeral(t: Seq<char>) -> bool {
    0 < t.len() && numeral_end(t, 0) == t.len()
}

/// A number as the decimal numeral that writes it, such as `-0.25` or
/// `1.5e-3`.
#[derive(Debug)]
pub struct Numeral {
    digits: Vec<char>,
}

impl View for Numeral {
    type V = Seq<char>;

    closed spec fn view(&self) -> Seq<char> {
        self.digits@
    }
}

impl Numeral {
    /// The numeral written `text`, if it is one.
    pub fn new(text: &str) -> (r: Option<Numeral>)
        requires
            text@.len() < usize::MAX,
        ensures
            r is Some <==> is_numeral(text@),
            r matches Some(n) ==> n@ == text@,
    {
        let digits = chars_of(text);
        let state = FSOTableFileParser::new(text);
        let e = numeral_end_exec(&state, 0);
        if 0 < e && e == digits.len() {
            Some(Numeral { digits })
        } else {
            None
        }
    }

    /// The numeral's characters.
    pub fn text(&self) -> (r: String)
        ensures
            r@ == self@,
    {
        string_of(self.digits.as_slice())
    }

    pub(crate) fn from_chars(digits: Vec<char>) -> (r: Numeral)
        ensures
            r@ == digits@,
    {
        Numeral { digits }
    }
}

/// The first position at or after `i` that holds no decimal digit.
fn digits_end_exec(state: &FSOTableFileParser, i: usize) -> (r: usize)
    requires
        state.wf(),
        i <= state.text().len(),
    ensures
        r == digits_end(state.text(), i as int),
{
    let cs = state.get();
    let ghost s = state.text();
    let ghost base = state.pos();
    proof {
        lemma_digits_end_bound(s, i as int);
    }
    let mut j = i;
    while j < state.text_len() && is_digit_exec(state.char_at(j))
        invariant
            state.wf(),
            i <= j <= s.len(),
            s == state.text(),
            digits_end(s, j as int) == digits_end(s, i as int),
        decreases s.len() - j,
    {
        j = j + 1;
    }
    j
}

fn is_digit_exec(c: char) -> (r: bool)
    ensures
        r == is_digit(c),
{
    '0' <= c && c <= '9'
}

/// Just past a sign at `i`, or `i`.
fn sign_end_exec(state: &FSOTableFileParser, i: usize) -> (r: usize)
    requires
        i <= state.text().len(),
        state.text().len() < usize::MAX,
    ensures
        r == sign_end(state.text(), i as int),
{
    if i < state.text_len() && (state.char_at(i) == '+' || state.char_at(i) == '-') {
        i + 1
    } else {
        i
    }
}

/// The end of the numeral at `q`, or `q` where none starts.
fn numeral_end_exec(state: &FSOTableFileParser, q: usize) -> (r: usize)
    requires
        state.wf(),
        q <= state.text().len(),
    ensures
        r == numeral_end(state.text(), q as int),
        q <= r <= state.text().len(),
{
    let ghost s = state.text();
    proof {
        state.lemma_pos_in_text();
    }
    let a = sign_end_exec(state, q);
    proof {
        lemma_digits_end_bound(s, a as int);
    }
    let b = digits_end_exec(state, a);
    let m = if b < state.text_len() && state.char_at(b) == '.' {
        proof {
            lemma_digits_end_bound(s, b + 1);
        }
        let c = digits_end_exec(state, b + 1);
        if a < b || b + 1 < c {
            c
        } else {
            q
        }
    } else if a < b {
        b
    } else {
        q
    };
    if m == q {
        q
    } else if m < state.text_len() && (state.char_at(m) == 'e' || state.char_at(m) == 'E') {
        let d = sign_end_exec(state, m + 1);
        proof {
            lemma_digits_end_bound(s, d as int);
        }
        let e = digits_end_exec(state, d);
        if d < e {
            e
        } else {
            m
        }
    } else {
        m
    }
}

impl FSOTable for Numeral {
    /// After blanks, the longest decimal numeral.
    open spec fn grammar(s: Seq<char>, pos: int) -> Result<(Seq<char>, int), int> {
        let q = skip_inline(s, pos, seq![]);
        let e = numeral_end(s, q);
        if q < e {
            Ok((s.subrange(q, e), e))
        } else {
            Err(q)
        }
    }

    open spec fn text_of(v: Seq<char>) -> Seq<char> {
        v
    }

    fn parse(state: &mut FSOTableFileParser) -> (r: Result<Numeral, FSOParsingError>) {
        let snap = state.snapshot();
        let empty: Vec<char> = Vec::new();
        proof {
            assert(empty@ =~= seq![]);
        }
        state.consume_whitespace_strict(empty.as_slice());
        let q = state.snapshot().0;
        let e = numeral_end_exec(state, q);
        if q < e {
            let digits = state.copy_ahead(e - q);
            state.consume(e - q);
            Ok(Numeral { digits })
        } else {
            proof {
                reveal_strlit("Expected a number");
            }
            let e = error_here(state, string_of(chars_of("Expected a number").as_slice()));
            state.restore(snap);
            Err(e)
        }
    }

    fn dump(&self) -> (r: String) {
        string_of(self.digits.as_slice())
    }
}

} // verus!
