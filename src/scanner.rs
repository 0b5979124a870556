use vstd::prelude::*;
use vstd::slice::slice_subrange;
use vstd::std_specs::iter::IteratorSpec;

verus! {

/// Line number (1-based) of position `pos` in `s`: one more than the
/// number of newlines before it.
pub open spec fn line_at(s: Seq<char>, pos: int) -> int
    decreases pos,
{
    if pos <= 0 || pos > s.len() {
        1
    } else {
        line_at(s, pos - 1) + if s[pos - 1] == '\n' { 1int } else { 0int }
    }
}

pub proof fn lemma_line_at_bound(s: Seq<char>, pos: int)
    requires
        0 <= pos <= s.len(),
    ensures
        1 <= line_at(s, pos) <= pos + 1,
    decreases pos,
{
    if pos > 0 {
        lemma_line_at_bound(s, pos - 1);
    }
}

/// Whitespace that does not end a line: the Unicode `White_Space`
/// characters other than the newline.
pub open spec fn is_inline_ws(c: char) -> bool {
    let u = c as u32;
    ||| u == 0x09
    ||| (0x0B <= u && u <= 0x0D)
    ||| u == 0x20
    ||| u == 0x85
    ||| u == 0xA0
    ||| u == 0x1680
    ||| (0x2000 <= u && u <= 0x200A)
    ||| u == 0x2028
    ||| u == 0x2029
    ||| u == 0x202F
    ||| u == 0x205F
    ||| u == 0x3000
}

/// Whether `c` is whitespace that does not end a line.
pub fn is_inline_ws_exec(c: char) -> (r: bool)
    ensures
        r == is_inline_ws(c),
{
    let u = c as u32;
    u == 0x09 || (0x0B <= u && u <= 0x0D) || u == 0x20 || u == 0x85 || u == 0xA0 || u == 0x1680 || (0x2000 <= u
        && u <= 0x200A) || u == 0x2028 || u == 0x2029 || u == 0x202F || u == 0x205F || u == 0x3000
}

/// `a` followed by `b` opens a comment: `//`, `/*` or `!*`.
pub open spec fn opens_comment(a: char, b: char) -> bool {
    (a == '/' && (b == '/' || b == '*')) || (a == '!' && b == '*')
}

/// A comment (`;`, `//`, `/*` or `!*`) starts at position `i`.
pub open spec fn comment_starts_at(s: Seq<char>, i: int) -> bool {
    0 <= i < s.len() && (s[i] == ';' || (i + 1 < s.len() && opens_comment(s[i], s[i + 1])))
}

pub open spec fn is_digit(c: char) -> bool {
    '0' <= c && c <= '9'
}

/// The first position at or after `i` that holds no decimal digit.
pub open spec fn digits_end(s: Seq<char>, i: int) -> int
    decreases s.len() - i,
{
    if 0 <= i < s.len() && is_digit(s[i]) {
        digits_end(s, i + 1)
    } else {
        i
    }
}

pub proof fn lemma_digits_end_bound(s: Seq<char>, i: int)
    requires
        0 <= i <= s.len(),
    ensures
        i <= digits_end(s, i) <= s.len(),
        forall|k: int| i <= k < digits_end(s, i) ==> is_digit(#[trigger] s[k]),
        digits_end(s, i) < s.len() ==> !is_digit(s[digits_end(s, i)]),
    decreases s.len() - i,
{
    if i < s.len() && is_digit(s[i]) {
        lemma_digits_end_bound(s, i + 1);
    }
}

/// The first position at or after `pos` that holds neither inline
/// whitespace nor one of `extra`.
pub open spec fn skip_inline(s: Seq<char>, pos: int, extra: Seq<char>) -> int
    decreases s.len() - pos,
{
    if 0 <= pos < s.len() && (is_inline_ws(s[pos]) || extra.contains(s[pos])) {
        skip_inline(s, pos + 1, extra)
    } else {
        pos
    }
}

/// `t` stands in `s` at position `i`.
pub open spec fn matches_at(s: Seq<char>, i: int, t: Seq<char>) -> bool {
    0 <= i && i + t.len() <= s.len() && s.subrange(i, i + t.len()) == t
}

/// The first position at or after `pos` where `t` stands, or the end of `s`.
pub open spec fn find_from(s: Seq<char>, pos: int, t: Seq<char>) -> int
    decreases s.len() - pos,
{
    if pos >= s.len() {
        s.len() as int
    } else if matches_at(s, pos, t) {
        pos
    } else {
        find_from(s, pos + 1, t)
    }
}

pub proof fn lemma_find_from_bound(s: Seq<char>, pos: int, t: Seq<char>)
    requires
        0 <= pos <= s.len(),
    ensures
        pos <= find_from(s, pos, t) <= s.len(),
        find_from(s, pos, t) < s.len() ==> matches_at(s, find_from(s, pos, t), t),
    decreases s.len() - pos,
{
    if pos < s.len() && !matches_at(s, pos, t) {
        lemma_find_from_bound(s, pos + 1, t);
    }
}

/// Where reading up to `t` leaves the cursor: past `t` when it was found
/// and is to be consumed, else at it (or at the end).
pub open spec fn after_target(s: Seq<char>, pos: int, t: Seq<char>, consume_target: bool) -> int {
    let f = find_from(s, pos, t);
    if consume_target && f < s.len() {
        f + t.len()
    } else {
        f
    }
}

/// The end of a free-text value that starts at `pos`: just past its last
/// non-blank character before the first newline or comment, given that the
/// last one seen so far ends at `last`.
pub open spec fn value_end(s: Seq<char>, pos: int, last: int) -> int
    decreases s.len() - pos,
{
    if pos < 0 || pos >= s.len() || s[pos] == '\n' || comment_starts_at(s, pos) {
        last
    } else {
        value_end(s, pos + 1, if is_inline_ws(s[pos]) { last } else { pos + 1 })
    }
}

pub proof fn lemma_value_end_bound(s: Seq<char>, pos: int, last: int)
    requires
        0 <= last <= pos <= s.len(),
    ensures
        last <= value_end(s, pos, last) <= s.len(),
    decreases s.len() - pos,
{
    if pos < s.len() && s[pos] != '\n' && !comment_starts_at(s, pos) {
        lemma_value_end_bound(s, pos + 1, if is_inline_ws(s[pos]) { last } else { pos + 1 });
    }
}

/// The end of the groups of a dot and digits that follow from `k` on.
pub open spec fn version_groups_end(h: Seq<char>, k: int) -> int
    decreases h.len() - k,
{
    if 0 <= k < h.len() && h[k] == '.' && k + 1 < digits_end(h, k + 1) <= h.len() {
        version_groups_end(h, digits_end(h, k + 1))
    } else {
        k
    }
}

/// `h` begins with a version marker: `;;FSO `, digits, one or more groups
/// of a dot and digits, then `;;`.
pub open spec fn is_version_marker(h: Seq<char>) -> bool {
    let a = digits_end(h, 6);
    let b = version_groups_end(h, a);
    &&& 6 <= h.len()
    &&& h.subrange(0, 6) == seq![';', ';', 'F', 'S', 'O', ' ']
    &&& 6 < a
    &&& a < b
    &&& b + 2 <= h.len()
    &&& h[b] == ';'
    &&& h[b + 1] == ';'
}

/// Relies on `regex::Regex::new` and `regex::Regex::is_match`: the version
/// pattern compiles, and as it is anchored by `\A`, with ASCII digit classes
/// and no other alternatives, it matches exactly when the haystack begins
/// with a version marker.
#[verifier::external_body]
fn regex_is_match(pattern: &str, haystack: &[char]) -> (r: bool)
    requires
        pattern@ == version_pattern(),
    ensures
        r == is_version_marker(haystack@),
{
    let hay: String = haystack.iter().collect();
    match regex::Regex::new(pattern) {
        Ok(re) => re.is_match(&hay),
        Err(_) => false,
    }
}

/// Relies on collecting characters into a `String`: the same characters.
#[verifier::external_body]
pub(crate) fn string_of(v: &[char]) -> (r: String)
    ensures
        r@ == v@,
{
    v.iter().collect()
}

/// The pattern of a version marker line, `;;FSO 1.2.3;;`.
pub open spec fn version_pattern() -> Seq<char> {
    "\\A;;FSO [0-9]+(?:\\.[0-9]+)+;;"@
}

/// The rest of the line from `pos`, without its newline.
pub open spec fn line_from(s: Seq<char>, pos: int) -> Seq<char> {
    s.subrange(pos, find_from(s, pos, seq!['\n']))
}

/// Comment text gathered so far followed by a new comment: set apart by a
/// newline when the two are not adjacent, that is when a line ended between
/// them, and joined directly when they are.
pub open spec fn join_comment(acc: Option<Seq<char>>, apart: bool, text: Seq<char>) -> Seq<char> {
    match acc {
        Some(a) => if apart {
            a + seq!['\n'] + text
        } else {
            a + text
        },
        None => text,
    }
}

/// Skipping whitespace, newlines and comments from `pos`: the position where
/// it stops, the comment text gathered, and the version marker that stopped
/// it, if one did. `lb` tells whether a line ended since the last comment (a
/// line comment ends its line).
pub open spec fn ws_scan(s: Seq<char>, pos: int, stop_nl: bool, lb: bool, acc: Option<Seq<char>>) -> (
    int,
    Option<Seq<char>>,
    Option<Seq<char>>,
)
    decreases s.len() - pos,
{
    let p = skip_inline(s, pos, seq![]);
    if pos < 0 || p < pos || p >= s.len() {
        (p, acc, None)
    } else if s[p] == '\n' {
        if stop_nl {
            (p, acc, None)
        } else {
            ws_scan(s, p + 1, stop_nl, true, acc)
        }
    } else if s[p] == ';' && p + 1 < s.len() && s[p + 1] == ';' && is_version_marker(line_from(s, p)) {
        let f = find_from(s, p + 2, seq![';', ';']);
        let np = if f < s.len() { f + 2 } else { f };
        (np, acc, Some(seq![';', ';'] + s.subrange(p + 2, f) + seq![';', ';']))
    } else if s[p] == ';' || (s[p] == '/' && p + 1 < s.len() && s[p + 1] == '/') {
        let f = find_from(s, p, seq!['\n']);
        let np = if f < s.len() { f + 1 } else { f };
        if pos < np <= s.len() {
            ws_scan(s, np, stop_nl, true, Some(join_comment(acc, lb, s.subrange(p, f))))
        } else {
            (np, acc, None)
        }
    } else if (s[p] == '!' || s[p] == '/') && p + 1 < s.len() && s[p + 1] == '*' {
        let st = s[p];
        let f = find_from(s, p + 2, seq!['*', st]);
        let np = if f < s.len() { f + 2 } else { f };
        let text = seq![st, '*'] + s.subrange(p + 2, f) + seq!['*', st];
        if pos < np <= s.len() {
            ws_scan(
                s,
                np,
                stop_nl,
                false,
                Some(join_comment(acc, lb, text)),
            )
        } else {
            (np, acc, None)
        }
    } else {
        (p, acc, None)
    }
}

/// The characters of an optional string.
pub open spec fn opt_view(o: Option<String>) -> Option<Seq<char>> {
    match o {
        Some(v) => Some(v@),
        None => None,
    }
}

/// The characters of an optional character vector.
pub open spec fn opt_vec_view(o: Option<Vec<char>>) -> Option<Seq<char>> {
    match o {
        Some(v) => Some(v@),
        None => None,
    }
}

pub proof fn lemma_skip_inline_bound(s: Seq<char>, pos: int, extra: Seq<char>)
    requires
        0 <= pos <= s.len(),
    ensures
        pos <= skip_inline(s, pos, extra) <= s.len(),
    decreases s.len() - pos,
{
    if pos < s.len() && (is_inline_ws(s[pos]) || extra.contains(s[pos])) {
        lemma_skip_inline_bound(s, pos + 1, extra);
    }
}

/// Comment text `acc` followed by `text`, set apart by a newline when
/// `apart` holds.
fn join_exec(acc: Option<Vec<char>>, apart: bool, text: &Vec<char>) -> (r: Vec<char>)
    ensures
        r@ == join_comment(opt_vec_view(acc), apart, text@),
{
    match acc {
        Some(a) => {
            let mut r = a;
            if apart {
                r.push('\n');
            }
            append_chars(&mut r, text);
            r
        },
        None => {
            let mut r: Vec<char> = Vec::new();
            append_chars(&mut r, text);
            proof {
                assert(r@ =~= text@);
            }
            r
        },
    }
}

/// Appends the characters of `w` to `v`.
pub fn append_chars(v: &mut Vec<char>, w: &Vec<char>)
    ensures
        final(v)@ == old(v)@ + w@,
{
    let mut i: usize = 0;
    while i < w.len()
        invariant
            0 <= i <= w@.len(),
            v@ == old(v)@ + w@.subrange(0, i as int),
        decreases w@.len() - i,
    {
        v.push(w[i]);
        i = i + 1;
        proof {
            assert(v@ =~= old(v)@ + w@.subrange(0, i as int));
        }
    }
    proof {
        assert(w@.subrange(0, w@.len() as int) =~= w@);
    }
}

/// Where a snippet of at most `max` characters from `pos` ends: at most
/// `max` characters on, and not past the end of the line.
pub open spec fn snippet_end(s: Seq<char>, pos: int, max: int) -> int {
    let e = find_from(s, pos, seq!['\n']);
    if e - pos > max {
        pos + max
    } else {
        e
    }
}

/// The characters of the text, in order.
pub(crate) fn chars_of(text: &str) -> (r: Vec<char>)
    ensures
        r@ == text@,
{
    broadcast use vstd::string::next_postcondition, vstd::string::axiom_spec_iter;

    let mut it = text.chars();
    let mut r: Vec<char> = Vec::new();
    loop
        invariant
            it.obeys_prophetic_iter_laws(),
            it.decrease() is Some,
            r@ + it.remaining() == text@,
        ensures
            r@ == text@,
        decreases it.decrease()->0,
    {
        match it.next() {
            Some(c) => {
                r.push(c);
                proof {
                    assert(r@ + it.remaining() =~= text@);
                }
            },
            None => {
                proof {
                    assert(r@ =~= text@);
                }
                break ;
            },
        }
    }
    r
}

/// The cursor over one table file: the text, and the position and line
/// reached so far.
pub struct FSOTableFileParser {
    text: Vec<char>,
    pos: usize,
    line: usize,
}

/// A cursor over table text: the text, the position reached in it, and
/// the scanning steps that move it on.
pub trait FSOParser {
    /// The whole text.
    spec fn text(&self) -> Seq<char>;

    /// The position reached, in characters.
    spec fn pos(&self) -> int;

    /// The position lies within the text, and the line counted so far is
    /// the line of that position.
    spec fn wf(&self) -> bool;

    /// The text not consumed yet.
    fn get(&self) -> (r: &[char])
        requires
            self.wf(),
        ensures
            r@ == self.text().subrange(self.pos(), self.text().len() as int),
    ;

    /// The line of the position reached, counted from 1.
    fn line(&self) -> (r: usize)
        requires
            self.wf(),
        ensures
            r == line_at(self.text(), self.pos()),
    ;

    /// Moves on by `count` characters, counting the newlines passed.
    fn consume(&mut self, count: usize)
        requires
            old(self).wf(),
            old(self).pos() + count <= old(self).text().len(),
        ensures
            final(self).wf(),
            final(self).text() == old(self).text(),
            final(self).pos() == old(self).pos() + count,
    ;

    /// Skips whitespace, newlines and comments, and returns the comment
    /// text passed and the version marker met, if any: the scan stops right
    /// after a version marker, and at a newline when `stop_on_newline` is set.
    fn consume_whitespace(&mut self, stop_on_newline: bool) -> (r: (Option<String>, Option<String>))
        requires
            old(self).wf(),
        ensures
            final(self).wf(),
            final(self).text() == old(self).text(),
            ({
                let (p, c, v) = ws_scan(old(self).text(), old(self).pos(), stop_on_newline, true, None);
                &&& final(self).pos() == p
                &&& opt_view(r.0) == c
                &&& opt_view(r.1) == v
            }),
    ;

    /// Skips spaces, tabs and carriage returns, and any of `also_consume`,
    /// up to the first other character.
    fn consume_whitespace_strict(&mut self, also_consume: &[char])
        requires
            old(self).wf(),
        ensures
            final(self).wf(),
            final(self).text() == old(self).text(),
            final(self).pos() == skip_inline(old(self).text(), old(self).pos(), also_consume@),
    ;

    /// The text up to the first `target` (or to the end); the cursor moves
    /// past it, and past `target` too when `consume_target` is set and it
    /// was found.
    fn read_until_target(&mut self, target: &[char], consume_target: bool) -> (r: Vec<char>)
        requires
            old(self).wf(),
        ensures
            final(self).wf(),
            final(self).text() == old(self).text(),
            r@ == old(self).text().subrange(
                old(self).pos(),
                find_from(old(self).text(), old(self).pos(), target@),
            ),
            final(self).pos() == after_target(old(self).text(), old(self).pos(), target@, consume_target),
    ;

    /// The rest of the current line up to a `;` comment, without trailing
    /// blanks; the cursor moves to its end.
    fn read_until_last_whitespace_of_line(&mut self) -> (r: Vec<char>)
        requires
            old(self).wf(),
        ensures
            final(self).wf(),
            final(self).text() == old(self).text(),
            final(self).pos() == value_end(old(self).text(), old(self).pos(), old(self).pos()),
            r@ == old(self).text().subrange(old(self).pos(), final(self).pos()),
    ;
}

impl FSOParser for FSOTableFileParser {
    /// The whole text.
    closed spec fn text(&self) -> Seq<char> {
        self.text@
    }

    /// The position reached, in characters.
    closed spec fn pos(&self) -> int {
        self.pos as int
    }

    closed spec fn wf(&self) -> bool {
        &&& self.pos <= self.text@.len()
        &&& self.text@.len() < usize::MAX
        &&& self.line == line_at(self.text@, self.pos as int)
    }

    fn get(&self) -> (r: &[char])
    {
        slice_subrange(self.text.as_slice(), self.pos, self.text.len())
    }

    fn line(&self) -> (r: usize)
    {
        self.line
    }

    fn consume(&mut self, count: usize)
    {
        let end = self.pos + count;
        while self.pos < end
            invariant
                self.wf(),
                self.text@ == old(self).text@,
                old(self).pos <= self.pos <= end <= self.text@.len(),
            decreases end - self.pos,
        {
            proof {
                lemma_line_at_bound(self.text@, self.pos as int);
            }
            if self.text[self.pos] == '\n' {
                self.line = self.line + 1;
            }
            self.pos = self.pos + 1;
        }
    }

    fn consume_whitespace_strict(&mut self, also_consume: &[char])
    {
        let ghost start = self.pos as int;
        while self.pos < self.text.len() && (is_inline_ws_exec(self.text[self.pos]) || slice_contains(
            also_consume,
            self.text[self.pos],
        ))
            invariant
                self.wf(),
                self.text@ == old(self).text@,
                old(self).pos <= self.pos <= self.text@.len(),
                skip_inline(self.text@, self.pos as int, also_consume@) == skip_inline(
                    self.text@,
                    start,
                    also_consume@,
                ),
            decreases self.text@.len() - self.pos,
        {
            self.consume(1);
        }
    }

    fn read_until_target(&mut self, target: &[char], consume_target: bool) -> (r: Vec<char>)
    {
        proof {
            lemma_find_from_bound(self.text@, self.pos as int, target@);
        }
        let f = self.find_exec(self.pos, target);
        let r = copy_range(&self.text, self.pos, f);
        let n = if consume_target && f < self.text.len() {
            f - self.pos + target.len()
        } else {
            f - self.pos
        };
        self.consume(n);
        r
    }

    fn read_until_last_whitespace_of_line(&mut self) -> (r: Vec<char>)
    {
        let mut i = self.pos;
        let mut last = self.pos;
        while i < self.text.len() && self.text[i] != '\n' && !self.comment_starts_exec(i)
            invariant
                self.wf(),
                self.pos <= last <= i <= self.text@.len(),
                value_end(self.text@, i as int, last as int) == value_end(
                    self.text@,
                    self.pos as int,
                    self.pos as int,
                ),
            decreases self.text@.len() - i,
        {
            if !is_inline_ws_exec(self.text[i]) {
                last = i + 1;
            }
            i = i + 1;
        }
        let r = copy_range(&self.text, self.pos, last);
        self.consume(last - self.pos);
        r
    }

    fn consume_whitespace(&mut self, stop_on_newline: bool) -> (r: (Option<String>, Option<String>))
    {
        let ghost s = self.text@;
        let ghost start = self.pos as int;
        let empty: Vec<char> = Vec::new();
        let mut comments: Option<Vec<char>> = None;
        let mut version: Option<Vec<char>> = None;
        let mut lb = true;
        let mut done = false;
        while !done
            invariant
                self.wf(),
                self.text@ == s,
                start <= self.pos,
                empty@.len() == 0,
                !done ==> version is None && ws_scan(s, self.pos as int, stop_on_newline, lb, opt_vec_view(comments))
                    == ws_scan(s, start, stop_on_newline, true, None),
                done ==> ws_scan(s, start, stop_on_newline, true, None) == (
                    self.pos as int,
                    opt_vec_view(comments),
                    opt_vec_view(version),
                ),
            decreases s.len() - self.pos + if done { 0int } else { 1int },
        {
            let ghost before = self.pos as int;
            proof {
                assert(empty@ =~= seq![]);
                lemma_skip_inline_bound(s, before, seq![]);
            }
            self.consume_whitespace_strict(empty.as_slice());
            let p = self.pos;
            let len = self.text.len();
            let nl = vec!['\n'];
            let semis = vec![';', ';'];
            proof {
                assert(nl@ =~= seq!['\n']);
                assert(semis@ =~= seq![';', ';']);
            }
            proof {
                lemma_find_from_bound(s, p as int, seq!['\n']);
            }
            let line_end = if p < len {
                self.find_exec(p, nl.as_slice())
            } else {
                len
            };
            if p >= len {
                done = true;
            } else if self.text[p] == '\n' {
                if stop_on_newline {
                    done = true;
                } else {
                    lb = true;
                    self.consume(1);
                }
            } else if self.text[p] == ';' && p + 1 < len && self.text[p + 1] == ';' && regex_is_match(
                "\\A;;FSO [0-9]+(?:\\.[0-9]+)+;;",
                slice_subrange(self.text.as_slice(), p, line_end),
            ) {
                self.consume(2);
                proof {
                    lemma_find_from_bound(s, p + 2, seq![';', ';']);
                }
                let inner = self.read_until_target(semis.as_slice(), true);
                let mut v = vec![';', ';'];
                append_chars(&mut v, &inner);
                append_chars(&mut v, &semis);
                proof {
                    assert(v@ =~= seq![';', ';'] + inner@ + seq![';', ';']);
                }
                version = Some(v);
                done = true;
            } else if self.text[p] == ';' || (self.text[p] == '/' && p + 1 < len && self.text[p + 1] == '/') {
                proof {
                    lemma_find_from_bound(s, p as int, seq!['\n']);
                    assert(!matches_at(s, p as int, seq!['\n']));
                }
                let text = self.read_until_target(nl.as_slice(), true);
                comments = Some(join_exec(comments, lb, &text));
                lb = true;
            } else if (self.text[p] == '!' || self.text[p] == '/') && p + 1 < len && self.text[p + 1] == '*' {
                let st = self.text[p];
                self.consume(2);
                let close = vec!['*', st];
                proof {
                    assert(close@ =~= seq!['*', st]);
                }
                proof {
                    lemma_find_from_bound(s, p + 2, seq!['*', st]);
                }
                let inner = self.read_until_target(close.as_slice(), true);
                let mut text = vec![st, '*'];
                append_chars(&mut text, &inner);
                append_chars(&mut text, &close);
                proof {
                    assert(text@ =~= seq![st, '*'] + inner@ + seq!['*', st]);
                }
                comments = Some(join_exec(comments, lb, &text));
                lb = false;
            } else {
                done = true;
            }
        }
        let c = match &comments {
            Some(v) => Some(string_of(v.as_slice())),
            None => None,
        };
        let v = match &version {
            Some(v) => Some(string_of(v.as_slice())),
            None => None,
        };
        (c, v)
    }
}

impl FSOTableFileParser {
    /// A cursor at the start of `text`.
    pub fn new(text: &str) -> (r: Self)
        requires
            text@.len() < usize::MAX,
        ensures
            r.wf(),
            r.text() == text@,
            r.pos() == 0,
    {
        FSOTableFileParser { text: chars_of(text), pos: 0, line: 1 }
    }

    /// At most `max` characters from the cursor, not past the end of the line.
    pub fn snippet(&self, max: usize) -> (r: Vec<char>)
        requires
            self.wf(),
        ensures
            r@ == self.text().subrange(self.pos(), snippet_end(self.text(), self.pos(), max as int)),
    {
        proof {
            lemma_find_from_bound(self.text@, self.pos as int, seq!['\n']);
        }
        let nl = vec!['\n'];
        proof {
            assert(nl@ =~= seq!['\n']);
        }
        let e = self.find_exec(self.pos, nl.as_slice());
        let end = if e - self.pos > max {
            self.pos + max
        } else {
            e
        };
        copy_range(&self.text, self.pos, end)
    }

    /// The length of the whole text.
    pub fn text_len(&self) -> (r: usize)
        ensures
            r == self.text().len(),
    {
        self.text.len()
    }

    /// The character at position `i`.
    pub fn char_at(&self, i: usize) -> (r: char)
        requires
            i < self.text().len(),
        ensures
            r == self.text()[i as int],
    {
        self.text[i]
    }

    /// The next `n` characters, without moving the cursor.
    pub fn copy_ahead(&self, n: usize) -> (r: Vec<char>)
        requires
            self.wf(),
            self.pos() + n <= self.text().len(),
        ensures
            r@ == self.text().subrange(self.pos(), self.pos() + n),
    {
        copy_range(&self.text, self.pos, self.pos + n)
    }

    /// A well-formed cursor stands within its text.
    pub proof fn lemma_pos_in_text(&self)
        requires
            self.wf(),
        ensures
            0 <= self.pos() <= self.text().len(),
            self.text().len() < usize::MAX,
    {
    }

    /// The position and line reached, to come back to with `restore`.
    pub fn snapshot(&self) -> (r: (usize, usize))
        requires
            self.wf(),
        ensures
            r.0 == self.pos(),
            r.1 == line_at(self.text(), self.pos()),
            r.0 <= self.text().len(),
    {
        (self.pos, self.line)
    }

    /// Goes back to a position taken with `snapshot`.
    pub fn restore(&mut self, snap: (usize, usize))
        requires
            old(self).wf(),
            snap.0 <= old(self).text().len(),
            snap.1 == line_at(old(self).text(), snap.0 as int),
        ensures
            final(self).wf(),
            final(self).text() == old(self).text(),
            final(self).pos() == snap.0,
    {
        self.pos = snap.0;
        self.line = snap.1;
    }

    /// Whether a comment starts at position `i`.
    fn comment_starts_exec(&self, i: usize) -> (r: bool)
        requires
            i < self.text@.len(),
        ensures
            r == comment_starts_at(self.text@, i as int),
    {
        let c = self.text[i];
        if c == ';' {
            return true;
        }
        if i >= self.text.len() - 1 {
            return false;
        }
        let d = self.text[i + 1];
        (c == '/' && (d == '/' || d == '*')) || (c == '!' && d == '*')
    }

    /// Whether `t` stands at the cursor.
    pub fn starts_with(&self, t: &[char]) -> (r: bool)
        requires
            self.wf(),
        ensures
            r == matches_at(self.text(), self.pos(), t@),
    {
        self.matches_at_exec(self.pos, t)
    }

    fn matches_at_exec(&self, i: usize, t: &[char]) -> (r: bool)
        requires
            self.wf(),
            i <= self.text@.len(),
        ensures
            r == matches_at(self.text@, i as int, t@),
    {
        if t.len() > self.text.len() - i {
            return false;
        }
        let mut k: usize = 0;
        while k < t.len()
            invariant
                self.wf(),
                i + t@.len() <= self.text@.len(),
                0 <= k <= t@.len(),
                forall|j: int| 0 <= j < k ==> self.text@[i + j] == t@[j],
            decreases t@.len() - k,
        {
            if self.text[i + k] != t[k] {
                proof {
                    assert(self.text@.subrange(i as int, i + t@.len())[k as int] != t@[k as int]);
                }
                return false;
            }
            k = k + 1;
        }
        proof {
            assert(self.text@.subrange(i as int, i + t@.len()) =~= t@);
        }
        true
    }

    /// The first position at or after `from` where `t` stands, or the end.
    pub fn find_exec(&self, from: usize, t: &[char]) -> (r: usize)
        requires
            self.wf(),
            from <= self.text().len(),
        ensures
            r == find_from(self.text(), from as int, t@),
    {
        let mut i = from;
        while i < self.text.len() && !self.matches_at_exec(i, t)
            invariant
                self.wf(),
                from <= i <= self.text@.len(),
                find_from(self.text@, i as int, t@) == find_from(self.text@, from as int, t@),
            decreases self.text@.len() - i,
        {
            i = i + 1;
        }
        i
    }
}

/// Whether `c` is one of `cs`.
pub fn slice_contains(cs: &[char], c: char) -> (r: bool)
    ensures
        r == cs@.contains(c),
{
    let mut i: usize = 0;
    while i < cs.len()
        invariant
            0 <= i <= cs@.len(),
            forall|j: int| 0 <= j < i ==> cs@[j] != c,
        decreases cs@.len() - i,
    {
        if cs[i] == c {
            return true;
        }
        i = i + 1;
    }
    false
}

/// The characters of `v` from `from` to `to`.
pub fn copy_range(v: &Vec<char>, from: usize, to: usize) -> (r: Vec<char>)
    requires
        from <= to <= v@.len(),
    ensures
        r@ == v@.subrange(from as int, to as int),
{
    let mut r: Vec<char> = Vec::new();
    let mut i = from;
    while i < to
        invariant
            from <= i <= to <= v@.len(),
            r@ == v@.subrange(from as int, i as int),
        decreases to - i,
    {
        r.push(v[i]);
        i = i + 1;
        proof {
            assert(r@ =~= v@.subrange(from as int, i as int));
        }
    }
    r
}

} // verus!
