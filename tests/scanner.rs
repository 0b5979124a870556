use fso_tables::scanner::{FSOParser, FSOTableFileParser};

fn text(cs: &[char]) -> String {
    cs.iter().collect()
}

#[test]
fn consume_counts_lines() {
    let mut p = FSOTableFileParser::new("a\nb\nc");
    assert_eq!(p.line(), 1);
    p.consume(2);
    assert_eq!(p.line(), 2);
    p.consume(2);
    assert_eq!(p.line(), 3);
    assert_eq!(text(p.get()), "c");
}

#[test]
fn read_until_target_stops_at_target() {
    let mut p = FSOTableFileParser::new("abc;;def;;");
    let r = p.read_until_target(&[';', ';'], true);
    assert_eq!(text(&r), "abc");
    assert_eq!(text(p.get()), "def;;");
    let r = p.read_until_target(&['x'], true);
    assert_eq!(text(&r), "def;;");
    assert_eq!(text(p.get()), "");
}

#[test]
fn read_until_target_keeps_target() {
    let mut p = FSOTableFileParser::new("ab*/cd");
    let r = p.read_until_target(&['*', '/'], false);
    assert_eq!(text(&r), "ab");
    assert_eq!(text(p.get()), "*/cd");
}

#[test]
fn value_trims_blanks_and_comment() {
    let mut p = FSOTableFileParser::new("Ease In  Out \t; comment\nnext");
    let r = p.read_until_last_whitespace_of_line();
    assert_eq!(text(&r), "Ease In  Out");
    assert_eq!(text(p.get()), " \t; comment\nnext");
}

#[test]
fn strict_whitespace_skips_blanks_and_extras() {
    let mut p = FSOTableFileParser::new(" \t,, x\n");
    p.consume_whitespace_strict(&[',']);
    assert_eq!(text(p.get()), "x\n");
    let mut q = FSOTableFileParser::new("  \n  x");
    q.consume_whitespace_strict(&[]);
    assert_eq!(text(q.get()), "\n  x");
}

#[test]
fn whitespace_gathers_comments_and_stops_at_version() {
    let mut p = FSOTableFileParser::new("// c1\n;c2\n/*b*/ /*c*/\n;;FSO 3.6.10;;rest");
    let (comments, version) = p.consume_whitespace(false);
    assert_eq!(comments.as_deref(), Some("// c1\n;c2\n/*b*//*c*/"));
    assert_eq!(version.as_deref(), Some(";;FSO 3.6.10;;"));
    assert_eq!(text(p.get()), "rest");
    assert_eq!(p.line(), 4);
}

#[test]
fn whitespace_bang_block_comment() {
    let mut p = FSOTableFileParser::new("!* note *!\n$Name:");
    let (comments, version) = p.consume_whitespace(false);
    assert_eq!(comments.as_deref(), Some("!* note *!"));
    assert_eq!(version, None);
    assert_eq!(text(p.get()), "$Name:");
}

#[test]
fn semicolon_line_that_is_no_version_is_a_comment() {
    let mut p = FSOTableFileParser::new(";;FSO 3;;\nx");
    let (comments, version) = p.consume_whitespace(false);
    assert_eq!(comments.as_deref(), Some(";;FSO 3;;"));
    assert_eq!(version, None);
    assert_eq!(text(p.get()), "x");
}

#[test]
fn whitespace_stops_at_newline_when_asked() {
    let mut p = FSOTableFileParser::new("  ; c\n  x");
    let (comments, _) = p.consume_whitespace(true);
    assert_eq!(comments.as_deref(), Some("; c"));
    assert_eq!(text(p.get()), "x");
    let mut q = FSOTableFileParser::new("  \n  x");
    let (none, _) = q.consume_whitespace(true);
    assert_eq!(none, None);
    assert_eq!(text(q.get()), "\n  x");
}

#[test]
fn whitespace_with_nothing_to_skip() {
    let mut p = FSOTableFileParser::new("");
    let (comments, version) = p.consume_whitespace(false);
    assert_eq!(comments, None);
    assert_eq!(version, None);
    assert_eq!(p.line(), 1);
}

#[test]
fn unterminated_block_comment_runs_to_end() {
    let mut p = FSOTableFileParser::new("/* open");
    let (comments, _) = p.consume_whitespace(false);
    assert_eq!(comments.as_deref(), Some("/* open*/"));
    assert_eq!(text(p.get()), "");
}

#[test]
fn comments_apart_are_joined_by_a_newline() {
    let mut p = FSOTableFileParser::new("/*a*/\n\n/*b*/ /*c*/ x");
    let (comments, _) = p.consume_whitespace(false);
    assert_eq!(comments.as_deref(), Some("/*a*/\n/*b*//*c*/"));
    assert_eq!(text(p.get()), "x");
}

#[test]
fn unicode_blanks_are_inline_whitespace() {
    let mut p = FSOTableFileParser::new("\u{0C}\u{0B}\u{A0}\u{3000}x");
    p.consume_whitespace_strict(&[]);
    assert_eq!(text(p.get()), "x");
    let mut q = FSOTableFileParser::new("\u{2003}\n x");
    let (none, _) = q.consume_whitespace(false);
    assert_eq!(none, None);
    assert_eq!(text(q.get()), "x");
    let mut r = FSOTableFileParser::new("Name\u{0C}\u{2009}\nnext");
    assert_eq!(text(&r.read_until_last_whitespace_of_line()), "Name");
}

#[test]
fn value_ends_at_any_comment() {
    for (input, value) in [("ab //c", "ab"), ("ab /* c */", "ab"), ("ab!*c*!", "ab"), ("a/b !c", "a/b !c"), ("ab;c", "ab")] {
        let mut p = FSOTableFileParser::new(input);
        assert_eq!(text(&p.read_until_last_whitespace_of_line()), value);
    }
}
