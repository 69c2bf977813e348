use regex::Regex;
use traversal_core::tag_syntax::{blank, find_tag, tag_in_line, TagKind};

fn tag(line: &str) -> Option<(TagKind, String)> {
    tag_in_line(line.as_bytes())
}

fn target(name: &str) -> Option<(TagKind, String)> {
    Some((TagKind::Target, name.to_string()))
}

fn link(name: &str) -> Option<(TagKind, String)> {
    Some((TagKind::Link, name.to_string()))
}

/// What the pattern of the tag grammar reports, as the regex crate computes it.
fn by_regex(re: &Regex, line: &str) -> Option<(TagKind, String)> {
    let caps = re.captures(line)?;
    if let Some(g) = caps.get(1) {
        return Some((TagKind::Target, g.as_str().to_string()));
    }
    if let Some(g) = caps.get(2) {
        return Some((TagKind::Link, g.as_str().to_string()));
    }
    None
}

fn pattern() -> Regex {
    Regex::new(r"\[traverse-tgt:\s*(\S*)\s*\]|\[traverse-lnk:\s*(\S*)\s*\]").unwrap()
}

#[test]
fn plain_target_in_comment() {
    assert_eq!(tag("// [traverse-tgt: parser-entry]\n"), target("parser-entry"));
}

#[test]
fn plain_link() {
    assert_eq!(tag("see [traverse-lnk: parser-entry] here"), link("parser-entry"));
}

#[test]
fn no_blank_after_colon() {
    assert_eq!(tag("[traverse-tgt:abc]"), target("abc"));
}

#[test]
fn blanks_around_name() {
    assert_eq!(tag("[traverse-tgt: \t abc \t ]"), target("abc"));
}

#[test]
fn empty_name() {
    assert_eq!(tag("[traverse-tgt: ]"), target(""));
    assert_eq!(tag("[traverse-lnk:]"), link(""));
}

#[test]
fn name_keeps_bracket_before_last_bracket() {
    assert_eq!(tag("[traverse-tgt: foo]]"), target("foo]"));
}

#[test]
fn later_bracket_after_blank_is_not_taken() {
    assert_eq!(tag("[traverse-tgt: foo] bar]"), target("foo"));
}

#[test]
fn blank_inside_name_fails() {
    assert_eq!(tag("[traverse-tgt: a b]"), None);
}

#[test]
fn leftmost_tag_wins() {
    assert_eq!(tag("x [traverse-lnk: y] [traverse-tgt: z]"), link("y"));
    assert_eq!(tag("[traverse-tgt: z] [traverse-lnk: y]"), target("z"));
}

#[test]
fn failed_opener_lets_a_later_tag_match() {
    assert_eq!(tag("[traverse-tgt: [traverse-lnk: a]"), link("a"));
}

#[test]
fn unicode_blanks() {
    assert_eq!(tag("[traverse-tgt:\u{3000}name\u{a0}]"), target("name"));
    assert_eq!(tag("[traverse-lnk:\u{2003}n\u{2028}]"), link("n"));
}

#[test]
fn non_ascii_name() {
    assert_eq!(tag("[traverse-tgt: größe-ñ]"), target("größe-ñ"));
}

#[test]
fn no_tag() {
    assert_eq!(tag(""), None);
    assert_eq!(tag("[traverse-tgt: abc"), None);
    assert_eq!(tag("[traverse-xyz: abc]"), None);
    assert_eq!(tag("[Traverse-tgt: abc]"), None);
}

#[test]
fn invalid_utf8_holds_no_tag() {
    let mut line = b"[traverse-tgt: abc] ".to_vec();
    line.push(0xff);
    assert_eq!(tag_in_line(&line), None);
}

#[test]
fn crlf_line_end() {
    assert_eq!(tag("[traverse-tgt: abc]\r\n"), target("abc"));
}

#[test]
fn find_tag_positions() {
    let chars: Vec<char> = "ab [traverse-tgt:  xy ]".chars().collect();
    assert_eq!(find_tag(&chars), Some((TagKind::Target, 19, 21)));
}

#[test]
fn blank_matches_unicode_white_space() {
    for c in ['\t', '\n', '\u{b}', '\u{c}', '\r', ' ', '\u{85}', '\u{a0}', '\u{1680}', '\u{2000}',
        '\u{200a}', '\u{2028}', '\u{2029}', '\u{202f}', '\u{205f}', '\u{3000}'] {
        assert!(blank(c), "{:?}", c);
    }
    for c in ['a', ']', '[', '\u{8}', '\u{e}', '\u{200b}', '\u{feff}', '\u{180e}'] {
        assert!(!blank(c), "{:?}", c);
    }
}

#[test]
fn blank_agrees_with_regex_class() {
    let re = Regex::new(r"^\s$").unwrap();
    for u in 0u32..0x3100 {
        if let Some(c) = char::from_u32(u) {
            assert_eq!(blank(c), re.is_match(&c.to_string()), "{:?}", c);
        }
    }
}

#[test]
fn agrees_with_regex_on_generated_lines() {
    let re = pattern();
    let pieces = ["[traverse-tgt:", "[traverse-lnk:", "[traverse-", "]", "[", " ", "\t", "\u{a0}",
        "a", "bc", ":", "-", "tgt", "é", "\r\n"];
    let mut state: u64 = 0x2545_f491_4f6c_dd1d;
    for _ in 0..40000 {
        state = state.wrapping_mul(6364136223846793005).wrapping_add(1442695040888963407);
        let len = (state >> 60) as usize;
        let mut line = String::new();
        let mut x = state;
        for _ in 0..len + 1 {
            x = x.wrapping_mul(6364136223846793005).wrapping_add(1442695040888963407);
            line.push_str(pieces[((x >> 33) as usize) % pieces.len()]);
        }
        assert_eq!(tag(&line), by_regex(&re, &line), "line {:?}", line);
    }
}

#[test]
fn overlong_and_surrogate_encodings_hold_no_tag() {
    let mut overlong = b"[traverse-tgt: a]".to_vec();
    overlong.extend_from_slice(&[0xc0, 0x80]);
    assert_eq!(tag_in_line(&overlong), None);
    let mut surrogate = b"[traverse-lnk: a]".to_vec();
    surrogate.extend_from_slice(&[0xed, 0xa0, 0x80]);
    assert_eq!(tag_in_line(&surrogate), None);
    let mut fine = b"[traverse-lnk: a]".to_vec();
    fine.extend_from_slice("é".as_bytes());
    assert_eq!(tag_in_line(&fine), Some((TagKind::Link, "a".to_string())));
}
