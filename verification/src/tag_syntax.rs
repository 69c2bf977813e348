//! The tag grammar.
//!
//! A tag is written `[traverse-tgt: NAME]` (a target) or `[traverse-lnk: NAME]` (a link).
//! Blanks may surround the name, and the name itself holds no blank. A line is searched
//! for the pattern `\[traverse-tgt:\s*(\S*)\s*\]|\[traverse-lnk:\s*(\S*)\s*\]` with the
//! usual leftmost-first rules: the match that starts leftmost wins, and among the matches
//! that start there, each greedy repetition takes as much as still lets the rest match.

use vstd::prelude::*;
use vstd::string::*;
use vstd::utf8::*;

verus! {

/// The two kinds of tag.
#[derive(Clone, Copy, Debug, PartialEq, Eq, Structural)]
pub enum TagKind {
    /// `[traverse-tgt: NAME]`: a place that links point at.
    Target,
    /// `[traverse-lnk: NAME]`: a reference to a target.
    Link,
}

/// Unicode `White_Space`: the characters that the tag grammar treats as blank.
pub open spec fn is_blank(c: char) -> bool {
    ||| ('\t' <= c && c <= '\r')
    ||| c == ' '
    ||| c == '\u{85}'
    ||| c == '\u{a0}'
    ||| c == '\u{1680}'
    ||| ('\u{2000}' <= c && c <= '\u{200a}')
    ||| c == '\u{2028}'
    ||| c == '\u{2029}'
    ||| c == '\u{202f}'
    ||| c == '\u{205f}'
    ||| c == '\u{3000}'
}

/// The blanks are exactly the code points of Unicode `White_Space`: U+0009 to U+000D,
/// U+0020, U+0085, U+00A0, U+1680, U+2000 to U+200A, U+2028, U+2029, U+202F, U+205F and
/// U+3000. In particular no code point above U+3000 is blank.
pub proof fn lemma_blank_code_points(c: char)
    ensures
        is_blank(c) <==> {
            let u = c as u32;
            ||| 0x9 <= u <= 0xd
            ||| u == 0x20
            ||| u == 0x85
            ||| u == 0xa0
            ||| u == 0x1680
            ||| 0x2000 <= u <= 0x200a
            ||| u == 0x2028
            ||| u == 0x2029
            ||| u == 0x202f
            ||| u == 0x205f
            ||| u == 0x3000
        },
        is_blank(c) ==> c as u32 <= 0x3000,
{
}

/// The characters that open a tag of the given kind.
pub open spec fn opener(kind: TagKind) -> Seq<char> {
    match kind {
        TagKind::Target => seq!['[', 't', 'r', 'a', 'v', 'e', 'r', 's', 'e', '-', 't', 'g', 't', ':'],
        TagKind::Link => seq!['[', 't', 'r', 'a', 'v', 'e', 'r', 's', 'e', '-', 'l', 'n', 'k', ':'],
    }
}

/// Every character of `s[i..j]` is blank.
pub open spec fn all_blank(s: Seq<char>, i: int, j: int) -> bool {
    forall|k: int| i <= k < j ==> is_blank(#[trigger] s[k])
}

/// No character of `s[i..j]` is blank.
pub open spec fn none_blank(s: Seq<char>, i: int, j: int) -> bool {
    forall|k: int| i <= k < j ==> !is_blank(#[trigger] s[k])
}

/// The pattern matches `s` from `p` on: the opener of `kind` at `p`, blanks up to `b`, the
/// name `s[b..c]`, blanks up to `d`, and the closing `]` at `d`.
pub open spec fn tag_match(s: Seq<char>, kind: TagKind, p: int, b: int, c: int, d: int) -> bool {
    &&& 0 <= p
    &&& p + 14 <= b <= c <= d < s.len()
    &&& s.subrange(p, p + 14) == opener(kind)
    &&& all_blank(s, p + 14, b)
    &&& none_blank(s, b, c)
    &&& all_blank(s, c, d)
    &&& s[d] == ']'
}

/// The pattern matches `s` from `p` on, in some way.
pub open spec fn tag_at(s: Seq<char>, p: int) -> bool {
    exists|kind: TagKind, b: int, c: int, d: int| tag_match(s, kind, p, b, c, d)
}

/// The match at `p` that greedy repetition picks: of all the matches there, the one whose
/// first blank run is longest, then whose name is longest, then whose second blank run is
/// longest.
pub open spec fn greedy_match(s: Seq<char>, kind: TagKind, p: int, b: int, c: int, d: int) -> bool {
    &&& tag_match(s, kind, p, b, c, d)
    &&& forall|kind2: TagKind, b2: int, c2: int, d2: int|
        #[trigger] tag_match(s, kind2, p, b2, c2, d2) ==> (b2 < b || (b2 == b && (c2 < c || (c2
            == c && d2 <= d))))
}

/// The match that a search of `s` reports: the greedy match at the leftmost position where
/// the pattern matches at all.
pub open spec fn first_match(s: Seq<char>, kind: TagKind, p: int, b: int, c: int, d: int) -> bool {
    &&& greedy_match(s, kind, p, b, c, d)
    &&& forall|q: int| 0 <= q < p ==> !#[trigger] tag_at(s, q)
}

/// The tag that `s` holds, with its kind and its name, if the pattern matches anywhere in `s`.
pub open spec fn first_tag(s: Seq<char>) -> Option<(TagKind, Seq<char>)> {
    if exists|kind: TagKind, p: int, b: int, c: int, d: int| first_match(s, kind, p, b, c, d) {
        let (kind, p, b, c, d) = choose|kind: TagKind, p: int, b: int, c: int, d: int|
            first_match(s, kind, p, b, c, d);
        Some((kind, s.subrange(b, c)))
    } else {
        None
    }
}

// ---------------------------------------------------------------------------------------
// A constructive description of the greedy match, used in the proofs.
// ---------------------------------------------------------------------------------------

/// The end of the run of blanks that starts at `i`.
pub open spec fn blank_end(s: Seq<char>, i: int) -> int
    decreases s.len() - i,
{
    if 0 <= i < s.len() && is_blank(s[i]) {
        blank_end(s, i + 1)
    } else {
        i
    }
}

/// The end of the run of non-blanks that starts at `i`.
pub open spec fn name_end(s: Seq<char>, i: int) -> int
    decreases s.len() - i,
{
    if 0 <= i < s.len() && !is_blank(s[i]) {
        name_end(s, i + 1)
    } else {
        i
    }
}

/// The last position of `]` in `s[lo..hi]`.
pub open spec fn last_close(s: Seq<char>, lo: int, hi: int) -> Option<int>
    decreases hi - lo,
{
    if lo < hi {
        if s[hi - 1] == ']' {
            Some(hi - 1)
        } else {
            last_close(s, lo, hi - 1)
        }
    } else {
        None
    }
}

/// The kind of the opener at `p`, if one stands there.
pub open spec fn opener_at(s: Seq<char>, p: int) -> Option<TagKind> {
    if 0 <= p && p + 14 <= s.len() {
        if s.subrange(p, p + 14) == opener(TagKind::Target) {
            Some(TagKind::Target)
        } else if s.subrange(p, p + 14) == opener(TagKind::Link) {
            Some(TagKind::Link)
        } else {
            None
        }
    } else {
        None
    }
}

/// The greedy match at `p`, computed step by step.
pub open spec fn greedy_at(s: Seq<char>, p: int) -> Option<(TagKind, int, int, int)> {
    match opener_at(s, p) {
        None => None,
        Some(kind) => {
            let b: int = blank_end(s, p + 14);
            let e: int = name_end(s, b);
            let f: int = blank_end(s, e);
            if e < f && f < s.len() && s[f] == ']' {
                Some((kind, b, e, f))
            } else {
                match last_close(s, b, e) {
                    Some(j) => Some((kind, b, j, j)),
                    None => None,
                }
            }
        },
    }
}

proof fn lemma_blank_end(s: Seq<char>, i: int)
    requires
        0 <= i <= s.len(),
    ensures
        i <= blank_end(s, i) <= s.len(),
        all_blank(s, i, blank_end(s, i)),
        blank_end(s, i) == s.len() || !is_blank(s[blank_end(s, i)]),
    decreases s.len() - i,
{
    if i < s.len() && is_blank(s[i]) {
        lemma_blank_end(s, i + 1);
    }
}

proof fn lemma_name_end(s: Seq<char>, i: int)
    requires
        0 <= i <= s.len(),
    ensures
        i <= name_end(s, i) <= s.len(),
        none_blank(s, i, name_end(s, i)),
        name_end(s, i) == s.len() || is_blank(s[name_end(s, i)]),
    decreases s.len() - i,
{
    if i < s.len() && !is_blank(s[i]) {
        lemma_name_end(s, i + 1);
    }
}

proof fn lemma_last_close(s: Seq<char>, lo: int, hi: int)
    requires
        0 <= lo,
        hi <= s.len(),
    ensures
        last_close(s, lo, hi) matches Some(j) ==> {
            &&& lo <= j < hi
            &&& s[j] == ']'
            &&& forall|k: int| j < k < hi ==> s[k] != ']'
        },
        last_close(s, lo, hi) is None ==> forall|k: int| lo <= k < hi ==> s[k] != ']',
    decreases hi - lo,
{
    if lo < hi && s[hi - 1] != ']' {
        lemma_last_close(s, lo, hi - 1);
    }
}

/// `]` is not blank.
proof fn lemma_close_not_blank()
    ensures
        !is_blank(']'),
{
}

/// The opener decides the kind of a match.
proof fn lemma_opener_kind(s: Seq<char>, p: int, kind: TagKind)
    requires
        0 <= p,
        p + 14 <= s.len(),
        s.subrange(p, p + 14) == opener(kind),
    ensures
        opener_at(s, p) == Some(kind),
{
    if kind == TagKind::Link {
        assert(s.subrange(p, p + 14)[10] == 'l');
        assert(opener(TagKind::Target)[10] == 't');
    }
}

/// The step-by-step description finds exactly the greedy match.
proof fn lemma_greedy_at(s: Seq<char>, p: int)
    ensures
        greedy_at(s, p) matches Some((kind, b, c, d)) ==> greedy_match(s, kind, p, b, c, d),
        greedy_at(s, p) is None ==> !tag_at(s, p),
{
    lemma_close_not_blank();
    if opener_at(s, p) is None {
        if tag_at(s, p) {
            let (kind, b2, c2, d2) = choose|kind: TagKind, b: int, c: int, d: int|
                tag_match(s, kind, p, b, c, d);
            lemma_opener_kind(s, p, kind);
        }
        return;
    }
    let kind = opener_at(s, p).unwrap();
    let q: int = p + 14;
    lemma_blank_end(s, q);
    let b: int = blank_end(s, q);
    lemma_name_end(s, b);
    let e: int = name_end(s, b);
    lemma_blank_end(s, e);
    let f: int = blank_end(s, e);
    lemma_last_close(s, b, e);
    // Every match at p has its first blank run end at b at the latest, and its name end at e
    // at the latest when that run ends at b.
    assert forall|kind2: TagKind, b2: int, c2: int, d2: int|
        #[trigger] tag_match(s, kind2, p, b2, c2, d2) implies {
        &&& kind2 == kind
        &&& b2 <= b
        &&& (b2 < b ==> (c2 == b2 && d2 == b && s[b] == ']'))
        &&& (b2 == b ==> c2 <= e)
        &&& (b2 == b && c2 == e ==> (d2 == f && e < f && s[f] == ']'))
        &&& (b2 == b && c2 < e ==> (d2 == c2 && s[c2] == ']'))
    } by {
        lemma_opener_kind(s, p, kind2);
        if b2 > b {
            assert(is_blank(s[b]));
        }
        if b2 < b {
            assert(is_blank(s[b2]));
            if c2 > b2 {
                assert(!is_blank(s[b2]));
            }
            if d2 < b {
                assert(is_blank(s[d2]));
            }
            if d2 > b {
                assert(is_blank(s[b]));
            }
        }
        if b2 == b {
            if c2 > e {
                assert(!is_blank(s[e]));
            }
            if c2 == e {
                if d2 == e {
                    assert(is_blank(s[e]));
                }
                if d2 < f {
                    assert(is_blank(s[d2]));
                }
                if d2 > f {
                    assert(is_blank(s[f]));
                }
            }
            if c2 < e {
                assert(!is_blank(s[c2]));
                if d2 > c2 {
                    assert(is_blank(s[c2]));
                }
            }
        }
    }
    if e < f && f < s.len() && s[f] == ']' {
        assert(tag_match(s, kind, p, b, e, f));
    } else {
        match last_close(s, b, e) {
            Some(j) => {
                assert(tag_match(s, kind, p, b, j, j));
                assert forall|kind2: TagKind, b2: int, c2: int, d2: int|
                    #[trigger] tag_match(s, kind2, p, b2, c2, d2) implies (b2 < b || (b2 == b
                        && (c2 < j || (c2 == j && d2 <= j)))) by {
                    if b2 == b && c2 > j {
                        assert(s[c2] == ']');
                    }
                }
            },
            None => {
                if tag_at(s, p) {
                    let (kind2, b2, c2, d2) = choose|kind2: TagKind, b2: int, c2: int, d2: int|
                        tag_match(s, kind2, p, b2, c2, d2);
                    assert(tag_match(s, kind2, p, b2, c2, d2));
                    if b2 < b {
                        assert(s[b] == ']');
                        assert(b < e);
                    }
                }
            },
        }
    }
}


// ---------------------------------------------------------------------------------------
// Facts about the first match.
// ---------------------------------------------------------------------------------------

/// A text has at most one first match: the position, the kind and the bounds of the name
/// are all determined by the text.
pub proof fn lemma_first_match_unique(
    s: Seq<char>,
    k1: TagKind,
    p1: int,
    b1: int,
    c1: int,
    d1: int,
    k2: TagKind,
    p2: int,
    b2: int,
    c2: int,
    d2: int,
)
    requires
        first_match(s, k1, p1, b1, c1, d1),
        first_match(s, k2, p2, b2, c2, d2),
    ensures
        k1 == k2,
        p1 == p2,
        b1 == b2,
        c1 == c2,
        d1 == d2,
{
    assert(tag_at(s, p1));
    assert(tag_at(s, p2));
    lemma_opener_kind(s, p1, k1);
    lemma_opener_kind(s, p2, k2);
    assert(tag_match(s, k2, p2, b2, c2, d2));
    assert(tag_match(s, k1, p1, b1, c1, d1));
}

/// When the text has a first match, `first_tag` reports its kind and its name.
pub proof fn lemma_first_tag_of_match(s: Seq<char>, kind: TagKind, p: int, b: int, c: int, d: int)
    requires
        first_match(s, kind, p, b, c, d),
    ensures
        first_tag(s) == Some((kind, s.subrange(b, c))),
{
    let (k2, p2, b2, c2, d2) = choose|k: TagKind, p: int, b: int, c: int, d: int|
        first_match(s, k, p, b, c, d);
    lemma_first_match_unique(s, kind, p, b, c, d, k2, p2, b2, c2, d2);
}

/// When the pattern matches nowhere in the text, the text holds no tag.
pub proof fn lemma_first_tag_of_none(s: Seq<char>)
    requires
        forall|p: int| !#[trigger] tag_at(s, p),
    ensures
        first_tag(s) is None,
{
    if exists|k: TagKind, p: int, b: int, c: int, d: int| first_match(s, k, p, b, c, d) {
        let (k, p, b, c, d) = choose|k: TagKind, p: int, b: int, c: int, d: int|
            first_match(s, k, p, b, c, d);
        assert(tag_at(s, p));
    }
}

proof fn lemma_search_from(s: Seq<char>, q: int, p: int)
    requires
        0 <= q <= p,
        tag_at(s, p),
        forall|r: int| 0 <= r < q ==> !#[trigger] tag_at(s, r),
    ensures
        exists|k: TagKind, p0: int, b: int, c: int, d: int|
            p0 <= p && #[trigger] first_match(s, k, p0, b, c, d),
    decreases p - q,
{
    lemma_greedy_at(s, q);
    if let Some((k, b, c, d)) = greedy_at(s, q) {
        assert(first_match(s, k, q, b, c, d));
    } else {
        assert forall|r: int| 0 <= r < q + 1 implies !#[trigger] tag_at(s, r) by {
            if r == q {
                assert(!tag_at(s, q));
            }
        }
        lemma_search_from(s, q + 1, p);
    }
}

/// Wherever the pattern matches in a text, the text holds a tag, and the tag's match starts
/// there or further left.
pub proof fn lemma_tag_found(s: Seq<char>, p: int)
    requires
        tag_at(s, p),
    ensures
        first_tag(s) is Some,
        exists|k: TagKind, p0: int, b: int, c: int, d: int|
            p0 <= p && #[trigger] first_match(s, k, p0, b, c, d),
{
    assert(0 <= p) by {
        let (k, b, c, d) = choose|k: TagKind, b: int, c: int, d: int| tag_match(s, k, p, b, c, d);
    }
    lemma_search_from(s, 0, p);
    let (k, p0, b, c, d) = choose|k: TagKind, p0: int, b: int, c: int, d: int|
        p0 <= p && #[trigger] first_match(s, k, p0, b, c, d);
    lemma_first_tag_of_match(s, k, p0, b, c, d);
}


/// The name of a tag holds no blank, and it stands in the text between the opener, some
/// blanks, and, after some more blanks, the closing `]`.
pub proof fn lemma_tag_name_shape(s: Seq<char>)
    requires
        first_tag(s) is Some,
    ensures
        exists|kind: TagKind, p: int, b: int, c: int, d: int|
            #[trigger] tag_match(s, kind, p, b, c, d) && first_tag(s) == Some(
                (kind, s.subrange(b, c)),
            ),
        forall|i: int|
            0 <= i < first_tag(s).unwrap().1.len() ==> !is_blank(
                #[trigger] first_tag(s).unwrap().1[i],
            ),
{
    let (kind, p, b, c, d) = choose|kind: TagKind, p: int, b: int, c: int, d: int|
        first_match(s, kind, p, b, c, d);
    lemma_first_tag_of_match(s, kind, p, b, c, d);
    assert(tag_match(s, kind, p, b, c, d));
    let name = s.subrange(b, c);
    assert forall|i: int| 0 <= i < name.len() implies !is_blank(#[trigger] name[i]) by {
        assert(name[i] == s[b + i]);
    }
}

// ---------------------------------------------------------------------------------------
// Searching a line.
// ---------------------------------------------------------------------------------------

/// Decides `is_blank`.
pub fn blank(c: char) -> (res: bool)
    ensures
        res == is_blank(c),
        res ==> c as u32 <= 0x3000,
        res <==> {
            let u = c as u32;
            ||| 0x9 <= u <= 0xd
            ||| u == 0x20
            ||| u == 0x85
            ||| u == 0xa0
            ||| u == 0x1680
            ||| 0x2000 <= u <= 0x200a
            ||| u == 0x2028
            ||| u == 0x2029
            ||| u == 0x202f
            ||| u == 0x205f
            ||| u == 0x3000
        },
{
    proof {
        lemma_blank_code_points(c);
    }
    ('\t' <= c && c <= '\r') || c == ' ' || c == '\u{85}' || c == '\u{a0}' || c == '\u{1680}'
        || ('\u{2000}' <= c && c <= '\u{200a}') || c == '\u{2028}' || c == '\u{2029}'
        || c == '\u{202f}' || c == '\u{205f}' || c == '\u{3000}'
}

fn blank_run_end(s: &[char], i: usize) -> (res: usize)
    requires
        i <= s@.len(),
    ensures
        res == blank_end(s@, i as int),
{
    let mut j: usize = i;
    while j < s.len() && blank(s[j])
        invariant
            i <= j <= s@.len(),
            blank_end(s@, j as int) == blank_end(s@, i as int),
        decreases s@.len() - j,
    {
        j = j + 1;
    }
    j
}

fn name_run_end(s: &[char], i: usize) -> (res: usize)
    requires
        i <= s@.len(),
    ensures
        res == name_end(s@, i as int),
{
    let mut j: usize = i;
    while j < s.len() && !blank(s[j])
        invariant
            i <= j <= s@.len(),
            name_end(s@, j as int) == name_end(s@, i as int),
        decreases s@.len() - j,
    {
        j = j + 1;
    }
    j
}

fn find_last_close(s: &[char], lo: usize, hi: usize) -> (res: Option<usize>)
    requires
        lo <= hi <= s@.len(),
    ensures
        match res {
            Some(j) => last_close(s@, lo as int, hi as int) == Some(j as int),
            None => last_close(s@, lo as int, hi as int) is None,
        },
{
    let mut h: usize = hi;
    while lo < h
        invariant
            lo <= h <= hi,
            hi <= s@.len(),
            last_close(s@, lo as int, hi as int) == last_close(s@, lo as int, h as int),
        decreases h - lo,
    {
        if s[h - 1] == ']' {
            return Some(h - 1);
        }
        h = h - 1;
    }
    None
}

/// The kind of the opener at `p`, if one stands there.
fn opener_kind(s: &[char], p: usize) -> (res: Option<TagKind>)
    requires
        p <= s@.len(),
    ensures
        res == opener_at(s@, p as int),
{
    if s.len() - p < 14 {
        return None;
    }
    let head = s[p] == '[' && s[p + 1] == 't' && s[p + 2] == 'r' && s[p + 3] == 'a' && s[p + 4]
        == 'v' && s[p + 5] == 'e' && s[p + 6] == 'r' && s[p + 7] == 's' && s[p + 8] == 'e' && s[p
        + 9] == '-' && s[p + 13] == ':';
    let tgt = s[p + 10] == 't' && s[p + 11] == 'g' && s[p + 12] == 't';
    let lnk = s[p + 10] == 'l' && s[p + 11] == 'n' && s[p + 12] == 'k';
    let ghost w = s@.subrange(p as int, p + 14);
    proof {
        let t = opener(TagKind::Target);
        let l = opener(TagKind::Link);
        assert(forall|k: int| 0 <= k < 14 ==> w[k] == s@[p + k]);
        if head && tgt {
            assert(w =~= t);
        } else if w == t {
            assert(w[0] == t[0] && w[1] == t[1] && w[2] == t[2] && w[3] == t[3] && w[4] == t[4]);
            assert(w[5] == t[5] && w[6] == t[6] && w[7] == t[7] && w[8] == t[8] && w[9] == t[9]);
            assert(w[10] == t[10] && w[11] == t[11] && w[12] == t[12] && w[13] == t[13]);
        }
        if head && lnk {
            assert(w =~= l);
        } else if w == l {
            assert(w[0] == l[0] && w[1] == l[1] && w[2] == l[2] && w[3] == l[3] && w[4] == l[4]);
            assert(w[5] == l[5] && w[6] == l[6] && w[7] == l[7] && w[8] == l[8] && w[9] == l[9]);
            assert(w[10] == l[10] && w[11] == l[11] && w[12] == l[12] && w[13] == l[13]);
        }
    }
    if head && tgt {
        Some(TagKind::Target)
    } else if head && lnk {
        Some(TagKind::Link)
    } else {
        None
    }
}

/// The greedy match at `p`: the kind, the bounds of the name, and the position of `]`.
fn greedy_match_at(s: &[char], p: usize) -> (res: Option<(TagKind, usize, usize, usize)>)
    requires
        p <= s@.len(),
    ensures
        match res {
            Some((k, b, c, d)) => greedy_at(s@, p as int) == Some((k, b as int, c as int, d as int)),
            None => greedy_at(s@, p as int) is None,
        },
{
    let kind = match opener_kind(s, p) {
        Some(k) => k,
        None => {
            return None;
        },
    };
    assert(p + 14 <= s@.len());
    assert(s@.len() == s.len());
    let b: usize = blank_run_end(s, p + 14);
    proof {
        lemma_blank_end(s@, p + 14);
    }
    let e: usize = name_run_end(s, b);
    proof {
        lemma_name_end(s@, b as int);
    }
    let f: usize = blank_run_end(s, e);
    proof {
        lemma_blank_end(s@, e as int);
    }
    if e < f && f < s.len() && s[f] == ']' {
        Some((kind, b, e, f))
    } else {
        match find_last_close(s, b, e) {
            Some(j) => Some((kind, b, j, j)),
            None => None,
        }
    }
}

/// Searches `s` for a tag. Returns its kind and the bounds of its name in `s`: the greedy
/// match at the leftmost position where the pattern matches. Returns `None` exactly when
/// the pattern matches nowhere.
pub fn find_tag(s: &[char]) -> (res: Option<(TagKind, usize, usize)>)
    ensures
        match res {
            Some((k, b, c)) => {
                &&& b <= c <= s@.len()
                &&& exists|p: int, d: int| first_match(s@, k, p, b as int, c as int, d)
                &&& first_tag(s@) == Some((k, s@.subrange(b as int, c as int)))
            },
            None => {
                &&& forall|p: int| !#[trigger] tag_at(s@, p)
                &&& first_tag(s@) is None
            },
        },
{
    let n: usize = s.len();
    let mut p: usize = 0;
    while p < n
        invariant
            n == s@.len(),
            p <= n,
            forall|q: int| 0 <= q < p ==> !#[trigger] tag_at(s@, q),
        decreases n - p,
    {
        let found = greedy_match_at(s, p);
        proof {
            lemma_greedy_at(s@, p as int);
        }
        match found {
            Some((k, b, c, d)) => {
                proof {
                    assert(first_match(s@, k, p as int, b as int, c as int, d as int));
                    lemma_first_tag_of_match(s@, k, p as int, b as int, c as int, d as int);
                }
                return Some((k, b, c));
            },
            None => {
                assert(!tag_at(s@, p as int));
            },
        }
        p = p + 1;
    }
    proof {
        assert forall|q: int| !#[trigger] tag_at(s@, q) by {
            if tag_at(s@, q) {
                let (k, b, c, d) = choose|k: TagKind, b: int, c: int, d: int|
                    tag_match(s@, k, q, b, c, d);
            }
        }
        lemma_first_tag_of_none(s@);
    }
    None
}


// ---------------------------------------------------------------------------------------
// Lines of bytes.
// ---------------------------------------------------------------------------------------

/// The tag that a line of bytes holds: a line that is not well-formed UTF-8 holds none, and
/// any other line holds the tag of its characters.
pub open spec fn line_tag(line: Seq<u8>) -> Option<(TagKind, Seq<char>)> {
    if valid_utf8(line) {
        first_tag(decode_utf8(line))
    } else {
        None
    }
}

/// The tag of a well-formed line is searched for in all of its characters, however long
/// the line: wherever the pattern matches in the decoded line, the line has a tag, and the
/// tag reported is the first match of the whole decoded line, at that place or to its left,
/// with the name that stands between its bounds.
pub proof fn lemma_line_tag_found(line: Seq<u8>, p: int)
    requires
        valid_utf8(line),
        tag_at(decode_utf8(line), p),
    ensures
        line_tag(line) is Some,
        exists|k: TagKind, p0: int, b: int, c: int, d: int|
            p0 <= p && #[trigger] first_match(decode_utf8(line), k, p0, b, c, d) && line_tag(line)
                == Some((k, decode_utf8(line).subrange(b, c))),
{
    let s = decode_utf8(line);
    lemma_tag_found(s, p);
    let (k, p0, b, c, d) = choose|k: TagKind, p0: int, b: int, c: int, d: int|
        p0 <= p && #[trigger] first_match(s, k, p0, b, c, d);
    lemma_first_tag_of_match(s, k, p0, b, c, d);
}

/// A line that is not well-formed UTF-8 holds no tag; a well-formed one holds none exactly
/// when the pattern matches nowhere in its characters.
pub proof fn lemma_line_tag_none(line: Seq<u8>)
    ensures
        !valid_utf8(line) ==> line_tag(line) is None,
        valid_utf8(line) ==> (line_tag(line) is None <==> forall|p: int|
            !#[trigger] tag_at(decode_utf8(line), p)),
{
    if valid_utf8(line) {
        let s = decode_utf8(line);
        if forall|p: int| !#[trigger] tag_at(s, p) {
            lemma_first_tag_of_none(s);
        } else {
            let p = choose|p: int| tag_at(s, p);
            lemma_line_tag_found(line, p);
        }
    }
}

/// `std::str::from_utf8`: its result is `Ok` exactly when the bytes are well-formed UTF-8,
/// and the string that it then returns is made of those very bytes.
#[verifier::external_body]
fn utf8_text(bytes: &[u8]) -> (res: Option<&str>)
    ensures
        res is Some <==> valid_utf8(bytes@),
        res matches Some(t) ==> t.spec_bytes() == bytes@,
{
    std::str::from_utf8(bytes).ok()
}

/// The characters of `t`, in order.
fn chars_of(t: &str) -> (v: Vec<char>)
    ensures
        v@ == t@,
{
    broadcast use vstd::string::axiom_spec_iter;

    let mut v: Vec<char> = Vec::new();
    for c in it: t.chars()
        invariant
            it.seq() == t@,
            v@ == it.seq().take(it.index()),
    {
        v.push(c);
        assert(it.seq().take(it.index() + 1) =~= v@);
    }
    v
}

/// Searches a line of bytes for a tag and returns its kind and its name.
pub fn tag_in_line(line: &[u8]) -> (res: Option<(TagKind, String)>)
    ensures
        match res {
            Some((k, name)) => line_tag(line@) == Some((k, name@)),
            None => line_tag(line@) is None,
        },
        res is Some ==> valid_utf8(line@),
        valid_utf8(line@) ==> (res is Some <==> exists|p: int|
            #[trigger] tag_at(decode_utf8(line@), p)),
        res matches Some((k, name)) ==> exists|p: int, b: int, c: int, d: int|
            #[trigger] first_match(decode_utf8(line@), k, p, b, c, d) && name@ == decode_utf8(
                line@,
            ).subrange(b, c),
{
    let t = match utf8_text(line) {
        Some(t) => t,
        None => {
            return None;
        },
    };
    proof {
        encode_utf8_decode_utf8(t@);
    }
    let chars = chars_of(t);
    match find_tag(chars.as_slice()) {
        Some((k, b, c)) => {
            let name = t.substring_char(b, c);
            proof {
                let (p, d) = choose|p: int, d: int| first_match(chars@, k, p, b as int, c as int, d);
                assert(tag_at(chars@, p));
            }
            Some((k, String::from_str(name)))
        },
        None => None,
    }
}

} // verus!
