//! The text that the tools print about tags.

use vstd::prelude::*;
use vstd::string::*;

use crate::tag_syntax::TagKind;
use crate::tags::{index_sites, CombinedTagList, IndexView, TagEntry, TagIndex, TagList, TagLocation, TagSite};

verus! {

/// The character of a decimal digit.
pub open spec fn digit_char(d: nat) -> char {
    if d == 0 { '0' } else if d == 1 { '1' } else if d == 2 { '2' } else if d == 3 { '3' }
    else if d == 4 { '4' } else if d == 5 { '5' } else if d == 6 { '6' } else if d == 7 { '7' }
    else if d == 8 { '8' } else { '9' }
}

/// `n` written in decimal, with no leading zero.
pub open spec fn decimal(n: nat) -> Seq<char>
    decreases n,
{
    if n < 10 {
        seq![digit_char(n)]
    } else {
        decimal(n / 10) + seq![digit_char(n % 10)]
    }
}

/// The value of a decimal digit character.
pub open spec fn digit_value(c: char) -> nat {
    if '0' <= c && c <= '9' {
        (c as u32 - '0' as u32) as nat
    } else {
        0
    }
}

/// The number that a string of decimal digits stands for.
pub open spec fn digits_value(s: Seq<char>) -> nat
    decreases s.len(),
{
    if s.len() == 0 {
        0
    } else {
        digits_value(s.drop_last()) * 10 + digit_value(s.last())
    }
}

proof fn lemma_digit(k: nat)
    requires
        k < 10,
    ensures
        digit_value(digit_char(k)) == k,
        '1' <= digit_char(k) <= '9' || k == 0,
        digit_char(k) == '0' ==> k == 0,
{
    if k == 0 { assert('0' as u32 == 48); } else if k == 1 { assert('1' as u32 == 49); }
    else if k == 2 { assert('2' as u32 == 50); } else if k == 3 { assert('3' as u32 == 51); }
    else if k == 4 { assert('4' as u32 == 52); } else if k == 5 { assert('5' as u32 == 53); }
    else if k == 6 { assert('6' as u32 == 54); } else if k == 7 { assert('7' as u32 == 55); }
    else if k == 8 { assert('8' as u32 == 56); } else { assert('9' as u32 == 57); }
}

/// `decimal(n)` is the usual decimal numeral of `n`: its digits stand for `n`, and it has no
/// leading zero unless `n` is 0.
pub proof fn lemma_decimal_numeral(n: nat)
    ensures
        digits_value(decimal(n)) == n,
        decimal(n).len() > 0,
        decimal(n)[0] == '0' ==> n == 0,
        forall|i: int| 0 <= i < decimal(n).len() ==> '0' <= #[trigger] decimal(n)[i] <= '9',
    decreases n,
{
    if n < 10 {
        lemma_digit(n);
        let d = decimal(n);
        assert(d.drop_last() =~= Seq::<char>::empty());
        assert(digits_value(d) == digits_value(d.drop_last()) * 10 + digit_value(d.last()));
    } else {
        lemma_digit(n % 10);
        lemma_decimal_numeral(n / 10);
        let d = decimal(n);
        assert(d.drop_last() =~= decimal(n / 10));
        assert(n == (n / 10) * 10 + n % 10) by (nonlinear_arith);
        assert(d.last() == digit_char(n % 10));
        assert(digits_value(d) == digits_value(d.drop_last()) * 10 + digit_value(d.last()));
        assert forall|i: int| 0 <= i < d.len() implies '0' <= #[trigger] d[i] <= '9' by {
            if i < d.len() - 1 {
                assert(d[i] == decimal(n / 10)[i]);
            }
        }
    }
}

fn digit_text(d: u64) -> (res: &'static str)
    requires
        d < 10,
    ensures
        res@ == seq![digit_char(d as nat)],
{
    proof {
        reveal_strlit("0");
        reveal_strlit("1");
        reveal_strlit("2");
        reveal_strlit("3");
        reveal_strlit("4");
        reveal_strlit("5");
        reveal_strlit("6");
        reveal_strlit("7");
        reveal_strlit("8");
        reveal_strlit("9");
    }
    let res = if d == 0 { "0" } else if d == 1 { "1" } else if d == 2 { "2" } else if d == 3 { "3" }
    else if d == 4 { "4" } else if d == 5 { "5" } else if d == 6 { "6" } else if d == 7 { "7" }
    else if d == 8 { "8" } else { "9" };
    assert(res@ =~= seq![digit_char(d as nat)]);
    res
}

/// Writes `n` in decimal.
pub fn decimal_text(n: u64) -> (res: String)
    ensures
        res@ == decimal(n as nat),
    decreases n,
{
    if n < 10 {
        String::from_str(digit_text(n))
    } else {
        let mut res = decimal_text(n / 10);
        res.append(digit_text(n % 10));
        res
    }
}

/// The line that reports a target: `[TARGET] PATH:LINE: NAME`.
pub open spec fn target_report(site: TagSite) -> Seq<char> {
    "[TARGET] "@ + site.path + ":"@ + decimal(site.line_number as nat) + ": "@ + site.tag
}

/// The line that reports a link: `[LINK] PATH:LINE: NAME`.
pub open spec fn link_report(site: TagSite) -> Seq<char> {
    "[LINK] "@ + site.path + ":"@ + decimal(site.line_number as nat) + ": "@ + site.tag
}

/// The report line of a location of the given kind.
pub open spec fn report(kind: TagKind, site: TagSite) -> Seq<char> {
    match kind {
        TagKind::Target => target_report(site),
        TagKind::Link => link_report(site),
    }
}

/// The opening words of a report line: `[TARGET] ` or `[LINK] `.
pub open spec fn report_head(kind: TagKind) -> Seq<char> {
    match kind {
        TagKind::Target => seq!['[', 'T', 'A', 'R', 'G', 'E', 'T', ']', ' '],
        TagKind::Link => seq!['[', 'L', 'I', 'N', 'K', ']', ' '],
    }
}

/// `r` reads as the report of `site`: the opening words of its kind, the whole path, `:`,
/// the full line number in decimal digits (no digit dropped, no leading zero), `: `, and
/// the whole name.
pub open spec fn report_has_fields(r: Seq<char>, kind: TagKind, site: TagSite) -> bool {
    let h = report_head(kind).len() as int;
    let a = h + site.path.len();
    let z = r.len() - site.tag.len();
    &&& a + 4 <= z
    &&& r.subrange(0, h) == report_head(kind)
    &&& r.subrange(h, a) == site.path
    &&& r[a] == ':'
    &&& r.subrange(z - 2, z) == seq![':', ' ']
    &&& r.subrange(z, r.len() as int) == site.tag
    &&& (forall|i: int| a + 1 <= i < z - 2 ==> '0' <= #[trigger] r[i] <= '9')
    &&& digits_value(r.subrange(a + 1, z - 2)) == site.line_number
    &&& (r[a + 1] == '0' ==> site.line_number == 0)
}

/// A report line holds, field by field, the kind's opening words, the whole path, the full
/// line number and the whole name of its site.
pub proof fn lemma_report_fields(kind: TagKind, site: TagSite)
    ensures
        report_has_fields(report(kind, site), kind, site),
{
    reveal_strlit("[TARGET] ");
    reveal_strlit("[LINK] ");
    reveal_strlit(":");
    reveal_strlit(": ");
    let n = site.line_number as nat;
    lemma_decimal_numeral(n);
    let head = report_head(kind);
    let lit = match kind {
        TagKind::Target => "[TARGET] "@,
        TagKind::Link => "[LINK] "@,
    };
    assert(lit =~= head);
    let dec = decimal(n);
    let r = report(kind, site);
    assert(r =~= head + site.path + seq![':'] + dec + seq![':', ' '] + site.tag);
    let h = head.len() as int;
    let a = h + site.path.len();
    let z = r.len() - site.tag.len();
    assert(z == a + 1 + dec.len() + 2);
    assert(r.subrange(0, h) =~= head);
    assert(r.subrange(h, a) =~= site.path);
    assert(r.subrange(z - 2, z) =~= seq![':', ' ']);
    assert(r.subrange(z, r.len() as int) =~= site.tag);
    assert(r.subrange(a + 1, z - 2) =~= dec);
    assert forall|i: int| a + 1 <= i < z - 2 implies '0' <= #[trigger] r[i] <= '9' by {
        assert(r[i] == dec[i - a - 1]);
    }
    assert(r[a + 1] == dec[0]);
}

/// Writes the report line of a location of the given kind.
pub fn report_line(kind: TagKind, loc: &TagLocation) -> (res: String)
    ensures
        res@ == report(kind, loc@),
        report_has_fields(res@, kind, loc@),
{
    proof {
        lemma_report_fields(kind, loc@);
    }
    let mut res = match kind {
        TagKind::Target => String::from_str("[TARGET] "),
        TagKind::Link => String::from_str("[LINK] "),
    };
    res.append(loc.path.as_str());
    res.append(":");
    let num = decimal_text(loc.line_number);
    res.append(num.as_str());
    res.append(": ");
    res.append(loc.line_content.as_str());
    res
}


/// The report lines of all the sites of an index, entry after entry.
pub open spec fn index_report(kind: TagKind, entries: IndexView) -> Seq<Seq<char>> {
    index_sites(entries).map_values(|site: TagSite| report(kind, site))
}

/// What the tool prints about one list: its targets, then its links.
pub open spec fn list_report(list: TagList) -> Seq<Seq<char>> {
    index_report(TagKind::Target, list.targets@) + index_report(TagKind::Link, list.links@)
}

/// What the tool prints about all the lists, list after list.
pub open spec fn full_report(lists: Seq<TagList>) -> Seq<Seq<char>>
    decreases lists.len(),
{
    if lists.len() == 0 {
        Seq::empty()
    } else {
        full_report(lists.drop_last()) + list_report(lists.last())
    }
}

/// The texts of some strings.
pub open spec fn texts(v: Seq<String>) -> Seq<Seq<char>> {
    v.map_values(|t: String| t@)
}

proof fn lemma_index_report_step(kind: TagKind, e: IndexView, i: int)
    requires
        0 <= i < e.len(),
    ensures
        index_report(kind, e.take(i + 1)) == index_report(kind, e.take(i)) + e[i].1.map_values(
            |site: TagSite| report(kind, site),
        ),
{
    assert(e.take(i + 1).drop_last() =~= e.take(i));
    assert(index_sites(e.take(i + 1)) == index_sites(e.take(i)) + e[i].1);
    assert(index_report(kind, e.take(i + 1)) =~= index_report(kind, e.take(i)) + e[i].1.map_values(
        |site: TagSite| report(kind, site),
    ));
}

/// Appends the report lines of all the locations of `index`.
fn append_report(out: &mut Vec<String>, kind: TagKind, index: &TagIndex)
    ensures
        texts(final(out)@) == texts(old(out)@) + index_report(kind, index@),
{
    let entries = index.entries();
    let ghost e = index@;
    let n: usize = entries.len();
    assert(index_report(kind, e.take(0)) =~= Seq::<Seq<char>>::empty()) by {
        assert(e.take(0) =~= Seq::<(Seq<char>, Seq<TagSite>)>::empty());
    }
    for i in 0..n
        invariant
            n == entries@.len(),
            entries@.map_values(|x: TagEntry| x@) == e,
            texts(out@) == texts(old(out)@) + index_report(kind, e.take(i as int)),
    {
        let locs = &entries[i].locations;
        assert(e[i as int] == entries@[i as int]@);
        let ghost before = texts(out@);
        let ghost lines = e[i as int].1.map_values(|site: TagSite| report(kind, site));
        let m: usize = locs.len();
        for k in 0..m
            invariant
                m == locs@.len(),
                e[i as int].1 == locs@.map_values(|l: TagLocation| l@),
                lines == e[i as int].1.map_values(|site: TagSite| report(kind, site)),
                before == texts(old(out)@) + index_report(kind, e.take(i as int)),
                texts(out@) == before + lines.take(k as int),
        {
            let ghost prev = out@;
            out.push(report_line(kind, &locs[k]));
            assert(texts(out@) =~= texts(prev).push(lines[k as int]));
            assert(lines.take(k + 1) =~= lines.take(k as int).push(lines[k as int]));
        }
        assert(lines.take(m as int) =~= lines);
        proof {
            lemma_index_report_step(kind, e, i as int);
        }
    }
    assert(e.take(n as int) =~= e);
}

/// The lines that the tool prints about the tags found: for each list in turn, its
/// targets and then its links, each as `[TARGET] PATH:LINE: NAME` or `[LINK] PATH:LINE: NAME`.
pub fn report_lines(combined: &CombinedTagList) -> (res: Vec<String>)
    ensures
        texts(res@) == full_report(combined.tag_lists@),
{
    let mut out: Vec<String> = Vec::new();
    let lists = &combined.tag_lists;
    let n: usize = lists.len();
    assert(texts(out@) =~= Seq::<Seq<char>>::empty());
    for i in 0..n
        invariant
            n == lists@.len(),
            texts(out@) == full_report(lists@.take(i as int)),
    {
        append_report(&mut out, TagKind::Target, &lists[i].targets);
        append_report(&mut out, TagKind::Link, &lists[i].links);
        assert(lists@.take(i + 1).drop_last() =~= lists@.take(i as int));
        assert(texts(out@) =~= full_report(lists@.take(i + 1)));
    }
    assert(lists@.take(n as int) =~= lists@);
    out
}

} // verus!
