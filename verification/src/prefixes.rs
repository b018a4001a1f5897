//! The prefixes that a page on an autonomous system lists.

use vstd::prelude::*;
use vstd::slice::slice_subrange;

use crate::net;
use crate::numeral;
use crate::text;

verus! {

/// The list with one more text, unless it holds that text.
pub open spec fn with_new(list: Seq<Seq<char>>, s: Seq<char>) -> Seq<Seq<char>> {
    if list.contains(s) {
        list
    } else {
        list.push(s)
    }
}

/// The list with some more texts, each of them once.
pub open spec fn with_all(list: Seq<Seq<char>>, more: Seq<Seq<char>>) -> Seq<Seq<char>>
    decreases more.len(),
{
    if more.len() == 0 {
        list
    } else {
        with_new(with_all(list, more.drop_last()), more.last())
    }
}

fn add_new(list: &mut Vec<String>, s: String)
    ensures
        text::strings(final(list)@) == with_new(text::strings(old(list)@), s@),
{
    if !text::holds(list, s.as_str()) {
        let ghost before = list@;
        list.push(s);
        proof {
            assert(text::strings(list@) =~= text::strings(before).push(s@));
        }
    }
}

/// What precedes a prefix in a link of the page.
pub open spec fn link_start(asn: u32) -> Seq<char> {
    "/AS"@ + numeral::decimal(asn as nat) + "/"@
}

pub open spec fn is_decimal(c: char) -> bool {
    '0' <= c <= '9'
}

/// The end of the run of digits, dots, slashes and colons from index `i` on.
pub open spec fn prefix_end(s: Seq<char>, i: int) -> int
    decreases s.len() - i,
{
    if 0 <= i < s.len() && (is_decimal(s[i]) || s[i] == '.' || s[i] == '/' || s[i] == ':') {
        prefix_end(s, i + 1)
    } else {
        i
    }
}

/// The characters that may surround a link.
pub open spec fn link_marks() -> Seq<char> {
    seq!['"', '\'', '>', '<']
}

/// The IPv4 prefix in a word of the page, if the word is a link to one.
pub open spec fn linked_prefix(word: Seq<char>, start: Seq<char>) -> Option<Seq<char>> {
    let cleaned = text::trim_by(word, text::member_fn(link_marks()));
    match text::find_seq_from(cleaned, start, 0) {
        Some(i) => {
            let after = cleaned.skip(i + start.len());
            let p = after.take(prefix_end(after, 0));
            if text::contains(word, start) && !p.contains(':') && p.contains('/') {
                Some(p)
            } else {
                None
            }
        },
        None => None,
    }
}

/// The prefixes in words, in order.
pub open spec fn linked_prefixes(words: Seq<Seq<char>>, start: Seq<char>) -> Seq<Seq<char>>
    decreases words.len(),
{
    if words.len() == 0 {
        words
    } else {
        match linked_prefix(words.last(), start) {
            Some(p) => linked_prefixes(words.drop_last(), start).push(p),
            None => linked_prefixes(words.drop_last(), start),
        }
    }
}

/// The prefixes that the links in lines name, each of them once.
pub open spec fn listed(lines: Seq<Seq<char>>, start: Seq<char>) -> Seq<Seq<char>>
    decreases lines.len(),
{
    if lines.len() == 0 {
        lines
    } else {
        with_all(listed(lines.drop_last(), start), linked_prefixes(text::words(lines.last()), start))
    }
}

// ---------------------------------------------------------------------------
// Prefixes anywhere in a text

/// The end of the run of digits and of up to three dots from index `i` on, and the
/// number of dots; four where a fourth dot ends the run.
pub open spec fn dotted_end(s: Seq<char>, i: int, dots: int) -> (int, int)
    decreases s.len() - i,
{
    if i < 0 || i >= s.len() {
        (i, dots)
    } else if is_decimal(s[i]) {
        dotted_end(s, i + 1, dots)
    } else if s[i] == '.' {
        if dots >= 3 {
            (i, 4)
        } else {
            dotted_end(s, i + 1, dots + 1)
        }
    } else {
        (i, dots)
    }
}

/// The end of the run of digits from index `i` on.
pub open spec fn digits_end(s: Seq<char>, i: int) -> int
    decreases s.len() - i,
{
    if 0 <= i < s.len() && is_decimal(s[i]) {
        digits_end(s, i + 1)
    } else {
        i
    }
}

pub proof fn lemma_dotted_end(s: Seq<char>, i: int, dots: int)
    requires
        0 <= i <= s.len(),
    ensures
        i <= dotted_end(s, i, dots).0 <= s.len(),
        i < s.len() && is_decimal(s[i]) ==> i < dotted_end(s, i, dots).0,
        dotted_end(s, i, dots).1 == 4 && dots <= 3 ==> dotted_end(s, i, dots).0 < s.len(),
    decreases s.len() - i,
{
    if i < s.len() {
        if is_decimal(s[i]) {
            lemma_dotted_end(s, i + 1, dots);
        } else if s[i] == '.' && dots < 3 {
            lemma_dotted_end(s, i + 1, dots + 1);
        }
    }
}

pub proof fn lemma_digits_end(s: Seq<char>, i: int)
    requires
        0 <= i <= s.len(),
    ensures
        i <= digits_end(s, i) <= s.len(),
    decreases s.len() - i,
{
    if i < s.len() && is_decimal(s[i]) {
        lemma_digits_end(s, i + 1);
    }
}

/// The prefix whose dotted part stands from `start` to `end`, where a slash and a number
/// up to 32 follow it; the number is written without needless zeros.
pub open spec fn prefix_at(s: Seq<char>, start: int, end: int) -> Option<Seq<char>> {
    if end < s.len() && s[end] == '/' {
        match numeral::digits_value(s.subrange(end + 1, digits_end(s, end + 1)), 10, 32) {
            Some(n) => Some(s.subrange(start, end) + "/"@ + numeral::decimal(n as nat)),
            None => None,
        }
    } else {
        None
    }
}

/// The IPv4 prefixes in a text from index `i` on: runs of digits with three dots in them,
/// a slash and a number up to 32.
pub open spec fn prefixes_from(s: Seq<char>, i: int) -> Seq<Seq<char>>
    decreases s.len() - i + 1,
{
    if i < 0 || i >= s.len() {
        Seq::empty()
    } else if !is_decimal(s[i]) {
        prefixes_from(s, i + 1)
    } else {
        proof {
            lemma_dotted_end(s, i, 0);
            if dotted_end(s, i, 0).0 < s.len() {
                lemma_digits_end(s, dotted_end(s, i, 0).0 + 1);
            }
        }
        let (end, dots) = dotted_end(s, i, 0);
        if dots != 3 {
            prefixes_from(s, end + 1)
        } else if end < s.len() && s[end] == '/' {
            let rest = prefixes_from(s, digits_end(s, end + 1));
            match prefix_at(s, i, end) {
                Some(p) => seq![p] + rest,
                None => rest,
            }
        } else {
            prefixes_from(s, end)
        }
    }
}

fn find_dotted_end(s: &[char], start: usize) -> (r: (usize, u32))
    requires
        start <= s@.len(),
    ensures
        (r.0 as int, r.1 as int) == dotted_end(s@, start as int, 0),
        start <= r.0 <= s@.len(),
{
    let mut i: usize = start;
    let mut dots: u32 = 0;
    while i < s.len()
        invariant
            start <= i <= s@.len(),
            dots <= 3,
            dotted_end(s@, start as int, 0) == dotted_end(s@, i as int, dots as int),
        decreases s@.len() - i,
    {
        let c = s[i];
        if '0' <= c && c <= '9' {
            i += 1;
        } else if c == '.' {
            if dots >= 3 {
                return (i, 4);
            }
            dots += 1;
            i += 1;
        } else {
            return (i, dots);
        }
    }
    (i, dots)
}

fn find_digits_end(s: &[char], start: usize) -> (r: usize)
    requires
        start <= s@.len(),
    ensures
        r == digits_end(s@, start as int),
        start <= r <= s@.len(),
{
    let mut i: usize = start;
    while i < s.len() && '0' <= s[i] && s[i] <= '9'
        invariant
            start <= i <= s@.len(),
            digits_end(s@, start as int) == digits_end(s@, i as int),
        decreases s@.len() - i,
    {
        i += 1;
    }
    i
}

/// Finds the IPv4 prefixes in a line.
pub fn regex_fallback(line: &str) -> (r: Vec<String>)
    ensures
        text::strings(r@) == prefixes_from(line@, 0),
{
    let s = text::to_chars(line);
    let mut r: Vec<String> = Vec::new();
    let mut i: usize = 0;
    proof {
        assert(text::strings(r@) + prefixes_from(s@, 0) =~= prefixes_from(s@, 0));
    }
    while i < s.len()
        invariant
            s@ == line@,
            prefixes_from(s@, 0) == text::strings(r@) + prefixes_from(s@, i as int),
        decreases s@.len() - i,
    {
        assert(s@.len() == s.len());
        let c = s[i];
        if !('0' <= c && c <= '9') {
            i += 1;
        } else {
            let start: usize = i;
            proof {
                lemma_dotted_end(s@, start as int, 0);
            }
            let (end, dots) = find_dotted_end(&s, start);
            if dots != 3 {
                if end == s.len() {
                    proof {
                        assert(prefixes_from(s@, end + 1) =~= Seq::<Seq<char>>::empty());
                        assert(prefixes_from(s@, end as int) =~= Seq::<Seq<char>>::empty());
                    }
                    i = end;
                } else {
                    i = end + 1;
                }
            } else if end < s.len() && s[end] == '/' {
                proof {
                    lemma_digits_end(s@, end + 1);
                }
                let stop: usize = find_digits_end(&s, end + 1);
                let ghost rest = prefixes_from(s@, stop as int);
                match numeral::read_digits(slice_subrange(&s, end + 1, stop), 10, 32) {
                    Some(n) => {
                        let mut p = text::from_chars(slice_subrange(&s, start, end));
                        p.append("/");
                        numeral::push_numeral(&mut p, n as u128, 10);
                        let ghost before = r@;
                        r.push(p);
                        proof {
                            assert(prefix_at(s@, start as int, end as int) == Some(p@));
                            assert(text::strings(r@) =~= text::strings(before).push(p@));
                            assert(text::strings(before) + (seq![p@] + rest) =~= text::strings(r@)
                                + rest);
                        }
                    },
                    None => {},
                }
                i = stop;
            } else {
                i = end;
            }
        }
    }
    proof {
        assert(text::strings(r@) + prefixes_from(s@, i as int) =~= text::strings(r@));
    }
    r
}

/// The prefixes anywhere in lines, each of them once.
pub open spec fn scattered(lines: Seq<Seq<char>>) -> Seq<Seq<char>>
    decreases lines.len(),
{
    if lines.len() == 0 {
        lines
    } else {
        with_all(scattered(lines.drop_last()), prefixes_from(lines.last(), 0))
    }
}

/// The prefixes that a page lists for a system: those of its links, or, where no link
/// names one, those anywhere in its text.
pub open spec fn page_prefixes(html: Seq<char>, asn: u32) -> Seq<Seq<char>> {
    let links = listed(text::lines(html), link_start(asn));
    if links.len() > 0 {
        links
    } else {
        scattered(text::lines(html))
    }
}

fn read_linked(word: &[char], start: &[char]) -> (r: Option<String>)
    ensures
        text::opt_text(r) == linked_prefix(word@, start@),
{
    if !text::has_seq(word, start) {
        return None;
    }
    let marks: Vec<char> = vec!['"', '\'', '>', '<'];
    proof {
        assert(marks@ =~= link_marks());
    }
    let cleaned = text::trim_set(word, &marks);
    match text::find_seq(cleaned, start) {
        Some(k) => {
            assert(cleaned@.len() == cleaned.len());
            let from: usize = k + start.len();
            assert(cleaned@.subrange(from as int, cleaned@.len() as int) =~= cleaned@.skip(
                k + start@.len(),
            ));
            let after = slice_subrange(cleaned, from, cleaned.len());
            let mut e: usize = 0;
            while e < after.len() && (('0' <= after[e] && after[e] <= '9') || after[e] == '.'
                || after[e] == '/' || after[e] == ':')
                invariant
                    e <= after@.len(),
                    prefix_end(after@, 0) == prefix_end(after@, e as int),
                decreases after@.len() - e,
            {
                e += 1;
            }
            assert(after@.subrange(0, e as int) =~= after@.take(e as int));
            let p = slice_subrange(after, 0, e);
            proof {
                text::lemma_find_from(p@, ':', 0);
                text::lemma_find_from(p@, '/', 0);
            }
            if text::find_char(p, ':') == p.len() && text::find_char(p, '/') < p.len() {
                Some(text::from_chars(p))
            } else {
                None
            }
        },
        None => None,
    }
}

/// Reads the prefixes that a page lists for a system.
pub fn parse_ipip_asn_html(html: &str, asn: u32) -> (r: Vec<String>)
    ensures
        text::strings(r@) == page_prefixes(html@, asn),
{
    let mut start = text::owned("/AS");
    numeral::push_numeral(&mut start, asn as u128, 10);
    start.append("/");
    let key = text::to_chars(start.as_str());
    let cs = text::to_chars(html);
    let ls = text::split_lines(&cs);
    let ghost v = text::views(ls@);
    let mut out: Vec<String> = Vec::new();
    let mut i: usize = 0;
    proof {
        assert(text::strings(out@) =~= Seq::<Seq<char>>::empty());
        assert(v.take(0) =~= Seq::<Seq<char>>::empty());
    }
    while i < ls.len()
        invariant
            v == text::views(ls@),
            key@ == link_start(asn),
            i <= ls@.len(),
            text::strings(out@) == listed(v.take(i as int), key@),
        decreases ls@.len() - i,
    {
        proof {
            assert(v.take(i + 1).drop_last() =~= v.take(i as int));
            assert(v.take(i + 1).last() == ls@[i as int]@);
        }
        let ws = text::split_words(ls[i]);
        let ghost w = text::views(ws@);
        let ghost base = text::strings(out@);
        let mut j: usize = 0;
        proof {
            assert(w.take(0) =~= Seq::<Seq<char>>::empty());
        }
        while j < ws.len()
            invariant
                w == text::views(ws@),
                j <= ws@.len(),
                text::strings(out@) == with_all(base, linked_prefixes(w.take(j as int), key@)),
            decreases ws@.len() - j,
        {
            proof {
                assert(w.take(j + 1).drop_last() =~= w.take(j as int));
                assert(w.take(j + 1).last() == ws@[j as int]@);
            }
            if let Some(p) = read_linked(ws[j], &key) {
                proof {
                    let t = linked_prefixes(w.take(j + 1), key@);
                    assert(t.drop_last() =~= linked_prefixes(w.take(j as int), key@));
                    assert(t.last() == p@);
                }
                add_new(&mut out, p);
            }
            j += 1;
        }
        proof {
            assert(w.take(j as int) =~= w);
        }
        i += 1;
    }
    proof {
        assert(v.take(i as int) =~= v);
    }
    if out.len() > 0 {
        return out;
    }
    let mut i: usize = 0;
    proof {
        assert(text::strings(out@) =~= Seq::<Seq<char>>::empty());
        assert(v.take(0) =~= Seq::<Seq<char>>::empty());
    }
    while i < ls.len()
        invariant
            v == text::views(ls@),
            i <= ls@.len(),
            text::strings(out@) == scattered(v.take(i as int)),
        decreases ls@.len() - i,
    {
        proof {
            assert(v.take(i + 1).drop_last() =~= v.take(i as int));
            assert(v.take(i + 1).last() == ls@[i as int]@);
        }
        let line = text::from_chars(ls[i]);
        let found = regex_fallback(line.as_str());
        let ghost f = text::strings(found@);
        let ghost base = text::strings(out@);
        let mut j: usize = 0;
        proof {
            assert(f.take(0) =~= Seq::<Seq<char>>::empty());
        }
        while j < found.len()
            invariant
                f == text::strings(found@),
                j <= found@.len(),
                text::strings(out@) == with_all(base, f.take(j as int)),
            decreases found@.len() - j,
        {
            proof {
                assert(f.take(j + 1).drop_last() =~= f.take(j as int));
                assert(f.take(j + 1).last() == found@[j as int]@);
            }
            add_new(&mut out, found[j].clone());
            j += 1;
        }
        proof {
            assert(f.take(j as int) =~= f);
        }
        i += 1;
    }
    proof {
        assert(v.take(i as int) =~= v);
    }
    out
}

proof fn lemma_with_all_distinct(list: Seq<Seq<char>>, more: Seq<Seq<char>>)
    requires
        list.no_duplicates(),
    ensures
        with_all(list, more).no_duplicates(),
    decreases more.len(),
{
    if more.len() > 0 {
        lemma_with_all_distinct(list, more.drop_last());
        let a = with_all(list, more.drop_last());
        let s = more.last();
        if !a.contains(s) {
            let b = a.push(s);
            assert forall|i: int, j: int| 0 <= i < b.len() && 0 <= j < b.len() && i != j implies b[i]
                != b[j] by {
                if i < a.len() && j < a.len() {
                    assert(a[i] != a[j]);
                } else if i < a.len() {
                    assert(a.contains(a[i]));
                } else {
                    assert(a.contains(a[j]));
                }
            }
        }
    }
}

proof fn lemma_listed_distinct(lines: Seq<Seq<char>>, start: Seq<char>)
    ensures
        listed(lines, start).no_duplicates(),
        scattered(lines).no_duplicates(),
    decreases lines.len(),
{
    if lines.len() > 0 {
        lemma_listed_distinct(lines.drop_last(), start);
        lemma_with_all_distinct(
            listed(lines.drop_last(), start),
            linked_prefixes(text::words(lines.last()), start),
        );
        lemma_with_all_distinct(scattered(lines.drop_last()), prefixes_from(lines.last(), 0));
    }
}

/// No prefix of a page is listed twice.
pub proof fn law_prefixes_are_distinct(html: Seq<char>, asn: u32)
    ensures
        page_prefixes(html, asn).no_duplicates(),
{
    lemma_listed_distinct(text::lines(html), link_start(asn));
}

/// A slash and no colon: the form of an IPv4 prefix.
pub open spec fn is_ipv4_form(s: Seq<char>) -> bool {
    s.contains('/') && !s.contains(':')
}

pub open spec fn all_ipv4_form(list: Seq<Seq<char>>) -> bool {
    forall|i: int| 0 <= i < list.len() ==> is_ipv4_form(#[trigger] list[i])
}

proof fn lemma_with_all_form(list: Seq<Seq<char>>, more: Seq<Seq<char>>)
    requires
        all_ipv4_form(list),
        all_ipv4_form(more),
    ensures
        all_ipv4_form(with_all(list, more)),
    decreases more.len(),
{
    if more.len() > 0 {
        assert forall|i: int| 0 <= i < more.drop_last().len() implies is_ipv4_form(
            #[trigger] more.drop_last()[i],
        ) by {
            assert(more.drop_last()[i] == more[i]);
        }
        lemma_with_all_form(list, more.drop_last());
        assert(is_ipv4_form(more[more.len() - 1]));
    }
}

proof fn lemma_linked_form(words: Seq<Seq<char>>, start: Seq<char>)
    ensures
        all_ipv4_form(linked_prefixes(words, start)),
    decreases words.len(),
{
    if words.len() > 0 {
        lemma_linked_form(words.drop_last(), start);
    }
}

proof fn lemma_dotted_chars(s: Seq<char>, i: int, dots: int)
    requires
        0 <= i <= s.len(),
    ensures
        forall|j: int|
            i <= j < dotted_end(s, i, dots).0 ==> is_decimal(#[trigger] s[j]) || s[j] == '.',
    decreases s.len() - i,
{
    if i < s.len() {
        if is_decimal(s[i]) {
            lemma_dotted_chars(s, i + 1, dots);
        } else if s[i] == '.' && dots < 3 {
            lemma_dotted_chars(s, i + 1, dots + 1);
        }
    }
}

proof fn lemma_prefix_form(s: Seq<char>, start: int, end: int)
    requires
        0 <= start <= end <= s.len(),
        forall|j: int| start <= j < end ==> is_decimal(#[trigger] s[j]) || s[j] == '.',
        prefix_at(s, start, end) is Some,
    ensures
        is_ipv4_form(prefix_at(s, start, end)->0),
{
    let n = numeral::digits_value(s.subrange(end + 1, digits_end(s, end + 1)), 10, 32)->0;
    let a = s.subrange(start, end);
    let d = numeral::decimal(n as nat);
    let p = a + "/"@ + d;
    reveal_strlit("/");
    numeral::lemma_numeral(n as nat, 10);
    assert(p[a.len() as int] == '/');
    assert forall|j: int| 0 <= j < p.len() implies p[j] != ':' by {
        if j < a.len() {
            assert(p[j] == s[start + j]);
        } else if j > a.len() {
            assert(p[j] == d[j - a.len() - 1]);
            assert(text::digit_value(d[j - a.len() - 1], 10) is Some);
        }
    }
}

proof fn lemma_prefixes_form(s: Seq<char>, i: int)
    requires
        0 <= i,
    ensures
        all_ipv4_form(prefixes_from(s, i)),
    decreases s.len() - i + 1,
{
    if i < s.len() {
        if !is_decimal(s[i]) {
            lemma_prefixes_form(s, i + 1);
        } else {
            lemma_dotted_end(s, i, 0);
            lemma_dotted_chars(s, i, 0);
            let (end, dots) = dotted_end(s, i, 0);
            if dots != 3 {
                lemma_prefixes_form(s, end + 1);
            } else if end < s.len() && s[end] == '/' {
                lemma_digits_end(s, end + 1);
                lemma_prefixes_form(s, digits_end(s, end + 1));
                if prefix_at(s, i, end) is Some {
                    lemma_prefix_form(s, i, end);
                }
            } else {
                lemma_prefixes_form(s, end);
            }
        }
    }
}

proof fn lemma_listed_form(lines: Seq<Seq<char>>, start: Seq<char>)
    ensures
        all_ipv4_form(listed(lines, start)),
        all_ipv4_form(scattered(lines)),
    decreases lines.len(),
{
    if lines.len() > 0 {
        lemma_listed_form(lines.drop_last(), start);
        lemma_linked_form(text::words(lines.last()), start);
        lemma_prefixes_form(lines.last(), 0);
        lemma_with_all_form(
            listed(lines.drop_last(), start),
            linked_prefixes(text::words(lines.last()), start),
        );
        lemma_with_all_form(scattered(lines.drop_last()), prefixes_from(lines.last(), 0));
    }
}

/// Every prefix of a page has a slash and no colon: no IPv6 prefix is listed.
pub proof fn law_prefixes_are_ipv4(html: Seq<char>, asn: u32)
    ensures
        all_ipv4_form(page_prefixes(html, asn)),
{
    lemma_listed_form(text::lines(html), link_start(asn));
}

/// Texts are added one by one, each unless it is there: what was there stays in front, nothing
/// is lost, and nothing comes from elsewhere.
pub proof fn law_added_texts(
    list: Seq<Seq<char>>,
    a: Seq<Seq<char>>,
    b: Seq<Seq<char>>,
    s: Seq<char>,
)
    ensures
        with_all(list, a + b) == with_all(with_all(list, a), b),
        with_all(list, seq![s]) == (if list.contains(s) {
            list
        } else {
            list + seq![s]
        }),
        with_all(list, a).len() >= list.len(),
        with_all(list, a).take(list.len() as int) == list,
        with_all(list, a).contains(s) <==> list.contains(s) || a.contains(s),
    decreases a.len() + b.len(),
{
    let none = Seq::<Seq<char>>::empty();
    assert(seq![s].drop_last() =~= none);
    assert(with_all(list, none) == list);
    assert(list.push(s) =~= list + seq![s]);
    if a.len() > 0 {
        let front = a.drop_last();
        law_added_texts(list, front, none, s);
        let before = with_all(list, front);
        assert(a =~= front.push(a.last()));
        lemma_with_new(before, a.last(), s);
        lemma_with_new(front, a.last(), s);
        assert(front.push(a.last()).contains(s) <==> front.contains(s) || a.last() == s) by {
            lemma_pushed(front, a.last(), s);
        }
        assert(with_all(list, a).take(list.len() as int) =~= list);
    } else {
        assert(list.take(list.len() as int) =~= list);
    }
    if b.len() > 0 {
        assert((a + b).drop_last() =~= a + b.drop_last());
        law_added_texts(list, a, b.drop_last(), s);
    } else {
        assert(a + b =~= a);
    }
}

proof fn lemma_pushed(list: Seq<Seq<char>>, x: Seq<char>, s: Seq<char>)
    ensures
        list.push(x).contains(s) <==> list.contains(s) || x == s,
{
    if list.contains(s) {
        let i = choose|i: int| 0 <= i < list.len() && list[i] == s;
        assert(list.push(x)[i] == s);
    }
    if x == s {
        assert(list.push(x)[list.len() as int] == s);
    }
}

proof fn lemma_with_new(list: Seq<Seq<char>>, x: Seq<char>, s: Seq<char>)
    ensures
        with_new(list, x).contains(s) <==> list.contains(s) || x == s,
{
    lemma_pushed(list, x, s);
}

/// The links of a page on a system begin with its number.
pub proof fn law_link_start(asn: u32)
    ensures
        link_start(asn) == seq!['/', 'A', 'S'] + numeral::decimal(asn as nat) + seq!['/'],
{
    reveal_strlit("/AS");
    reveal_strlit("/");
    assert("/AS"@ =~= seq!['/', 'A', 'S']);
    assert("/"@ =~= seq!['/']);
}

/// Whether a character may stand in a prefix of a link.
pub open spec fn is_prefix_char(c: char) -> bool {
    '0' <= c <= '9' || c == '.' || c == '/' || c == ':'
}

proof fn lemma_prefix_end(s: Seq<char>, i: int, end: int)
    requires
        0 <= i <= end <= s.len(),
        forall|j: int| i <= j < end ==> is_prefix_char(#[trigger] s[j]),
        end < s.len() ==> !is_prefix_char(s[end]),
    ensures
        prefix_end(s, i) == end,
    decreases end - i,
{
    if i < end {
        assert(is_prefix_char(s[i]));
        lemma_prefix_end(s, i + 1, end);
    }
}

/// A link names the prefix behind its start, up to the first character that cannot stand in one,
/// whatever marks surround the link and whatever stands before its first slash; one with a colon,
/// and one without a slash, does not count.
#[verifier::rlimit(40)]
pub proof fn law_link_is_read(
    marks: Seq<char>,
    before: Seq<char>,
    start: Seq<char>,
    p: Seq<char>,
    behind: Seq<char>,
    more_marks: Seq<char>,
)
    requires
        forall|i: int| 0 <= i < marks.len() ==> link_marks().contains(#[trigger] marks[i]),
        forall|i: int|
            0 <= i < more_marks.len() ==> link_marks().contains(#[trigger] more_marks[i]),
        !before.contains('/'),
        before.len() > 0 ==> !link_marks().contains(before[0]),
        start.len() > 0 && start[0] == '/' && start.last() == '/',
        forall|i: int| 0 <= i < p.len() ==> is_prefix_char(#[trigger] p[i]),
        behind.len() > 0 ==> !is_prefix_char(behind[0]) && !link_marks().contains(behind.last()),
    ensures
        linked_prefix(marks + (before + start + p + behind) + more_marks, start) == (
        if p.contains('/') && !p.contains(':') {
            Some(p)
        } else {
            None
        }),
{
    let t = before + start + p + behind;
    let word = marks + t + more_marks;
    let f = text::member_fn(link_marks());
    let k = before.len() as int;
    let n = start.len() as int;
    assert(t[k] == '/');
    assert(!link_marks().contains('/')) by {
        assert(link_marks().len() == 4);
    }
    if before.len() > 0 {
        assert(t[0] == before[0]);
    }
    if behind.len() > 0 {
        assert(t.last() == behind.last());
    } else if p.len() > 0 {
        assert(t.last() == p.last());
        assert(is_prefix_char(p[p.len() - 1]));
        assert(!link_marks().contains(p.last())) by {
            assert(link_marks().len() == 4);
        }
    } else {
        assert(t.last() == start.last());
    }
    text::law_trimmed(marks, t, more_marks, f);
    assert(t.subrange(k, k + n) =~= start);
    assert(text::occurs_at(t, start, k));
    assert forall|j: int| 0 <= j < k implies !text::occurs_at(t, start, j) by {
        if text::occurs_at(t, start, j) {
            assert(t.subrange(j, j + n)[0] == t[j]);
            assert(before[j] == '/');
            assert(before.contains('/'));
        }
    }
    text::lemma_find_seq_at(t, start, 0, k);
    let at = marks.len() + k;
    assert(word.subrange(at, at + n) =~= start);
    assert(text::occurs_at(word, start, at));
    let after = t.skip(k + n);
    assert(after =~= p + behind);
    assert forall|j: int| 0 <= j < p.len() implies is_prefix_char(#[trigger] after[j]) by {
        assert(after[j] == p[j]);
    }
    lemma_prefix_end(after, 0, p.len() as int);
    assert(after.take(p.len() as int) =~= p);
}

/// A word without the start of a link names no prefix.
pub proof fn law_word_without_link(word: Seq<char>, start: Seq<char>)
    requires
        !text::contains(word, start),
    ensures
        linked_prefix(word, start) is None,
{
}

proof fn lemma_linked(words: Seq<Seq<char>>, start: Seq<char>, p: Seq<char>)
    ensures
        linked_prefixes(words, start).contains(p) <==> exists|i: int|
            0 <= i < words.len() && #[trigger] linked_prefix(words[i], start) == Some(p),
    decreases words.len(),
{
    if words.len() > 0 {
        let front = words.drop_last();
        lemma_linked(front, start, p);
        let n = words.len() - 1;
        assert forall|i: int| 0 <= i < n implies #[trigger] front[i] == words[i] by {}
        if let Some(q) = linked_prefix(words.last(), start) {
            lemma_pushed(linked_prefixes(front, start), q, p);
        }
        if exists|i: int| 0 <= i < words.len() && #[trigger] linked_prefix(words[i], start) == Some(p) {
            let i = choose|i: int|
                0 <= i < words.len() && #[trigger] linked_prefix(words[i], start) == Some(p);
            if i < n {
                assert(linked_prefix(front[i], start) == Some(p));
            } else {
                assert(words[i] == words.last());
            }
        }
        if linked_prefixes(words, start).contains(p) {
            if linked_prefixes(front, start).contains(p) {
                let i = choose|i: int|
                    0 <= i < front.len() && #[trigger] linked_prefix(front[i], start) == Some(p);
                assert(linked_prefix(words[i], start) == Some(p));
            } else {
                assert(linked_prefix(words[n], start) == Some(p));
            }
        }
    }
}

/// Whether a word of a line is a link to a prefix.
pub open spec fn line_links(line: Seq<char>, start: Seq<char>, p: Seq<char>) -> bool {
    exists|j: int|
        0 <= j < text::words(line).len() && #[trigger] linked_prefix(text::words(line)[j], start)
            == Some(p)
}

/// A prefix is listed exactly where a word of a line is a link to it.
pub proof fn law_listed(lines: Seq<Seq<char>>, start: Seq<char>, p: Seq<char>)
    ensures
        listed(lines, start).contains(p) <==> exists|i: int|
            0 <= i < lines.len() && #[trigger] line_links(lines[i], start, p),
    decreases lines.len(),
{
    if lines.len() > 0 {
        let front = lines.drop_last();
        let n = lines.len() - 1;
        law_listed(front, start, p);
        let more = linked_prefixes(text::words(lines.last()), start);
        law_added_texts(listed(front, start), more, Seq::empty(), p);
        lemma_linked(text::words(lines.last()), start, p);
        assert(more.contains(p) <==> line_links(lines[n], start, p));
        if exists|i: int| 0 <= i < lines.len() && #[trigger] line_links(lines[i], start, p) {
            let i = choose|i: int| 0 <= i < lines.len() && #[trigger] line_links(lines[i], start, p);
            if i < n {
                assert(front[i] == lines[i]);
                assert(line_links(front[i], start, p));
            }
        }
        if listed(front, start).contains(p) {
            let i = choose|i: int| 0 <= i < front.len() && #[trigger] line_links(front[i], start, p);
            assert(front[i] == lines[i]);
            assert(line_links(lines[i], start, p));
        }
    }
}

/// A prefix is found anywhere in lines exactly where it is found in one of them.
pub proof fn law_scattered(lines: Seq<Seq<char>>, p: Seq<char>)
    ensures
        scattered(lines).contains(p) <==> exists|i: int|
            0 <= i < lines.len() && (#[trigger] prefixes_from(lines[i], 0)).contains(p),
    decreases lines.len(),
{
    if lines.len() > 0 {
        let front = lines.drop_last();
        let n = lines.len() - 1;
        law_scattered(front, p);
        let more = prefixes_from(lines.last(), 0);
        law_added_texts(scattered(front), more, Seq::empty(), p);
        assert(lines[n] == lines.last());
        if exists|i: int| 0 <= i < lines.len() && (#[trigger] prefixes_from(lines[i], 0)).contains(p) {
            let i = choose|i: int|
                0 <= i < lines.len() && (#[trigger] prefixes_from(lines[i], 0)).contains(p);
            if i < n {
                assert(front[i] == lines[i]);
                assert(prefixes_from(front[i], 0).contains(p));
            }
        }
        if scattered(front).contains(p) {
            let i = choose|i: int|
                0 <= i < front.len() && (#[trigger] prefixes_from(front[i], 0)).contains(p);
            assert(front[i] == lines[i]);
            assert(prefixes_from(lines[i], 0).contains(p));
        }
        if more.contains(p) {
            assert(prefixes_from(lines[n], 0).contains(p));
        }
    }
}

/// Where a line of a page links to a prefix, the page lists exactly the prefixes that its lines
/// link to; else it lists exactly those found anywhere in its lines.
pub proof fn law_page(html: Seq<char>, asn: u32, q: Seq<char>, p: Seq<char>)
    ensures
        (exists|i: int|
            0 <= i < text::lines(html).len() && #[trigger] line_links(
                text::lines(html)[i],
                link_start(asn),
                q,
            )) ==> (page_prefixes(html, asn).contains(p) <==> exists|i: int|
            0 <= i < text::lines(html).len() && #[trigger] line_links(
                text::lines(html)[i],
                link_start(asn),
                p,
            )),
        (forall|i: int, x: Seq<char>|
            0 <= i < text::lines(html).len() ==> !#[trigger] line_links(
                text::lines(html)[i],
                link_start(asn),
                x,
            )) ==> (page_prefixes(html, asn).contains(p) <==> exists|i: int|
            0 <= i < text::lines(html).len() && (#[trigger] prefixes_from(
                text::lines(html)[i],
                0,
            )).contains(p)),
{
    let lines = text::lines(html);
    let start = link_start(asn);
    law_listed(lines, start, q);
    law_listed(lines, start, p);
    law_scattered(lines, p);
    let links = listed(lines, start);
    if links.len() > 0 {
        law_listed(lines, start, links[0]);
        assert(links.contains(links[0]));
    }
}

// ---------------------------------------------------------------------------
// Prefixes anywhere in a text, read

proof fn lemma_digits_run(s: Seq<char>, i: int, end: int)
    requires
        0 <= i <= end <= s.len(),
        forall|j: int| i <= j < end ==> is_decimal(#[trigger] s[j]),
    ensures
        digits_end(s, i) == digits_end(s, end),
        forall|dots: int| #[trigger] dotted_end(s, i, dots) == dotted_end(s, end, dots),
    decreases end - i,
{
    if i < end {
        assert(is_decimal(s[i]));
        lemma_digits_run(s, i + 1, end);
        assert forall|dots: int| #[trigger] dotted_end(s, i, dots) == dotted_end(s, end, dots) by {
            assert(dotted_end(s, i, dots) == dotted_end(s, i + 1, dots));
        }
    }
}

proof fn lemma_ends_shift(a: Seq<char>, b: Seq<char>, i: int, dots: int)
    requires
        0 <= i <= b.len(),
    ensures
        digits_end(a + b, a.len() + i) == a.len() + digits_end(b, i),
        dotted_end(a + b, a.len() + i, dots) == (
            a.len() + dotted_end(b, i, dots).0,
            dotted_end(b, i, dots).1,
        ),
    decreases b.len() - i,
{
    if i < b.len() {
        assert((a + b)[a.len() + i] == b[i]);
        lemma_ends_shift(a, b, i + 1, dots);
        lemma_ends_shift(a, b, i + 1, dots + 1);
    }
}

proof fn lemma_prefixes_shift(a: Seq<char>, b: Seq<char>, i: int)
    requires
        0 <= i <= b.len(),
    ensures
        prefixes_from(a + b, a.len() + i) == prefixes_from(b, i),
    decreases b.len() - i,
{
    let s = a + b;
    let n = a.len() as int;
    if i < b.len() {
        assert(s[n + i] == b[i]);
        if !is_decimal(b[i]) {
            lemma_prefixes_shift(a, b, i + 1);
        } else {
            let (end, dots) = dotted_end(b, i, 0);
            lemma_dotted_end(b, i, 0);
            lemma_dotted_end(s, n + i, 0);
            lemma_ends_shift(a, b, i, 0);
            if dots != 3 {
                if end < b.len() {
                    lemma_prefixes_shift(a, b, end + 1);
                } else {
                    assert(prefixes_from(s, n + end + 1) =~= prefixes_from(b, end + 1));
                }
            } else if end < b.len() && b[end] == '/' {
                assert(s[n + end] == '/');
                lemma_digits_end(b, end + 1);
                lemma_ends_shift(a, b, end + 1, 0);
                let stop = digits_end(b, end + 1);
                lemma_prefixes_shift(a, b, stop);
                assert(s.subrange(n + end + 1, n + stop) =~= b.subrange(end + 1, stop));
                assert(s.subrange(n + i, n + end) =~= b.subrange(i, end));
                assert(prefix_at(s, n + i, n + end) == prefix_at(b, i, end));
            } else {
                if end < b.len() {
                    assert(s[n + end] == b[end]);
                }
                lemma_prefixes_shift(a, b, end);
            }
        }
    }
}

/// Text without digits holds no prefix, and does not count before one.
pub proof fn law_no_prefix_without_digits(a: Seq<char>, b: Seq<char>)
    requires
        forall|i: int| 0 <= i < a.len() ==> !is_decimal(#[trigger] a[i]),
    ensures
        prefixes_from(a + b, 0) == prefixes_from(b, 0),
        prefixes_from(a, 0) == Seq::<Seq<char>>::empty(),
{
    let none = Seq::<char>::empty();
    lemma_no_digits(a, b, 0);
    lemma_no_digits(a, none, 0);
    lemma_prefixes_shift(a, b, 0);
    lemma_prefixes_shift(a, none, 0);
    assert(a + none =~= a);
}

proof fn lemma_no_digits(a: Seq<char>, b: Seq<char>, i: int)
    requires
        0 <= i <= a.len(),
        forall|j: int| 0 <= j < a.len() ==> !is_decimal(#[trigger] a[j]),
    ensures
        prefixes_from(a + b, i) == prefixes_from(a + b, a.len() as int),
    decreases a.len() - i,
{
    if i < a.len() {
        assert((a + b)[i] == a[i]);
        lemma_no_digits(a, b, i + 1);
    }
}

proof fn lemma_decimal_is_decimal(n: nat)
    ensures
        numeral::decimal(n).len() > 0,
        forall|i: int| 0 <= i < numeral::decimal(n).len() ==> is_decimal(#[trigger] numeral::decimal(n)[i]),
{
    let d = numeral::decimal(n);
    numeral::lemma_numeral(n, 10);
    assert forall|i: int| 0 <= i < d.len() implies is_decimal(#[trigger] d[i]) by {
        assert(text::digit_value(d[i], 10) is Some);
    }
}

/// A prefix that is written in a text is found in it, where its length is at most 32, and the text
/// behind it is searched on; one that is longer is passed over.
#[verifier::rlimit(40)]
pub proof fn law_written_prefix_is_found(
    before: Seq<char>,
    v: net::Ipv4Addr,
    bits: nat,
    behind: Seq<char>,
)
    requires
        forall|i: int| 0 <= i < before.len() ==> !is_decimal(#[trigger] before[i]),
        behind.len() > 0 ==> !is_decimal(behind[0]),
    ensures
        ({
            let p = net::show_ip(net::IpAddr::V4(v)) + seq!['/'] + numeral::decimal(bits);
            prefixes_from(before + (p + behind), 0) == (if bits <= 32 {
                seq![p] + prefixes_from(behind, 0)
            } else {
                prefixes_from(behind, 0)
            })
        }),
{
    reveal_strlit("/");
    assert("/"@ =~= seq!['/']);
    let d = numeral::decimal(bits);
    let dotted = net::show_ip(net::IpAddr::V4(v));
    let p = dotted + seq!['/'] + d;
    let s = p + behind;
    law_no_prefix_without_digits(before, s);
    net::law_dotted_text(v);
    let a = numeral::decimal(v.a as nat);
    let b = numeral::decimal(v.b as nat);
    let c = numeral::decimal(v.c as nat);
    let e = numeral::decimal(v.d as nat);
    lemma_decimal_is_decimal(v.a as nat);
    lemma_decimal_is_decimal(v.b as nat);
    lemma_decimal_is_decimal(v.c as nat);
    lemma_decimal_is_decimal(v.d as nat);
    lemma_decimal_is_decimal(bits);
    let i1 = a.len() as int;
    let i2 = i1 + 1 + b.len();
    let i3 = i2 + 1 + c.len();
    let i4 = i3 + 1 + e.len();
    let i5 = i4 + 1 + d.len();
    assert(s =~= a + (seq!['.'] + (b + (seq!['.'] + (c + (seq!['.'] + (e + (seq!['/'] + (d
        + behind)))))))));
    assert forall|j: int| 0 <= j < i1 implies is_decimal(#[trigger] s[j]) by {
        assert(s[j] == a[j]);
    }
    assert(s[i1] == '.');
    assert forall|j: int| i1 + 1 <= j < i2 implies is_decimal(#[trigger] s[j]) by {
        assert(s[j] == b[j - i1 - 1]);
    }
    assert(s[i2] == '.');
    assert forall|j: int| i2 + 1 <= j < i3 implies is_decimal(#[trigger] s[j]) by {
        assert(s[j] == c[j - i2 - 1]);
    }
    assert(s[i3] == '.');
    assert forall|j: int| i3 + 1 <= j < i4 implies is_decimal(#[trigger] s[j]) by {
        assert(s[j] == e[j - i3 - 1]);
    }
    assert(s[i4] == '/');
    assert forall|j: int| i4 + 1 <= j < i5 implies is_decimal(#[trigger] s[j]) by {
        assert(s[j] == d[j - i4 - 1]);
    }
    if behind.len() > 0 {
        assert(s[i5] == behind[0]);
    }
    lemma_digits_run(s, 0, i1);
    lemma_digits_run(s, i1 + 1, i2);
    lemma_digits_run(s, i2 + 1, i3);
    lemma_digits_run(s, i3 + 1, i4);
    lemma_digits_run(s, i4 + 1, i5);
    assert(dotted_end(s, 0, 0) == dotted_end(s, i1, 0));
    assert(dotted_end(s, i1, 0) == dotted_end(s, i1 + 1, 1));
    assert(dotted_end(s, i1 + 1, 1) == dotted_end(s, i2, 1));
    assert(dotted_end(s, i2, 1) == dotted_end(s, i2 + 1, 2));
    assert(dotted_end(s, i2 + 1, 2) == dotted_end(s, i3, 2));
    assert(dotted_end(s, i3, 2) == dotted_end(s, i3 + 1, 3));
    assert(dotted_end(s, i3 + 1, 3) == dotted_end(s, i4, 3));
    assert(dotted_end(s, i4, 3) == (i4, 3int));
    assert(digits_end(s, i5) == i5);
    assert(digits_end(s, i4 + 1) == i5);
    assert(is_decimal(s[0]));
    assert(s.subrange(i4 + 1, i5) =~= d);
    assert(s.subrange(0, i4) =~= dotted);
    numeral::lemma_numeral(bits, 10);
    if bits <= 32 {
        numeral::lemma_read_numeral(bits, 10, 32);
    }
    lemma_prefixes_shift(p, behind, 0);
    assert(p.len() == i5);
}

} // verus!
