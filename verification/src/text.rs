//! Text as sequences of characters: searching, splitting, trimming, joining.

use vstd::prelude::*;
use vstd::slice::slice_subrange;

verus! {

/// `String::push` appends the given character to the end of the string.
pub assume_specification[ String::push ](s: &mut String, c: char)
    ensures
        final(s)@ == old(s)@.push(c),
;

// ---------------------------------------------------------------------------
// Characters

/// The characters with the Unicode property White_Space.
pub open spec fn is_space(c: char) -> bool {
    ||| '\u{9}' <= c <= '\u{d}'
    ||| c == '\u{20}'
    ||| c == '\u{85}'
    ||| c == '\u{a0}'
    ||| c == '\u{1680}'
    ||| '\u{2000}' <= c <= '\u{200a}'
    ||| c == '\u{2028}'
    ||| c == '\u{2029}'
    ||| c == '\u{202f}'
    ||| c == '\u{205f}'
    ||| c == '\u{3000}'
}

pub fn char_is_space(c: char) -> (r: bool)
    ensures
        r == is_space(c),
{
    ('\u{9}' <= c && c <= '\u{d}') || c == '\u{20}' || c == '\u{85}' || c == '\u{a0}' || c
        == '\u{1680}' || ('\u{2000}' <= c && c <= '\u{200a}') || c == '\u{2028}' || c == '\u{2029}'
        || c == '\u{202f}' || c == '\u{205f}' || c == '\u{3000}'
}

/// The ASCII upper-case form of a character; other characters are their own.
pub open spec fn upper_char(c: char) -> char {
    if 'a' <= c <= 'z' {
        (c as u8 - 32) as char
    } else {
        c
    }
}

/// The ASCII lower-case form of a character; other characters are their own.
pub open spec fn lower_char(c: char) -> char {
    if 'A' <= c <= 'Z' {
        (c as u8 + 32) as char
    } else {
        c
    }
}

pub fn char_to_upper(c: char) -> (r: char)
    ensures
        r == upper_char(c),
{
    if 'a' <= c && c <= 'z' {
        (c as u8 - 32) as char
    } else {
        c
    }
}

pub fn char_to_lower(c: char) -> (r: char)
    ensures
        r == lower_char(c),
{
    if 'A' <= c && c <= 'Z' {
        (c as u8 + 32) as char
    } else {
        c
    }
}

/// The value of a digit in a radix up to sixteen, if the character is one.
pub open spec fn digit_value(c: char, radix: int) -> Option<nat> {
    let v: int = if '0' <= c <= '9' {
        c as int - '0' as int
    } else if 'a' <= c <= 'f' {
        c as int - 'a' as int + 10
    } else if 'A' <= c <= 'F' {
        c as int - 'A' as int + 10
    } else {
        radix
    };
    if v < radix {
        Some(v as nat)
    } else {
        None
    }
}

pub fn char_to_digit(c: char, radix: u32) -> (r: Option<u32>)
    requires
        2 <= radix <= 16,
    ensures
        match r {
            Some(d) => digit_value(c, radix as int) == Some(d as nat),
            None => digit_value(c, radix as int) is None,
        },
{
    let v: u32 = if '0' <= c && c <= '9' {
        c as u32 - '0' as u32
    } else if 'a' <= c && c <= 'f' {
        c as u32 - 'a' as u32 + 10
    } else if 'A' <= c && c <= 'F' {
        c as u32 - 'A' as u32 + 10
    } else {
        radix
    };
    if v < radix {
        Some(v)
    } else {
        None
    }
}

// ---------------------------------------------------------------------------
// Conversion

/// The characters of a string.
pub fn to_chars(s: &str) -> (r: Vec<char>)
    ensures
        r@ == s@,
{
    let mut r: Vec<char> = Vec::new();
    for c in it: s.chars()
        invariant
            it.seq() == s@,
            r@ == s@.take(it.index() as int),
    {
        r.push(c);
    }
    r
}

/// The string made of the given characters.
pub fn from_chars(cs: &[char]) -> (r: String)
    ensures
        r@ == cs@,
{
    let mut r = String::new();
    let mut i: usize = 0;
    while i < cs.len()
        invariant
            i <= cs@.len(),
            r@ == cs@.take(i as int),
        decreases cs@.len() - i,
    {
        r.push(cs[i]);
        proof {
            assert(cs@.take(i + 1) == cs@.take(i as int).push(cs@[i as int]));
        }
        i += 1;
    }
    proof {
        assert(cs@.take(i as int) == cs@);
    }
    r
}

/// A string literal or slice as an owned string.
pub fn owned(s: &str) -> (r: String)
    ensures
        r@ == s@,
{
    s.to_owned()
}

/// The texts of a sequence of character slices.
pub open spec fn views(v: Seq<&[char]>) -> Seq<Seq<char>> {
    v.map_values(|x: &[char]| x@)
}

/// The texts of a sequence of strings.
pub open spec fn strings(v: Seq<String>) -> Seq<Seq<char>> {
    v.map_values(|x: String| x@)
}

/// The text of an optional string.
pub open spec fn opt_text(o: Option<String>) -> Option<Seq<char>> {
    match o {
        Some(s) => Some(s@),
        None => None,
    }
}

pub fn clone_opt(o: &Option<String>) -> (r: Option<String>)
    ensures
        opt_text(r) == opt_text(*o),
{
    match o {
        Some(s) => Some(s.clone()),
        None => None,
    }
}

pub fn clone_strings(v: &Vec<String>) -> (r: Vec<String>)
    ensures
        strings(r@) == strings(v@),
{
    let mut r: Vec<String> = Vec::new();
    let mut i: usize = 0;
    while i < v.len()
        invariant
            i <= v@.len(),
            strings(r@) == strings(v@.take(i as int)),
        decreases v@.len() - i,
    {
        r.push(v[i].clone());
        proof {
            assert(strings(v@.take(i + 1)) =~= strings(v@.take(i as int)).push(v@[i as int]@));
        }
        i += 1;
    }
    proof {
        assert(v@.take(i as int) =~= v@);
    }
    r
}

// What `String::from_utf8_lossy` makes of bytes that are not well-formed UTF-8.
pub uninterp spec fn utf8_repaired(bytes: Seq<u8>) -> Seq<char>;

/// The text that bytes stand for: what they encode where they are well-formed UTF-8;
/// else what is left of them with replacement characters for the ill-formed parts.
pub open spec fn lossy_text(bytes: Seq<u8>) -> Seq<char> {
    if vstd::utf8::valid_utf8(bytes) {
        vstd::utf8::decode_utf8(bytes)
    } else {
        utf8_repaired(bytes)
    }
}

/// `String::from_utf8_lossy`: the text that the bytes encode, with a replacement
/// character for each ill-formed part. Well-formed UTF-8 comes out unchanged; what
/// becomes of other bytes is left to the name `utf8_repaired`.
#[verifier::external_body]
fn from_utf8_lossy(bytes: &[u8]) -> (r: String)
    ensures
        vstd::utf8::valid_utf8(bytes@) ==> r@ == vstd::utf8::decode_utf8(bytes@),
        !vstd::utf8::valid_utf8(bytes@) ==> r@ == utf8_repaired(bytes@),
{
    String::from_utf8_lossy(bytes).into_owned()
}

/// Reads bytes as text.
pub fn decode_lossy(bytes: &[u8]) -> (r: String)
    ensures
        r@ == lossy_text(bytes@),
{
    from_utf8_lossy(bytes)
}

/// The bytes of a text stand for that text.
pub proof fn law_encoded_text_is_read(s: Seq<char>)
    ensures
        lossy_text(vstd::utf8::encode_utf8(s)) == s,
{
    vstd::utf8::encode_utf8_valid_utf8(s);
    vstd::utf8::encode_utf8_decode_utf8(s);
}

// ---------------------------------------------------------------------------
// Case mapping and comparison

pub open spec fn upper(s: Seq<char>) -> Seq<char> {
    s.map_values(|c: char| upper_char(c))
}

pub open spec fn lower(s: Seq<char>) -> Seq<char> {
    s.map_values(|c: char| lower_char(c))
}

pub fn to_upper(s: &[char]) -> (r: Vec<char>)
    ensures
        r@ == upper(s@),
{
    let mut r: Vec<char> = Vec::new();
    let mut i: usize = 0;
    while i < s.len()
        invariant
            i <= s@.len(),
            r@ == upper(s@.take(i as int)),
        decreases s@.len() - i,
    {
        r.push(char_to_upper(s[i]));
        proof {
            assert(upper(s@.take(i + 1)) =~= upper(s@.take(i as int)).push(upper_char(s@[i as int])));
        }
        i += 1;
    }
    proof {
        assert(s@.take(i as int) =~= s@);
    }
    r
}

pub fn to_lower(s: &[char]) -> (r: Vec<char>)
    ensures
        r@ == lower(s@),
{
    let mut r: Vec<char> = Vec::new();
    let mut i: usize = 0;
    while i < s.len()
        invariant
            i <= s@.len(),
            r@ == lower(s@.take(i as int)),
        decreases s@.len() - i,
    {
        r.push(char_to_lower(s[i]));
        proof {
            assert(lower(s@.take(i + 1)) =~= lower(s@.take(i as int)).push(lower_char(s@[i as int])));
        }
        i += 1;
    }
    proof {
        assert(s@.take(i as int) =~= s@);
    }
    r
}

/// The ASCII upper-case form of a text is its own upper-case form.
pub proof fn lemma_upper_idempotent(s: Seq<char>)
    ensures
        upper(upper(s)) == upper(s),
{
    assert(upper(upper(s)) =~= upper(s));
}

pub fn same(a: &[char], b: &[char]) -> (r: bool)
    ensures
        r == (a@ == b@),
{
    if a.len() != b.len() {
        return false;
    }
    let mut i: usize = 0;
    while i < a.len()
        invariant
            i <= a@.len(),
            a@.len() == b@.len(),
            forall|j: int| 0 <= j < i ==> a@[j] == b@[j],
        decreases a@.len() - i,
    {
        if a[i] != b[i] {
            return false;
        }
        i += 1;
    }
    proof {
        assert(a@ =~= b@);
    }
    true
}

pub fn same_str(a: &str, b: &str) -> (r: bool)
    ensures
        r == (a@ == b@),
{
    let x = to_chars(a);
    let y = to_chars(b);
    same(&x, &y)
}

/// Equality of a character slice with a string.
pub fn is_str(a: &[char], b: &str) -> (r: bool)
    ensures
        r == (a@ == b@),
{
    let y = to_chars(b);
    same(a, &y)
}

/// Whether a list of strings holds the given text.
pub fn holds(v: &Vec<String>, s: &str) -> (r: bool)
    ensures
        r == strings(v@).contains(s@),
{
    let mut i: usize = 0;
    while i < v.len()
        invariant
            i <= v@.len(),
            forall|j: int| 0 <= j < i ==> v@[j]@ != s@,
        decreases v@.len() - i,
    {
        if same_str(v[i].as_str(), s) {
            proof {
                assert(strings(v@)[i as int] == s@);
            }
            return true;
        }
        i += 1;
    }
    proof {
        assert forall|j: int| 0 <= j < strings(v@).len() implies strings(v@)[j] != s@ by {
            assert(v@[j]@ != s@);
        }
    }
    false
}

// ---------------------------------------------------------------------------
// Searching

/// The first index from `i` on at which `c` stands; the length where there is none.
pub open spec fn find_from<T>(s: Seq<T>, c: T, i: int) -> int
    decreases s.len() - i,
{
    if i < 0 || i >= s.len() {
        s.len() as int
    } else if s[i] == c {
        i
    } else {
        find_from(s, c, i + 1)
    }
}

/// The first index at which `c` stands; the length where there is none.
pub open spec fn position<T>(s: Seq<T>, c: T) -> int {
    find_from(s, c, 0)
}

pub proof fn lemma_find_from<T>(s: Seq<T>, c: T, i: int)
    requires
        0 <= i <= s.len(),
    ensures
        i <= find_from(s, c, i) <= s.len(),
        find_from(s, c, i) < s.len() ==> s[find_from(s, c, i)] == c,
        forall|j: int| i <= j < find_from(s, c, i) ==> s[j] != c,
    decreases s.len() - i,
{
    if i < s.len() && s[i] != c {
        lemma_find_from(s, c, i + 1);
    }
}

/// A first occurrence is where the search stops.
pub proof fn lemma_find_at<T>(s: Seq<T>, c: T, i: int, p: int)
    requires
        0 <= i <= p <= s.len(),
        p < s.len() ==> s[p] == c,
        forall|j: int| i <= j < p ==> s[j] != c,
    ensures
        find_from(s, c, i) == p,
    decreases s.len() - i,
{
    lemma_find_from(s, c, i);
    let q = find_from(s, c, i);
    if q < p {
        assert(s[q] != c);
    }
    if p < q {
        assert(s[p] != c);
    }
}

pub fn find_char(s: &[char], c: char) -> (r: usize)
    ensures
        r == position(s@, c),
        r <= s@.len(),
{
    let mut i: usize = 0;
    while i < s.len()
        invariant
            i <= s@.len(),
            find_from(s@, c, 0) == find_from(s@, c, i as int),
        decreases s@.len() - i,
    {
        if s[i] == c {
            return i;
        }
        i += 1;
    }
    i
}

/// The last index before `n` at which `c` stands; -1 where there is none.
pub open spec fn last_before(s: Seq<char>, c: char, n: int) -> int
    decreases n,
{
    if n <= 0 || n > s.len() {
        -1
    } else if s[n - 1] == c {
        n - 1
    } else {
        last_before(s, c, n - 1)
    }
}

/// The last index at which `c` stands; -1 where there is none.
pub open spec fn last_position(s: Seq<char>, c: char) -> int {
    last_before(s, c, s.len() as int)
}

/// A last occurrence is where the search from behind stops.
pub proof fn lemma_last_at(s: Seq<char>, c: char, n: int, p: int)
    requires
        0 <= p < n <= s.len(),
        s[p] == c,
        forall|j: int| p < j < n ==> s[j] != c,
    ensures
        last_before(s, c, n) == p,
    decreases n,
{
    if s[n - 1] != c {
        lemma_last_at(s, c, n - 1, p);
    }
}

pub fn rfind_char(s: &[char], c: char) -> (r: Option<usize>)
    ensures
        match r {
            Some(i) => i == last_position(s@, c) && i < s@.len(),
            None => last_position(s@, c) == -1,
        },
{
    let mut n: usize = s.len();
    while n > 0
        invariant
            n <= s@.len(),
            last_before(s@, c, s@.len() as int) == last_before(s@, c, n as int),
        decreases n,
    {
        if s[n - 1] == c {
            return Some(n - 1);
        }
        n -= 1;
    }
    None
}

/// Whether `p` stands in `s` from index `i` on.
pub open spec fn occurs_at<T>(s: Seq<T>, p: Seq<T>, i: int) -> bool {
    &&& 0 <= i
    &&& i + p.len() <= s.len()
    &&& s.subrange(i, i + p.len()) == p
}

/// Whether `p` stands somewhere in `s`.
pub open spec fn contains<T>(s: Seq<T>, p: Seq<T>) -> bool {
    exists|i: int| occurs_at(s, p, i)
}

/// The first index from `i` on at which `p` stands in `s`.
pub open spec fn find_seq_from<T>(s: Seq<T>, p: Seq<T>, i: int) -> Option<int>
    decreases s.len() - i + 1,
{
    if i < 0 || i + p.len() > s.len() {
        None
    } else if occurs_at(s, p, i) {
        Some(i)
    } else {
        find_seq_from(s, p, i + 1)
    }
}

pub open spec fn starts_with(s: Seq<char>, p: Seq<char>) -> bool {
    occurs_at(s, p, 0)
}

pub open spec fn ends_with<T>(s: Seq<T>, p: Seq<T>) -> bool {
    occurs_at(s, p, s.len() - p.len())
}

pub proof fn lemma_find_seq_from<T>(s: Seq<T>, p: Seq<T>, i: int)
    requires
        0 <= i,
    ensures
        match find_seq_from(s, p, i) {
            Some(k) => i <= k && occurs_at(s, p, k) && forall|j: int|
                i <= j < k ==> !occurs_at(s, p, j),
            None => forall|j: int| i <= j ==> !occurs_at(s, p, j),
        },
    decreases s.len() - i + 1,
{
    if i + p.len() <= s.len() && !occurs_at(s, p, i) {
        lemma_find_seq_from(s, p, i + 1);
    }
}

/// A first occurrence is where the search stops.
pub proof fn lemma_find_seq_at<T>(s: Seq<T>, p: Seq<T>, i: int, k: int)
    requires
        0 <= i <= k,
        occurs_at(s, p, k),
        forall|j: int| i <= j < k ==> !occurs_at(s, p, j),
    ensures
        find_seq_from(s, p, i) == Some(k),
{
    lemma_find_seq_from(s, p, i);
    match find_seq_from(s, p, i) {
        Some(q) => {
            if q < k {
                assert(!occurs_at(s, p, q));
            }
            if k < q {
                assert(!occurs_at(s, p, k));
            }
        },
        None => {
            assert(!occurs_at(s, p, k));
        },
    }
}

/// Without an occurrence the search finds nothing.
pub proof fn lemma_find_seq_none<T>(s: Seq<T>, p: Seq<T>, i: int)
    requires
        0 <= i,
        forall|j: int| i <= j ==> !occurs_at(s, p, j),
    ensures
        find_seq_from(s, p, i) is None,
{
    lemma_find_seq_from(s, p, i);
}

fn matches_at(s: &[char], p: &[char], i: usize) -> (r: bool)
    requires
        i + p@.len() <= s@.len(),
    ensures
        r == occurs_at(s@, p@, i as int),
{
    assert(s@.len() == s.len());
    same(slice_subrange(s, i, i + p.len()), p)
}

pub fn find_seq(s: &[char], p: &[char]) -> (r: Option<usize>)
    ensures
        match r {
            Some(i) => find_seq_from(s@, p@, 0) == Some(i as int) && i + p@.len() <= s@.len(),
            None => find_seq_from(s@, p@, 0) is None,
        },
{
    if p.len() > s.len() {
        return None;
    }
    let last: usize = s.len() - p.len();
    let mut i: usize = 0;
    while i <= last
        invariant
            last == s@.len() - p@.len(),
            i <= last + 1,
            last < s@.len() || (last == s@.len() && p@.len() == 0),
            find_seq_from(s@, p@, 0) == find_seq_from(s@, p@, i as int),
        decreases last + 1 - i,
    {
        if matches_at(s, p, i) {
            return Some(i);
        }
        if i == last {
            return None;
        }
        i += 1;
    }
    None
}

pub fn has_seq(s: &[char], p: &[char]) -> (r: bool)
    ensures
        r == contains(s@, p@),
{
    proof {
        lemma_find_seq_from(s@, p@, 0);
    }
    match find_seq(s, p) {
        Some(i) => {
            assert(occurs_at(s@, p@, i as int));
            true
        },
        None => false,
    }
}

pub fn str_contains(s: &str, p: &str) -> (r: bool)
    ensures
        r == contains(s@, p@),
{
    let x = to_chars(s);
    let y = to_chars(p);
    has_seq(&x, &y)
}

pub fn has_prefix(s: &[char], p: &[char]) -> (r: bool)
    ensures
        r == starts_with(s@, p@),
{
    if p.len() > s.len() {
        return false;
    }
    matches_at(s, p, 0)
}

pub fn has_suffix(s: &[char], p: &[char]) -> (r: bool)
    ensures
        r == ends_with(s@, p@),
{
    if p.len() > s.len() {
        return false;
    }
    matches_at(s, p, s.len() - p.len())
}

// ---------------------------------------------------------------------------
// Trimming

pub open spec fn trim_start_by(s: Seq<char>, f: spec_fn(char) -> bool) -> Seq<char>
    decreases s.len(),
{
    if s.len() > 0 && f(s[0]) {
        trim_start_by(s.skip(1), f)
    } else {
        s
    }
}

pub open spec fn trim_end_by(s: Seq<char>, f: spec_fn(char) -> bool) -> Seq<char>
    decreases s.len(),
{
    if s.len() > 0 && f(s.last()) {
        trim_end_by(s.drop_last(), f)
    } else {
        s
    }
}

/// The text without the matching characters at either end.
pub open spec fn trim_by(s: Seq<char>, f: spec_fn(char) -> bool) -> Seq<char> {
    trim_end_by(trim_start_by(s, f), f)
}

pub open spec fn space_fn() -> spec_fn(char) -> bool {
    |c: char| is_space(c)
}

pub open spec fn member_fn(set: Seq<char>) -> spec_fn(char) -> bool {
    |c: char| set.contains(c)
}

/// The text without white space at either end.
pub open spec fn trimmed(s: Seq<char>) -> Seq<char> {
    trim_by(s, space_fn())
}

/// A text whose ends do not match is left as it is.
pub proof fn lemma_trim_keeps(s: Seq<char>, f: spec_fn(char) -> bool)
    requires
        s.len() > 0 ==> !f(s[0]) && !f(s.last()),
    ensures
        trim_by(s, f) == s,
{
}

pub fn trim(s: &[char]) -> (r: &[char])
    ensures
        r@ == trimmed(s@),
{
    let mut i: usize = 0;
    proof {
        assert(s@.skip(0) =~= s@);
    }
    while i < s.len() && char_is_space(s[i])
        invariant
            i <= s@.len(),
            trim_start_by(s@, space_fn()) == trim_start_by(s@.skip(i as int), space_fn()),
        decreases s@.len() - i,
    {
        proof {
            assert(s@.skip(i as int).skip(1) =~= s@.skip(i + 1));
        }
        i += 1;
    }
    let mut n: usize = s.len();
    proof {
        assert(s@.subrange(i as int, n as int) =~= s@.skip(i as int));
    }
    while n > i && char_is_space(s[n - 1])
        invariant
            i <= n <= s@.len(),
            trimmed(s@) == trim_end_by(s@.subrange(i as int, n as int), space_fn()),
        decreases n,
    {
        proof {
            assert(s@.subrange(i as int, n as int).drop_last() =~= s@.subrange(i as int, n - 1));
        }
        n -= 1;
    }
    slice_subrange(s, i, n)
}

fn is_member(set: &[char], c: char) -> (r: bool)
    ensures
        r == set@.contains(c),
{
    proof {
        lemma_find_from(set@, c, 0);
    }
    find_char(set, c) < set.len()
}

pub fn trim_set<'a>(s: &'a [char], set: &[char]) -> (r: &'a [char])
    ensures
        r@ == trim_by(s@, member_fn(set@)),
{
    let mut i: usize = 0;
    proof {
        assert(s@.skip(0) =~= s@);
    }
    while i < s.len() && is_member(set, s[i])
        invariant
            i <= s@.len(),
            trim_start_by(s@, member_fn(set@)) == trim_start_by(
                s@.skip(i as int),
                member_fn(set@),
            ),
        decreases s@.len() - i,
    {
        proof {
            assert(s@.skip(i as int).skip(1) =~= s@.skip(i + 1));
        }
        i += 1;
    }
    let mut n: usize = s.len();
    proof {
        assert(s@.subrange(i as int, n as int) =~= s@.skip(i as int));
    }
    while n > i && is_member(set, s[n - 1])
        invariant
            i <= n <= s@.len(),
            trim_by(s@, member_fn(set@)) == trim_end_by(
                s@.subrange(i as int, n as int),
                member_fn(set@),
            ),
        decreases n,
    {
        proof {
            assert(s@.subrange(i as int, n as int).drop_last() =~= s@.subrange(i as int, n - 1));
        }
        n -= 1;
    }
    slice_subrange(s, i, n)
}

// ---------------------------------------------------------------------------
// Splitting and joining

/// The pieces between the separators; one more than there are separators.
pub open spec fn pieces(s: Seq<char>, sep: char) -> Seq<Seq<char>>
    decreases s.len(),
{
    let p = position(s, sep);
    if 0 <= p < s.len() {
        seq![s.take(p)] + pieces(s.skip(p + 1), sep)
    } else {
        seq![s]
    }
}

pub fn split<'a>(s: &'a [char], sep: char) -> (r: Vec<&'a [char]>)
    ensures
        views(r@) == pieces(s@, sep),
{
    let mut r: Vec<&'a [char]> = Vec::new();
    let mut rest: &'a [char] = s;
    proof {
        assert(views(r@) + pieces(rest@, sep) =~= pieces(s@, sep));
    }
    loop
        invariant_except_break
            pieces(s@, sep) == views(r@) + pieces(rest@, sep),
        ensures
            views(r@) == pieces(s@, sep),
        decreases rest@.len(),
    {
        proof {
            lemma_find_from(rest@, sep, 0);
        }
        let p: usize = find_char(rest, sep);
        let ghost before = r@;
        if p == rest.len() {
            r.push(rest);
            proof {
                assert(views(r@) =~= views(before) + seq![rest@]);
            }
            break;
        }
        let head = slice_subrange(rest, 0, p);
        r.push(head);
        proof {
            assert(views(r@) =~= views(before).push(rest@.take(p as int)));
            assert(views(before) + (seq![rest@.take(p as int)] + pieces(rest@.skip(p + 1), sep))
                =~= views(r@) + pieces(rest@.skip(p + 1), sep));
        }
        rest = slice_subrange(rest, p + 1, rest.len());
    }
    r
}

/// A line without the carriage return that stood before its line feed.
pub open spec fn without_cr(s: Seq<char>) -> Seq<char> {
    if s.len() > 0 && s.last() == '\r' {
        s.drop_last()
    } else {
        s
    }
}

/// The lines of a text: each ends with a line feed, which may follow a carriage
/// return; the last one may lack its end.
pub open spec fn lines(s: Seq<char>) -> Seq<Seq<char>>
    decreases s.len(),
{
    let p = position(s, '\n');
    if s.len() == 0 {
        Seq::empty()
    } else if 0 <= p < s.len() {
        seq![without_cr(s.take(p))] + lines(s.skip(p + 1))
    } else {
        seq![s]
    }
}

pub fn split_lines<'a>(s: &'a [char]) -> (r: Vec<&'a [char]>)
    ensures
        views(r@) == lines(s@),
{
    let mut r: Vec<&'a [char]> = Vec::new();
    let mut rest: &'a [char] = s;
    proof {
        assert(views(r@) + lines(rest@) =~= lines(s@));
    }
    while rest.len() > 0
        invariant
            lines(s@) == views(r@) + lines(rest@),
        decreases rest@.len(),
    {
        proof {
            lemma_find_from(rest@, '\n', 0);
        }
        let p: usize = find_char(rest, '\n');
        let ghost before = r@;
        if p == rest.len() {
            r.push(rest);
            let none: &'a [char] = slice_subrange(rest, p, p);
            proof {
                assert(views(r@) =~= views(before) + seq![rest@]);
                assert(views(r@) + lines(none@) =~= views(r@));
            }
            rest = none;
        } else {
            let n: usize = if p > 0 && rest[p - 1] == '\r' {
                p - 1
            } else {
                p
            };
            let head = slice_subrange(rest, 0, n);
            r.push(head);
            proof {
                assert(head@ =~= without_cr(rest@.take(p as int)));
                assert(views(r@) =~= views(before).push(head@));
                assert(views(before) + (seq![head@] + lines(rest@.skip(p + 1))) =~= views(r@)
                    + lines(rest@.skip(p + 1)));
            }
            rest = slice_subrange(rest, p + 1, rest.len());
        }
    }
    proof {
        assert(views(r@) + lines(rest@) =~= views(r@));
    }
    r
}

/// The first index from `i` on that holds white space; the length where there is none.
pub open spec fn word_end(s: Seq<char>, i: int) -> int
    decreases s.len() - i,
{
    if i < 0 || i >= s.len() || is_space(s[i]) {
        i
    } else {
        word_end(s, i + 1)
    }
}

pub proof fn lemma_word_end(s: Seq<char>, i: int)
    requires
        0 <= i <= s.len(),
    ensures
        i <= word_end(s, i) <= s.len(),
    decreases s.len() - i,
{
    if i < s.len() && !is_space(s[i]) {
        lemma_word_end(s, i + 1);
    }
}

/// The runs of characters other than white space, from index `i` on.
pub open spec fn words_from(s: Seq<char>, i: int) -> Seq<Seq<char>>
    decreases s.len() - i,
{
    if i < 0 || i >= s.len() {
        Seq::empty()
    } else if is_space(s[i]) {
        words_from(s, i + 1)
    } else {
        proof {
            lemma_word_end(s, i + 1);
        }
        let e = word_end(s, i + 1);
        seq![s.subrange(i, e)] + words_from(s, e)
    }
}

/// The runs of characters other than white space.
pub open spec fn words(s: Seq<char>) -> Seq<Seq<char>> {
    words_from(s, 0)
}

pub fn split_words<'a>(s: &'a [char]) -> (r: Vec<&'a [char]>)
    ensures
        views(r@) == words(s@),
{
    let mut r: Vec<&'a [char]> = Vec::new();
    let mut i: usize = 0;
    proof {
        assert(views(r@) + words_from(s@, 0) =~= words(s@));
    }
    while i < s.len()
        invariant
            i <= s@.len(),
            words(s@) == views(r@) + words_from(s@, i as int),
        decreases s@.len() - i,
    {
        if char_is_space(s[i]) {
            i += 1;
        } else {
            let start: usize = i;
            let ghost before = r@;
            i += 1;
            while i < s.len() && !char_is_space(s[i])
                invariant
                    start < i <= s@.len(),
                    word_end(s@, start + 1) == word_end(s@, i as int),
                decreases s@.len() - i,
            {
                i += 1;
            }
            let w = slice_subrange(s, start, i);
            r.push(w);
            proof {
                assert(views(r@) =~= views(before).push(w@));
                assert(views(before) + (seq![w@] + words_from(s@, i as int)) =~= views(r@)
                    + words_from(s@, i as int));
            }
        }
    }
    proof {
        assert(views(r@) + words_from(s@, i as int) =~= views(r@));
    }
    r
}

/// The parts in order, with the separator between any two.
pub open spec fn joined(parts: Seq<Seq<char>>, sep: Seq<char>) -> Seq<char>
    decreases parts.len(),
{
    if parts.len() == 0 {
        Seq::empty()
    } else if parts.len() == 1 {
        parts[0]
    } else {
        joined(parts.drop_last(), sep) + sep + parts.last()
    }
}

pub fn join(parts: &Vec<String>, sep: &str) -> (r: String)
    ensures
        r@ == joined(strings(parts@), sep@),
{
    let mut r = String::new();
    let mut i: usize = 0;
    proof {
        assert(strings(parts@).take(0) =~= Seq::<Seq<char>>::empty());
    }
    while i < parts.len()
        invariant
            i <= parts@.len(),
            r@ == joined(strings(parts@).take(i as int), sep@),
        decreases parts@.len() - i,
    {
        if i > 0 {
            r.append(sep);
        }
        r.append(parts[i].as_str());
        proof {
            let t = strings(parts@).take(i + 1);
            assert(t.drop_last() =~= strings(parts@).take(i as int));
            assert(t.last() == parts@[i as int]@);
            if i == 0 {
                assert(r@ =~= t[0]);
            }
        }
        i += 1;
    }
    proof {
        assert(strings(parts@).take(i as int) =~= strings(parts@));
    }
    r
}

/// The text with every `from` replaced by `to`.
pub open spec fn replaced(s: Seq<char>, from: char, to: Seq<char>) -> Seq<char>
    decreases s.len(),
{
    if s.len() == 0 {
        s
    } else {
        replaced(s.drop_last(), from, to) + (if s.last() == from {
            to
        } else {
            seq![s.last()]
        })
    }
}

pub fn replace(s: &[char], from: char, to: &str) -> (r: String)
    ensures
        r@ == replaced(s@, from, to@),
{
    let mut r = String::new();
    let mut i: usize = 0;
    while i < s.len()
        invariant
            i <= s@.len(),
            r@ == replaced(s@.take(i as int), from, to@),
        decreases s@.len() - i,
    {
        if s[i] == from {
            r.append(to);
        } else {
            r.push(s[i]);
        }
        proof {
            assert(s@.take(i + 1).drop_last() =~= s@.take(i as int));
            let base = replaced(s@.take(i as int), from, to@);
            assert(base.push(s@[i as int]) =~= base + seq![s@[i as int]]);
        }
        i += 1;
    }
    proof {
        assert(s@.take(i as int) =~= s@);
    }
    r
}

/// The text, followed by as many spaces as it takes to be `width` characters long.
pub open spec fn padded(s: Seq<char>, width: nat) -> Seq<char> {
    if s.len() >= width {
        s
    } else {
        s + Seq::new((width - s.len()) as nat, |i: int| ' ')
    }
}

pub fn pad(s: &str, width: usize) -> (r: String)
    ensures
        r@ == padded(s@, width as nat),
{
    let cs = to_chars(s);
    let mut r = from_chars(&cs);
    let mut n: usize = cs.len();
    while n < width
        invariant
            s@.len() <= n,
            n <= width || n == s@.len(),
            r@ == s@ + Seq::new((n - s@.len()) as nat, |i: int| ' '),
        decreases width - n,
    {
        r.push(' ');
        proof {
            assert(r@ =~= s@ + Seq::new((n + 1 - s@.len()) as nat, |i: int| ' '));
        }
        n += 1;
    }
    proof {
        assert(r@ =~= padded(s@, width as nat));
    }
    r
}

/// The first part of a joined text stands before the first separator.
pub proof fn lemma_joined_cons(parts: Seq<Seq<char>>, sep: Seq<char>)
    requires
        parts.len() >= 2,
    ensures
        joined(parts, sep) == parts[0] + sep + joined(parts.skip(1), sep),
    decreases parts.len(),
{
    let rest = parts.skip(1);
    if parts.len() == 2 {
        assert(parts.drop_last() =~= seq![parts[0]]);
        assert(rest =~= seq![parts[1]]);
        assert(joined(parts.drop_last(), sep) == parts[0]);
        assert(joined(rest, sep) == parts[1]);
        assert(joined(parts, sep) =~= parts[0] + sep + joined(rest, sep));
    } else {
        lemma_joined_cons(parts.drop_last(), sep);
        assert(parts.drop_last().skip(1) =~= rest.drop_last());
        assert(rest.last() == parts.last());
        assert(joined(rest, sep) == joined(rest.drop_last(), sep) + sep + rest.last());
        assert(joined(parts, sep) =~= parts[0] + sep + joined(rest, sep));
    }
}

/// Every character of a text has the property.
pub open spec fn all(s: Seq<char>, f: spec_fn(char) -> bool) -> bool {
    forall|i: int| 0 <= i < s.len() ==> f(#[trigger] s[i])
}

/// What holds of the characters of the parts and of the separator holds of those of
/// the joined text.
pub proof fn lemma_joined_all(parts: Seq<Seq<char>>, sep: Seq<char>, f: spec_fn(char) -> bool)
    requires
        all(sep, f),
        forall|i: int| 0 <= i < parts.len() ==> all(#[trigger] parts[i], f),
    ensures
        all(joined(parts, sep), f),
    decreases parts.len(),
{
    if parts.len() >= 2 {
        assert forall|i: int| 0 <= i < parts.drop_last().len() implies all(
            #[trigger] parts.drop_last()[i],
            f,
        ) by {
            assert(parts.drop_last()[i] == parts[i]);
        }
        lemma_joined_all(parts.drop_last(), sep, f);
        let a = joined(parts.drop_last(), sep);
        let b = parts[parts.len() - 1];
        let s = joined(parts, sep);
        assert forall|i: int| 0 <= i < s.len() implies f(#[trigger] s[i]) by {
            if i < a.len() {
                assert(s[i] == a[i]);
            } else if i < a.len() + sep.len() {
                assert(s[i] == sep[i - a.len()]);
            } else {
                assert(s[i] == b[i - a.len() - sep.len()]);
            }
        }
    }
}

/// Splitting a joined text gives the parts back, if none of them holds the separator.
pub proof fn lemma_pieces_joined(parts: Seq<Seq<char>>, sep: char)
    requires
        parts.len() > 0,
        forall|i: int| 0 <= i < parts.len() ==> !(#[trigger] parts[i]).contains(sep),
    ensures
        pieces(joined(parts, seq![sep]), sep) == parts,
    decreases parts.len(),
{
    let s = joined(parts, seq![sep]);
    if parts.len() == 1 {
        assert(s == parts[0]);
        assert forall|j: int| 0 <= j < s.len() implies s[j] != sep by {
            assert(parts[0].contains(s[j]));
        }
        lemma_find_at(s, sep, 0, s.len() as int);
        assert(pieces(s, sep) =~= parts);
    } else {
        lemma_joined_cons(parts, seq![sep]);
        let p = parts[0].len() as int;
        assert forall|j: int| 0 <= j < p implies s[j] != sep by {
            assert(s[j] == parts[0][j]);
            assert(parts[0].contains(parts[0][j]));
        }
        assert(s[p] == sep);
        lemma_find_at(s, sep, 0, p);
        assert(s.take(p) =~= parts[0]);
        assert(s.skip(p + 1) =~= joined(parts.skip(1), seq![sep]));
        assert forall|i: int| 0 <= i < parts.skip(1).len() implies !(#[trigger] parts.skip(1)[i]).contains(
            sep,
        ) by {
            assert(parts.skip(1)[i] == parts[i + 1]);
        }
        lemma_pieces_joined(parts.skip(1), sep);
        assert(pieces(s, sep) =~= seq![parts[0]] + parts.skip(1));
        assert(seq![parts[0]] + parts.skip(1) =~= parts);
    }
}

/// Every character but a separator stands in one of the pieces.
pub proof fn lemma_pieces_cover(s: Seq<char>, sep: char, i: int) -> (k: int)
    requires
        0 <= i < s.len(),
        s[i] != sep,
    ensures
        0 <= k < pieces(s, sep).len(),
        pieces(s, sep)[k].contains(s[i]),
    decreases s.len(),
{
    lemma_find_from(s, sep, 0);
    let p = position(s, sep);
    if p < s.len() {
        if i < p {
            assert(s.take(p)[i] == s[i]);
            assert(pieces(s, sep)[0] == s.take(p));
            0
        } else {
            let rest = s.skip(p + 1);
            assert(rest[i - p - 1] == s[i]);
            let k = lemma_pieces_cover(rest, sep, i - p - 1);
            assert(pieces(s, sep)[k + 1] == pieces(rest, sep)[k]);
            k + 1
        }
    } else {
        assert(pieces(s, sep)[0] == s);
        assert(s.contains(s[i]));
        0
    }
}

/// There is always at least one piece, and only one where no separator stands.
pub proof fn lemma_pieces_count(s: Seq<char>, sep: char)
    ensures
        pieces(s, sep).len() >= 1,
        !s.contains(sep) ==> pieces(s, sep) == seq![s],
{
    lemma_find_from(s, sep, 0);
    if !s.contains(sep) {
        let p = position(s, sep);
        if p < s.len() {
            assert(s.contains(s[p]));
        }
    }
}

// ---------------------------------------------------------------------------
// Laws

/// Case mapping changes the letters of ASCII alone, each to the letter that stands 32 places
/// before or behind it.
pub proof fn law_case_mapping(s: Seq<char>)
    ensures
        upper(s).len() == s.len(),
        lower(s).len() == s.len(),
        forall|i: int|
            0 <= i < s.len() ==> (#[trigger] upper(s)[i]) as int == (if 'a' <= s[i] <= 'z' {
                s[i] as int - 32
            } else {
                s[i] as int
            }),
        forall|i: int|
            0 <= i < s.len() ==> (#[trigger] lower(s)[i]) as int == (if 'A' <= s[i] <= 'Z' {
                s[i] as int + 32
            } else {
                s[i] as int
            }),
{
}

/// Of the characters of ASCII the blank and those from the tabulator to the carriage return are
/// white space, and no others.
pub proof fn law_white_space(c: char)
    requires
        c <= '\u{7f}',
    ensures
        is_space(c) <==> c == ' ' || c == '\t' || c == '\n' || c == '\u{b}' || c == '\u{c}' || c
            == '\r',
{
}

proof fn lemma_trim_start(a: Seq<char>, t: Seq<char>, f: spec_fn(char) -> bool)
    requires
        all(a, f),
        t.len() > 0 ==> !f(t[0]),
    ensures
        trim_start_by(a + t, f) == t,
    decreases a.len(),
{
    if a.len() > 0 {
        assert((a + t)[0] == a[0]);
        assert((a + t).skip(1) =~= a.skip(1) + t);
        lemma_trim_start(a.skip(1), t, f);
    } else {
        assert(a + t =~= t);
    }
}

proof fn lemma_trim_end(t: Seq<char>, b: Seq<char>, f: spec_fn(char) -> bool)
    requires
        all(b, f),
        t.len() > 0 ==> !f(t.last()),
    ensures
        trim_end_by(t + b, f) == t,
    decreases b.len(),
{
    if b.len() > 0 {
        assert((t + b).last() == b.last());
        assert((t + b).drop_last() =~= t + b.drop_last());
        lemma_trim_end(t, b.drop_last(), f);
    } else {
        assert(t + b =~= t);
    }
}

/// Trimming takes away the characters at either end that match, up to the first and from the
/// last one that does not.
pub proof fn law_trimmed(a: Seq<char>, t: Seq<char>, b: Seq<char>, f: spec_fn(char) -> bool)
    requires
        all(a, f),
        all(b, f),
        t.len() > 0 ==> !f(t[0]) && !f(t.last()),
    ensures
        trim_by(a + t + b, f) == t,
{
    if t.len() > 0 {
        assert(a + t + b =~= a + (t + b));
        assert((t + b)[0] == t[0]);
        lemma_trim_start(a, t + b, f);
        lemma_trim_end(t, b, f);
    } else {
        let s = a + t + b;
        let none = Seq::<char>::empty();
        assert forall|i: int| 0 <= i < s.len() implies f(#[trigger] s[i]) by {
            if i < a.len() {
                assert(s[i] == a[i]);
            } else {
                assert(s[i] == b[i - a.len()]);
            }
        }
        lemma_trim_start(s, none, f);
        assert(s + none =~= s);
        assert(t =~= none);
    }
}

/// White space around a text is trimmed away, and nothing else.
pub proof fn law_trimmed_space(a: Seq<char>, t: Seq<char>, b: Seq<char>)
    requires
        forall|i: int| 0 <= i < a.len() ==> is_space(#[trigger] a[i]),
        forall|i: int| 0 <= i < b.len() ==> is_space(#[trigger] b[i]),
        t.len() > 0 ==> !is_space(t[0]) && !is_space(t.last()),
    ensures
        trimmed(a + t + b) == t,
{
    law_trimmed(a, t, b, space_fn());
}

/// What stands before a line feed is a line, without the carriage return at its end, and what
/// follows makes further lines. A last line needs no line feed.
pub proof fn law_lines(a: Seq<char>, b: Seq<char>)
    requires
        !a.contains('\n'),
    ensures
        a.len() == 0 || a.last() != '\r' ==> lines(a + seq!['\n'] + b) == seq![a] + lines(b),
        lines(a + seq!['\r', '\n'] + b) == seq![a] + lines(b),
        a.len() > 0 ==> lines(a) == seq![a],
        lines(Seq::empty()) == Seq::<Seq<char>>::empty(),
{
    let s = a + seq!['\n'] + b;
    assert forall|j: int| 0 <= j < a.len() implies a[j] != '\n' by {
        assert(a.contains(a[j]));
    }
    assert forall|j: int| 0 <= j < a.len() implies s[j] != '\n' by {
        assert(s[j] == a[j]);
    }
    lemma_find_at(s, '\n', 0, a.len() as int);
    assert(s.take(a.len() as int) =~= a);
    assert(s.skip((a.len() + 1) as int) =~= b);
    let t = a + seq!['\r', '\n'] + b;
    assert forall|j: int| 0 <= j < a.len() + 1 implies t[j] != '\n' by {
        if j < a.len() {
            assert(t[j] == a[j]);
        }
    }
    lemma_find_at(t, '\n', 0, a.len() as int + 1);
    assert(t.take((a.len() + 1) as int) =~= a.push('\r'));
    assert(a.push('\r').drop_last() =~= a);
    assert(t.skip((a.len() + 2) as int) =~= b);
    lemma_find_at(a, '\n', 0, a.len() as int);
}

proof fn lemma_word_end_at(s: Seq<char>, i: int, e: int)
    requires
        0 <= i <= e <= s.len(),
        forall|j: int| i <= j < e ==> !is_space(#[trigger] s[j]),
        e < s.len() ==> is_space(s[e]),
    ensures
        word_end(s, i) == e,
    decreases e - i,
{
    if i < e {
        lemma_word_end_at(s, i + 1, e);
    }
}

proof fn lemma_word_end_is(s: Seq<char>, i: int)
    requires
        0 <= i <= s.len(),
    ensures
        i <= word_end(s, i) <= s.len(),
        forall|j: int| i <= j < word_end(s, i) ==> !is_space(#[trigger] s[j]),
        word_end(s, i) < s.len() ==> is_space(s[word_end(s, i)]),
    decreases s.len() - i,
{
    if i < s.len() && !is_space(s[i]) {
        lemma_word_end_is(s, i + 1);
    }
}

proof fn lemma_words_shift(a: Seq<char>, b: Seq<char>, i: int)
    requires
        0 <= i <= b.len(),
    ensures
        words_from(a + b, a.len() + i) == words_from(b, i),
    decreases b.len() - i,
{
    let s = a + b;
    let k = a.len() + i;
    if i < b.len() {
        assert(s[k] == b[i]);
        if is_space(b[i]) {
            lemma_words_shift(a, b, i + 1);
        } else {
            lemma_word_end_is(b, i + 1);
            let e = word_end(b, i + 1);
            assert forall|j: int| k + 1 <= j < a.len() + e implies !is_space(#[trigger] s[j]) by {
                assert(s[j] == b[j - a.len()]);
            }
            if e < b.len() {
                assert(s[a.len() + e] == b[e]);
            }
            lemma_word_end_at(s, k + 1, a.len() + e);
            assert(s.subrange(k, a.len() + e) =~= b.subrange(i, e));
            lemma_words_shift(a, b, e);
        }
    }
}

proof fn lemma_words_split(a: Seq<char>, c: char, b: Seq<char>, i: int)
    requires
        is_space(c),
        0 <= i <= a.len(),
    ensures
        words_from(a + seq![c] + b, i) == words_from(a, i) + words(b),
    decreases a.len() - i,
{
    let s = a + seq![c] + b;
    if i == a.len() {
        assert(s[i] == c);
        assert(a + seq![c] + b =~= (a + seq![c]) + b);
        lemma_words_shift(a + seq![c], b, 0);
        assert(words_from(a, i) + words(b) =~= words(b));
    } else {
        assert(s[i] == a[i]);
        if is_space(a[i]) {
            lemma_words_split(a, c, b, i + 1);
        } else {
            lemma_word_end_is(a, i + 1);
            let e = word_end(a, i + 1);
            assert forall|j: int| i + 1 <= j < e implies !is_space(#[trigger] s[j]) by {
                assert(s[j] == a[j]);
            }
            if e < a.len() {
                assert(s[e] == a[e]);
            } else {
                assert(s[e] == c);
            }
            lemma_word_end_at(s, i + 1, e);
            assert(s.subrange(i, e) =~= a.subrange(i, e));
            lemma_words_split(a, c, b, e);
            let w = a.subrange(i, e);
            assert(seq![w] + (words_from(a, e) + words(b)) =~= (seq![w] + words_from(a, e)) + words(
                b,
            ));
        }
    }
}

/// White space separates words, however much of it there is; a text without any is one word.
pub proof fn law_words(a: Seq<char>, c: char, b: Seq<char>)
    requires
        is_space(c),
    ensures
        words(a + seq![c] + b) == words(a) + words(b),
        words(Seq::empty()) == Seq::<Seq<char>>::empty(),
        a.len() > 0 && (forall|i: int| 0 <= i < a.len() ==> !is_space(#[trigger] a[i])) ==> words(a)
            == seq![a],
{
    lemma_words_split(a, c, b, 0);
    if a.len() > 0 && (forall|i: int| 0 <= i < a.len() ==> !is_space(#[trigger] a[i])) {
        lemma_word_end_at(a, 1, a.len() as int);
        assert(a.subrange(0, a.len() as int) =~= a);
        assert(seq![a] + words_from(a, a.len() as int) =~= seq![a]);
    }
}

/// What stands before the first separator is the first piece, and what follows it makes the
/// others.
pub proof fn law_pieces(a: Seq<char>, sep: char, b: Seq<char>)
    requires
        !a.contains(sep),
    ensures
        pieces(a + seq![sep] + b, sep) == seq![a] + pieces(b, sep),
        pieces(a, sep) == seq![a],
{
    let s = a + seq![sep] + b;
    assert forall|j: int| 0 <= j < a.len() implies s[j] != sep by {
        assert(a.contains(a[j]));
        assert(s[j] == a[j]);
    }
    lemma_find_at(s, sep, 0, a.len() as int);
    assert(s.take(a.len() as int) =~= a);
    assert(s.skip((a.len() + 1) as int) =~= b);
    lemma_pieces_count(a, sep);
}

/// Joined parts stand in order, with the separator between any two.
pub proof fn law_joined(parts: Seq<Seq<char>>, last: Seq<char>, sep: Seq<char>)
    ensures
        joined(Seq::empty(), sep) == Seq::<char>::empty(),
        joined(seq![last], sep) == last,
        parts.len() > 0 ==> joined(parts.push(last), sep) == joined(parts, sep) + sep + last,
{
    assert(parts.push(last).drop_last() =~= parts);
}

/// Replacing goes character by character.
pub proof fn law_replaced(a: Seq<char>, b: Seq<char>, from: char, to: Seq<char>, c: char)
    ensures
        replaced(a + b, from, to) == replaced(a, from, to) + replaced(b, from, to),
        replaced(seq![from], from, to) == to,
        c != from ==> replaced(seq![c], from, to) == seq![c],
    decreases b.len(),
{
    let none = Seq::<char>::empty();
    assert(seq![from].drop_last() =~= none && seq![c].drop_last() =~= none);
    assert(replaced(none, from, to) =~= none);
    assert(none + to =~= to && none + seq![c] =~= seq![c]);
    if b.len() == 0 {
        assert(a + b =~= a);
        assert(replaced(a, from, to) + replaced(b, from, to) =~= replaced(a, from, to));
    } else {
        assert((a + b).drop_last() =~= a + b.drop_last());
        law_replaced(a, b.drop_last(), from, to, c);
        assert(replaced(a + b, from, to) =~= replaced(a, from, to) + replaced(b, from, to));
    }
}

/// A padded text is the text and then blanks, up to the width; it is never cut.
pub proof fn law_padded(s: Seq<char>, width: nat)
    ensures
        padded(s, width).len() == (if s.len() < width {
            width
        } else {
            s.len()
        }),
        padded(s, width).take(s.len() as int) == s,
        forall|i: int| s.len() <= i < padded(s, width).len() ==> #[trigger] padded(s, width)[i] == ' ',
{
    assert(padded(s, width).take(s.len() as int) =~= s);
}

proof fn lemma_start_split(s: Seq<char>, f: spec_fn(char) -> bool) -> (a: Seq<char>)
    ensures
        s == a + trim_start_by(s, f),
        all(a, f),
        trim_start_by(s, f).len() > 0 ==> !f(trim_start_by(s, f)[0]),
    decreases s.len(),
{
    if s.len() > 0 && f(s[0]) {
        let a = lemma_start_split(s.skip(1), f);
        let t = trim_start_by(s, f);
        assert(t == trim_start_by(s.skip(1), f));
        assert(s =~= seq![s[0]] + s.skip(1));
        assert(seq![s[0]] + (a + t) =~= (seq![s[0]] + a) + t);
        seq![s[0]] + a
    } else {
        assert(s =~= Seq::<char>::empty() + s);
        Seq::empty()
    }
}

proof fn lemma_end_split(s: Seq<char>, f: spec_fn(char) -> bool) -> (b: Seq<char>)
    ensures
        s == trim_end_by(s, f) + b,
        all(b, f),
        trim_end_by(s, f).len() > 0 ==> !f(trim_end_by(s, f).last()),
    decreases s.len(),
{
    if s.len() > 0 && f(s.last()) {
        let b = lemma_end_split(s.drop_last(), f);
        let t = trim_end_by(s, f);
        assert(t == trim_end_by(s.drop_last(), f));
        assert(s =~= s.drop_last().push(s.last()));
        assert((t + b).push(s.last()) =~= t + b.push(s.last()));
        b.push(s.last())
    } else {
        assert(s =~= s + Seq::<char>::empty());
        Seq::empty()
    }
}

/// What is cut off a text by trimming is what matches: the text is what was cut off in front,
/// what is left, and what was cut off behind, and what is left neither begins nor ends with a
/// match.
pub proof fn law_trimmed_parts(s: Seq<char>, f: spec_fn(char) -> bool) -> (r: (
    Seq<char>,
    Seq<char>,
))
    ensures
        s == r.0 + trim_by(s, f) + r.1,
        forall|i: int| 0 <= i < r.0.len() ==> f(#[trigger] r.0[i]),
        forall|i: int| 0 <= i < r.1.len() ==> f(#[trigger] r.1[i]),
        trim_by(s, f).len() > 0 ==> !f(trim_by(s, f)[0]) && !f(trim_by(s, f).last()),
{
    let a = lemma_start_split(s, f);
    let t = trim_start_by(s, f);
    let b = lemma_end_split(t, f);
    assert(s =~= a + trim_by(s, f) + b);
    if trim_by(s, f).len() > 0 {
        assert(t[0] == trim_by(s, f)[0]);
    }
    (a, b)
}

pub proof fn lemma_words_of_space(a: Seq<char>, b: Seq<char>)
    requires
        forall|i: int| 0 <= i < a.len() ==> is_space(#[trigger] a[i]),
    ensures
        words(a + b) == words(b),
    decreases a.len(),
{
    if a.len() == 0 {
        assert(a + b =~= b);
    } else {
        let c = a[0];
        let none = Seq::<char>::empty();
        assert(a + b =~= none + seq![c] + (a.skip(1) + b));
        law_words(none, c, a.skip(1) + b);
        assert(words(none) + words(a.skip(1) + b) =~= words(a.skip(1) + b));
        assert forall|i: int| 0 <= i < a.skip(1).len() implies is_space(#[trigger] a.skip(1)[i]) by {
            assert(a.skip(1)[i] == a[i + 1]);
        }
        lemma_words_of_space(a.skip(1), b);
    }
}

/// Trimming leaves the words of a text as they are.
pub proof fn law_trimmed_words(s: Seq<char>)
    ensures
        words(trimmed(s)) == words(s),
        trimmed(s).len() > 0 <==> words(s).len() > 0,
        trimmed(s).len() > 0 ==> words(s)[0].len() > 0 && words(s)[0][0] == trimmed(s)[0],
{
    let (a, b) = law_trimmed_parts(s, space_fn());
    let t = trimmed(s);
    assert forall|i: int| 0 <= i < a.len() implies is_space(#[trigger] a[i]) by {
        assert(space_fn()(a[i]));
    }
    assert(s =~= a + (t + b));
    lemma_words_of_space(a, t + b);
    if b.len() == 0 {
        assert(t + b =~= t);
    } else {
        let c = b[0];
        assert(space_fn()(c));
        assert(t + b =~= t + seq![c] + b.skip(1));
        law_words(t, c, b.skip(1));
        let rest = b.skip(1);
        assert forall|i: int| 0 <= i < rest.len() implies is_space(#[trigger] rest[i]) by {
            assert(rest[i] == b[i + 1]);
            assert(space_fn()(b[i + 1]));
        }
        lemma_words_of_space(rest, Seq::empty());
        assert(rest + Seq::<char>::empty() =~= rest);
        assert(words(t) + words(rest) =~= words(t));
    }
    if t.len() > 0 {
        assert(!space_fn()(t[0]));
        lemma_word_end(t, 1);
        assert(words(t)[0] == t.subrange(0, word_end(t, 1)));
    }
}

/// The pieces of a text, joined by the separator, are the text.
pub proof fn law_pieces_make_the_text(s: Seq<char>, sep: char)
    ensures
        joined(pieces(s, sep), seq![sep]) == s,
        forall|i: int| 0 <= i < pieces(s, sep).len() ==> !(#[trigger] pieces(s, sep)[i]).contains(sep),
    decreases s.len(),
{
    lemma_find_from(s, sep, 0);
    let p = position(s, sep);
    if p < s.len() {
        let rest = s.skip(p + 1);
        law_pieces_make_the_text(rest, sep);
        lemma_pieces_count(rest, sep);
        let all = pieces(s, sep);
        lemma_joined_cons(all, seq![sep]);
        assert(all.skip(1) =~= pieces(rest, sep));
        assert(s =~= s.take(p) + seq![sep] + rest);
        assert forall|i: int| 0 <= i < all.len() implies !(#[trigger] all[i]).contains(sep) by {
            if i == 0 {
                if all[0].contains(sep) {
                    let j = choose|j: int| 0 <= j < all[0].len() && all[0][j] == sep;
                    assert(s[j] == sep);
                }
            } else {
                assert(all[i] == pieces(rest, sep)[i - 1]);
            }
        }
    } else {
        if s.contains(sep) {
            let j = choose|j: int| 0 <= j < s.len() && s[j] == sep;
            assert(s[j] != sep);
        }
    }
}

/// The words of two texts, one behind the other, where the second is empty or begins with white
/// space.
pub proof fn lemma_words_append(a: Seq<char>, b: Seq<char>)
    requires
        b.len() > 0 ==> is_space(b[0]),
    ensures
        words(a + b) == words(a) + words(b),
{
    let none = Seq::<char>::empty();
    if b.len() == 0 {
        assert(a + b =~= a);
        assert(b =~= none);
        law_words(none, ' ', none);
        assert(words(a) + words(b) =~= words(a));
    } else {
        let rest = b.skip(1);
        law_words(a, b[0], rest);
        law_words(none, b[0], rest);
        assert(a + seq![b[0]] + rest =~= a + b);
        assert(none + seq![b[0]] + rest =~= b);
        assert(words(none) + words(rest) =~= words(rest));
    }
}

} // verus!
