//! HTTP header fields, as the `http` crate keeps them.

use vstd::prelude::*;

use crate::text;

verus! {

/// The map of header fields; `header_entries` says what it holds.
#[verifier::external_type_specification]
#[verifier::external_body]
#[verifier::reject_recursive_types(T)]
pub struct ExHeaderMap<T>(http::HeaderMap<T>);

/// The value of a header field. It only occurs as the element type of the map.
#[verifier::external_type_specification]
#[verifier::external_body]
pub struct ExHeaderValue(http::HeaderValue);

// What a `HeaderMap` holds, in the order of `HeaderMap::iter`: the names, in lower case, and
// the bytes of the values.
pub uninterp spec fn header_entries(m: http::HeaderMap<http::HeaderValue>) -> Seq<
    (Seq<char>, Seq<u8>),
>;

/// The characters of field names.
pub open spec fn is_name_char(c: char) -> bool {
    ||| '0' <= c <= '9'
    ||| 'a' <= c <= 'z'
    ||| 'A' <= c <= 'Z'
    ||| c == '!' || c == '#' || c == '$' || c == '%' || c == '&' || c == '\''
    ||| c == '*' || c == '+' || c == '-' || c == '.'
    ||| c == '^' || c == '_' || c == '`' || c == '|' || c == '~'
}

/// Whether a text is a field name.
pub open spec fn is_name(s: Seq<char>) -> bool {
    &&& 0 < s.len() <= 65535
    &&& forall|i: int| 0 <= i < s.len() ==> is_name_char(#[trigger] s[i])
}

/// Whether a text is a field value: no control characters but the tabulator.
pub open spec fn is_value(s: Seq<char>) -> bool {
    forall|i: int| 0 <= i < s.len() ==> ((#[trigger] s[i]) >= ' ' && s[i] != '\u{7f}') || s[i] == '\t'
}

/// The index of the first field of a name; the length where there is none.
pub open spec fn index_of_name(e: Seq<(Seq<char>, Seq<u8>)>, name: Seq<char>, i: int) -> int
    decreases e.len() - i,
{
    if i < 0 || i >= e.len() {
        e.len() as int
    } else if e[i].0 == name {
        i
    } else {
        index_of_name(e, name, i + 1)
    }
}

/// The first value of a name.
pub open spec fn first_value(e: Seq<(Seq<char>, Seq<u8>)>, name: Seq<char>) -> Option<Seq<u8>> {
    let i = index_of_name(e, name, 0);
    if i < e.len() {
        Some(e[i].1)
    } else {
        None
    }
}

/// The fields of other names, in order.
pub open spec fn without_name(e: Seq<(Seq<char>, Seq<u8>)>, name: Seq<char>) -> Seq<
    (Seq<char>, Seq<u8>),
>
    decreases e.len(),
{
    if e.len() == 0 {
        e
    } else if e.last().0 == name {
        without_name(e.drop_last(), name)
    } else {
        without_name(e.drop_last(), name).push(e.last())
    }
}

/// The fields after one is set: it takes the place of the first of its name, and the
/// others of that name go; a new name comes last.
pub open spec fn with_field(e: Seq<(Seq<char>, Seq<u8>)>, name: Seq<char>, value: Seq<u8>) -> Seq<
    (Seq<char>, Seq<u8>),
> {
    let i = index_of_name(e, name, 0);
    if i < e.len() {
        e.take(i).push((name, value)) + without_name(e.skip(i + 1), name)
    } else {
        e.push((name, value))
    }
}

/// The number of fields up to which a map takes one more in any case.
pub const SURE_CAPACITY: usize = 6553;

/// What became of a field that was to be set.
#[derive(Clone, Copy, Debug, PartialEq, Eq, Structural)]
pub enum Insertion {
    Stored,
    Invalid,
    Full,
}

/// `HeaderMap::new`: a map without fields.
#[verifier::external_body]
pub(crate) fn new_headers() -> (r: http::HeaderMap<http::HeaderValue>)
    ensures
        header_entries(r) == Seq::<(Seq<char>, Seq<u8>)>::empty(),
{
    http::HeaderMap::new()
}

/// `HeaderMap::try_insert`, on what `HeaderName::from_bytes` and
/// `HeaderValue::from_str` make of the texts. The name is kept in lower case and the
/// value as UTF-8. A text that is no name or no value leaves the map as it is; so does
/// a map that cannot grow, which happens only beyond `SURE_CAPACITY` fields.
#[verifier::external_body]
pub(crate) fn insert_header(
    map: &mut http::HeaderMap<http::HeaderValue>,
    name: &str,
    value: &str,
) -> (r: Insertion)
    ensures
        match r {
            Insertion::Stored => {
                &&& is_name(name@)
                &&& is_value(value@)
                &&& header_entries(*final(map)) == with_field(
                    header_entries(*old(map)),
                    text::lower(name@),
                    vstd::utf8::encode_utf8(value@),
                )
            },
            Insertion::Invalid => {
                &&& !(is_name(name@) && is_value(value@))
                &&& header_entries(*final(map)) == header_entries(*old(map))
            },
            Insertion::Full => {
                &&& header_entries(*old(map)).len() > SURE_CAPACITY
                &&& header_entries(*final(map)) == header_entries(*old(map))
            },
        },
{
    match (http::HeaderName::from_bytes(name.as_bytes()), http::HeaderValue::from_str(value)) {
        (Ok(n), Ok(v)) => match map.try_insert(n, v) {
            Ok(_) => Insertion::Stored,
            Err(_) => Insertion::Full,
        },
        _ => Insertion::Invalid,
    }
}

/// `HeaderMap::get`: the first value of a field name, whatever the case of its letters.
#[verifier::external_body]
pub(crate) fn get_header(map: &http::HeaderMap<http::HeaderValue>, name: &str) -> (r: Option<
    Vec<u8>,
>)
    requires
        is_name(name@),
    ensures
        match r {
            Some(v) => first_value(header_entries(*map), text::lower(name@)) == Some(v@),
            None => first_value(header_entries(*map), text::lower(name@)) is None,
        },
{
    map.get(name).map(|v| v.as_bytes().to_vec())
}

pub open spec fn field_views(v: Seq<(String, Vec<u8>)>) -> Seq<(Seq<char>, Seq<u8>)> {
    v.map_values(|x: (String, Vec<u8>)| (x.0@, x.1@))
}

/// `HeaderMap::iter`: the fields in the order in which their names came, the values of
/// a name side by side.
#[verifier::external_body]
pub(crate) fn list_headers(map: &http::HeaderMap<http::HeaderValue>) -> (r: Vec<(String, Vec<u8>)>)
    ensures
        field_views(r@) == header_entries(*map),
{
    map.iter().map(|(n, v)| (n.as_str().to_string(), v.as_bytes().to_vec())).collect()
}

/// Whether a byte is a visible ASCII character, a space or the tabulator.
pub open spec fn is_visible(b: u8) -> bool {
    32 <= b < 127 || b == 9
}

/// The text of a value that is made of visible ASCII characters.
pub open spec fn visible_text(v: Seq<u8>) -> Option<Seq<char>> {
    if forall|i: int| 0 <= i < v.len() ==> is_visible(#[trigger] v[i]) {
        Some(Seq::new(v.len(), |i: int| v[i] as char))
    } else {
        None
    }
}

/// Reads a value that is made of visible ASCII characters.
pub fn value_text(v: &Vec<u8>) -> (r: Option<Vec<char>>)
    ensures
        match r {
            Some(t) => visible_text(v@) == Some(t@),
            None => visible_text(v@) is None,
        },
{
    let mut t: Vec<char> = Vec::new();
    let mut i: usize = 0;
    while i < v.len()
        invariant
            i <= v@.len(),
            t@ == Seq::new(i as nat, |j: int| v@[j] as char),
            forall|j: int| 0 <= j < i ==> is_visible(#[trigger] v@[j]),
        decreases v@.len() - i,
    {
        let b: u8 = v[i];
        if !((32 <= b && b < 127) || b == 9) {
            assert(!is_visible(v@[i as int]));
            return None;
        }
        t.push(b as char);
        proof {
            assert(t@ =~= Seq::new((i + 1) as nat, |j: int| v@[j] as char));
        }
        i += 1;
    }
    proof {
        assert(t@ =~= Seq::new(v@.len(), |j: int| v@[j] as char));
    }
    Some(t)
}

/// A field that was set is the one that is read, whatever the case of its name, and
/// the others are left alone.
pub proof fn law_set_field_is_read(
    e: Seq<(Seq<char>, Seq<u8>)>,
    name: Seq<char>,
    value: Seq<u8>,
    other: Seq<char>,
)
    ensures
        first_value(with_field(e, name, value), name) == Some(value),
        other != name ==> first_value(with_field(e, name, value), other) == first_value(e, other),
{
    lemma_index_of_name(e, name, 0);
    lemma_index_of_name(e, other, 0);
    let i = index_of_name(e, name, 0);
    let w = with_field(e, name, value);
    if i < e.len() {
        let rest = e.skip(i + 1);
        assert(w[i] == (name, value));
        assert forall|j: int| 0 <= j < i implies (#[trigger] w[j]) == e[j] by {}
        lemma_index_at(w, name, 0, i);
        if other != name {
            let k = index_of_name(e, other, 0);
            lemma_index_of_name(w, other, 0);
            if k < i {
                assert(w[k] == e[k]);
                lemma_index_at(w, other, 0, k);
            } else {
                lemma_without_name(rest, name, other);
                let u = without_name(rest, name);
                lemma_index_of_name(rest, other, 0);
                lemma_index_of_name(u, other, 0);
                let m = index_of_name(rest, other, 0);
                let n = index_of_name(u, other, 0);
                assert forall|j: int| 0 <= j < rest.len() implies (#[trigger] rest[j]) == e[i + 1
                    + j] by {}
                assert forall|j: int| i < j < w.len() implies (#[trigger] w[j]) == u[j - i - 1] by {}
                if m < rest.len() {
                    assert(rest[m] == e[i + 1 + m]);
                    assert forall|j: int| 0 <= j < i + 1 + m implies (#[trigger] e[j]).0 != other by {
                        if j > i {
                            assert(rest[j - i - 1] == e[j]);
                        }
                    }
                    lemma_index_at(e, other, 0, i + 1 + m);
                    assert(w[i + 1 + n] == u[n]);
                    assert forall|j: int| 0 <= j < i + 1 + n implies (#[trigger] w[j]).0 != other by {
                        if j > i {
                            assert(w[j] == u[j - i - 1]);
                        }
                    }
                    lemma_index_at(w, other, 0, i + 1 + n);
                } else {
                    assert forall|j: int| 0 <= j < e.len() implies (#[trigger] e[j]).0 != other by {
                        if j > i {
                            assert(rest[j - i - 1] == e[j]);
                        }
                    }
                    lemma_index_at(e, other, 0, e.len() as int);
                    assert forall|j: int| 0 <= j < w.len() implies (#[trigger] w[j]).0 != other by {
                        if j > i {
                            assert(w[j] == u[j - i - 1]);
                        }
                    }
                    lemma_index_at(w, other, 0, w.len() as int);
                }
            }
        }
    } else {
        assert(w[e.len() as int] == (name, value));
        assert forall|j: int| 0 <= j < e.len() implies (#[trigger] w[j]) == e[j] by {}
        lemma_index_at(w, name, 0, e.len() as int);
        if other != name {
            let k = index_of_name(e, other, 0);
            if k < e.len() {
                assert(w[k] == e[k]);
                lemma_index_at(w, other, 0, k);
            } else {
                lemma_index_at(w, other, 0, w.len() as int);
            }
        }
    }
}

pub proof fn lemma_index_of_name(e: Seq<(Seq<char>, Seq<u8>)>, name: Seq<char>, i: int)
    requires
        0 <= i <= e.len(),
    ensures
        i <= index_of_name(e, name, i) <= e.len(),
        index_of_name(e, name, i) < e.len() ==> e[index_of_name(e, name, i)].0 == name,
        forall|j: int| i <= j < index_of_name(e, name, i) ==> (#[trigger] e[j]).0 != name,
    decreases e.len() - i,
{
    if i < e.len() && e[i].0 != name {
        lemma_index_of_name(e, name, i + 1);
    }
}

proof fn lemma_index_at(e: Seq<(Seq<char>, Seq<u8>)>, name: Seq<char>, i: int, k: int)
    requires
        0 <= i <= k <= e.len(),
        k < e.len() ==> e[k].0 == name,
        forall|j: int| i <= j < k ==> (#[trigger] e[j]).0 != name,
    ensures
        index_of_name(e, name, i) == k,
{
    lemma_index_of_name(e, name, i);
    let q = index_of_name(e, name, i);
    if q < k {
        assert(e[q].0 != name);
    }
    if k < q {
        assert(e[k].0 != name);
    }
}

/// Leaving out one name does not change the first value of another.
proof fn lemma_without_name(e: Seq<(Seq<char>, Seq<u8>)>, name: Seq<char>, other: Seq<char>)
    requires
        other != name,
    ensures
        first_value(without_name(e, name), other) == first_value(e, other),
    decreases e.len(),
{
    if e.len() > 0 {
        let d = e.drop_last();
        let u = without_name(d, name);
        let w = without_name(e, name);
        lemma_without_name(d, name, other);
        lemma_index_of_name(d, other, 0);
        lemma_index_of_name(u, other, 0);
        let k = index_of_name(d, other, 0);
        let n = index_of_name(u, other, 0);
        assert forall|j: int| 0 <= j < d.len() implies (#[trigger] e[j]) == d[j] by {}
        if k < d.len() {
            lemma_index_at(e, other, 0, k);
            assert forall|j: int| 0 <= j < u.len() implies (#[trigger] w[j]) == u[j] by {}
            lemma_index_at(w, other, 0, n);
        } else {
            assert forall|j: int| 0 <= j < u.len() implies (#[trigger] w[j]) == u[j] by {}
            if e.last().0 == other {
                lemma_index_at(e, other, 0, d.len() as int);
                lemma_index_at(w, other, 0, u.len() as int);
            } else {
                lemma_index_at(e, other, 0, e.len() as int);
                lemma_index_at(w, other, 0, w.len() as int);
            }
        }
    }
}

/// The first value of a name is that of the first field that bears it; there is none exactly
/// where no field does.
pub proof fn law_first_value(e: Seq<(Seq<char>, Seq<u8>)>, name: Seq<char>, i: int)
    requires
        0 <= i < e.len(),
    ensures
        e[i].0 == name && (forall|j: int| 0 <= j < i ==> (#[trigger] e[j]).0 != name) ==> first_value(
            e,
            name,
        ) == Some(e[i].1),
        first_value(e, name) is None <==> forall|j: int|
            0 <= j < e.len() ==> (#[trigger] e[j]).0 != name,
{
    lemma_index_of_name(e, name, 0);
    let k = index_of_name(e, name, 0);
    if e[i].0 == name && (forall|j: int| 0 <= j < i ==> (#[trigger] e[j]).0 != name) {
        if k < i {
            assert(e[k].0 != name);
        }
        if i < k {
            assert(e[i].0 != name);
        }
    }
    if k < e.len() {
        assert(e[k].0 == name);
    }
}

/// A value is read as text where all of its bytes are visible characters of ASCII, blanks or
/// tabulators, byte by byte.
pub proof fn law_visible_text(v: Seq<u8>)
    ensures
        match visible_text(v) {
            Some(t) => t.len() == v.len() && forall|i: int|
                0 <= i < v.len() ==> (#[trigger] t[i]) as int == v[i] && (32 <= v[i] <= 126 || v[i]
                    == 9),
            None => exists|i: int|
                0 <= i < v.len() && !(32 <= (#[trigger] v[i]) <= 126 || v[i] == 9),
        },
{
    if visible_text(v) is None {
        let i = choose|i: int| 0 <= i < v.len() && !is_visible(#[trigger] v[i]);
        assert(!(32 <= v[i] <= 126 || v[i] == 9));
    } else {
        assert forall|i: int| 0 <= i < v.len() implies (32 <= (#[trigger] v[i]) <= 126 || v[i] == 9) by {
            assert(is_visible(v[i]));
        }
    }
}

/// The characters of field names are the visible ones of ASCII without the delimiters.
pub proof fn law_name_chars(c: char)
    ensures
        is_name_char(c) <==> ' ' < c <= '~' && c != '"' && c != '(' && c != ')' && c != ',' && c
            != '/' && c != ':' && c != ';' && c != '<' && c != '=' && c != '>' && c != '?' && c
            != '@' && c != '[' && c != '\\' && c != ']' && c != '{' && c != '}',
{
}

/// A field name has at least one character, only such characters, and at most 65535 of them.
pub proof fn law_names(s: Seq<char>, c: char)
    requires
        is_name_char(c),
    ensures
        !is_name(Seq::empty()),
        is_name(seq![c]),
        is_name(s) && s.len() < 65535 ==> is_name(s.push(c)),
        s.len() >= 65535 ==> !is_name(s.push(c)),
        forall|i: int| 0 <= i < s.len() && !is_name_char(#[trigger] s[i]) ==> !is_name(s),
{
}

/// A field value holds no control character but the tab.
pub proof fn law_values(s: Seq<char>, i: int)
    requires
        0 <= i < s.len(),
    ensures
        (s[i] < ' ' && s[i] != '\t' || s[i] == '\u{7f}') ==> !is_value(s),
        is_value(s) ==> is_value(s.take(i)) && is_value(s.skip(i)),
        is_value(Seq::empty()),
        is_value(seq!['\t', ' ', '~']),
{
    if is_value(s) {
        assert forall|j: int| 0 <= j < s.take(i).len() implies ((#[trigger] s.take(i)[j]) >= ' '
            && s.take(i)[j] != '\u{7f}') || s.take(i)[j] == '\t' by {
            assert(s.take(i)[j] == s[j]);
        }
        assert forall|j: int| 0 <= j < s.skip(i).len() implies ((#[trigger] s.skip(i)[j]) >= ' '
            && s.skip(i)[j] != '\u{7f}') || s.skip(i)[j] == '\t' by {
            assert(s.skip(i)[j] == s[i + j]);
        }
    }
}

} // verus!
