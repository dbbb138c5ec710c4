//! The lexical layer of the configuration grammar: character classes,
//! whitespace, keys and values, booleans, numbers, lists and headers.
//!
//! Every parser works on the characters `s` of the input and a position
//! `p` in it. A spec function gives what the parser yields, `None` where
//! it fails, and `Some((q, x))` where it reads `s[p..q]` as `x`.
use vstd::prelude::*;
use crate::text::{has_tag, string_of, tag_at};

verus! {

broadcast use vstd::string::group_string_axioms;

/// The classes of characters that the grammar scans for.
#[derive(Clone, Copy, PartialEq, Eq, Debug)]
pub enum CharClass {
    /// `' '`, `'\t'`, `'\r'` or `'\n'`.
    Space,
    /// An ASCII letter or digit, or one of `. _ / -`.
    Name,
    /// An ASCII letter or digit, or one of `. _ / - " :` and space.
    Value,
    /// An ASCII digit.
    Digit,
    /// Anything but a double quote.
    NotQuote,
}

/// An ASCII digit.
pub open spec fn is_ascii_digit(c: char) -> bool {
    '0' <= c <= '9'
}

/// An ASCII letter or digit.
pub open spec fn is_ascii_alnum(c: char) -> bool {
    is_ascii_digit(c) || ('a' <= c <= 'z') || ('A' <= c <= 'Z')
}

/// Whether `c` belongs to class `k`.
pub open spec fn in_class(k: CharClass, c: char) -> bool {
    match k {
        CharClass::Space => c == ' ' || c == '\t' || c == '\r' || c == '\n',
        CharClass::Name => is_ascii_alnum(c) || c == '.' || c == '_' || c == '/' || c == '-',
        CharClass::Value => is_ascii_alnum(c) || c == '.' || c == '_' || c == '/' || c == ' '
            || c == '-' || c == '"' || c == ':',
        CharClass::Digit => is_ascii_digit(c),
        CharClass::NotQuote => c != '"',
    }
}

/// Decides whether `c` belongs to class `k`.
pub fn class_has(k: CharClass, c: char) -> (b: bool)
    ensures
        b == in_class(k, c),
{
    let alnum = ('0' <= c && c <= '9') || ('a' <= c && c <= 'z') || ('A' <= c && c <= 'Z');
    match k {
        CharClass::Space => c == ' ' || c == '\t' || c == '\r' || c == '\n',
        CharClass::Name => alnum || c == '.' || c == '_' || c == '/' || c == '-',
        CharClass::Value => alnum || c == '.' || c == '_' || c == '/' || c == ' ' || c == '-'
            || c == '"' || c == ':',
        CharClass::Digit => '0' <= c && c <= '9',
        CharClass::NotQuote => c != '"',
    }
}

/// The end of the longest run of class `k` that starts at `p`.
pub open spec fn class_end(s: Seq<char>, p: int, k: CharClass) -> int
    decreases s.len() - p,
{
    if 0 <= p < s.len() && in_class(k, s[p]) {
        class_end(s, p + 1, k)
    } else {
        p
    }
}

/// The run that `class_end` ends lies in the class and is maximal.
pub proof fn lemma_class_end(s: Seq<char>, p: int, k: CharClass)
    requires
        0 <= p <= s.len(),
    ensures
        p <= class_end(s, p, k) <= s.len(),
        forall|i: int| p <= i < class_end(s, p, k) ==> in_class(k, #[trigger] s[i]),
        class_end(s, p, k) < s.len() ==> !in_class(k, s[class_end(s, p, k)]),
    decreases s.len() - p,
{
    if p < s.len() && in_class(k, s[p]) {
        lemma_class_end(s, p + 1, k);
    }
}

/// Skips the run of class `k` at `p`.
pub fn scan(v: &Vec<char>, p: usize, k: CharClass) -> (q: usize)
    requires
        p <= v@.len(),
    ensures
        q == class_end(v@, p as int, k),
        p <= q <= v@.len(),
{
    proof {
        lemma_class_end(v@, p as int, k);
    }
    let mut i = p;
    while i < v.len() && class_has(k, v[i])
        invariant
            p <= i <= v@.len(),
            class_end(v@, i as int, k) == class_end(v@, p as int, k),
        decreases v@.len() - i,
    {
        i = i + 1;
    }
    i
}

/// The end of the whitespace at `p`.
pub open spec fn ws_end(s: Seq<char>, p: int) -> int {
    class_end(s, p, CharClass::Space)
}

/// A non-empty run of class `k` at `p`.
pub open spec fn spec_take1(s: Seq<char>, p: int, k: CharClass) -> Option<(int, Seq<char>)> {
    let q = class_end(s, p, k);
    if q > p {
        Some((q, s.subrange(p, q)))
    } else {
        None
    }
}

/// Whether `c` stands at position `p`.
pub open spec fn char_at(s: Seq<char>, p: int, c: char) -> bool {
    0 <= p < s.len() && s[p] == c
}

/// Checks whether `c` stands at position `p`.
pub fn is_char_at(v: &Vec<char>, p: usize, c: char) -> (b: bool)
    ensures
        b == char_at(v@, p as int, c),
        b ==> p < v.len(),
{
    p < v.len() && v[p] == c
}

/// The result of a parser that yields a string, taken by its view.
pub open spec fn str_result(r: Option<(usize, String)>) -> Option<(int, Seq<char>)> {
    match r {
        Some((q, x)) => Some((q as int, x@)),
        None => None,
    }
}

/// A result whose position is taken as an integer.
pub open spec fn lift<T>(r: Option<(usize, T)>) -> Option<(int, T)> {
    match r {
        Some((q, x)) => Some((q as int, x)),
        None => None,
    }
}

/// A position taken as an integer.
pub open spec fn pos_result(r: Option<usize>) -> Option<int> {
    match r {
        Some(q) => Some(q as int),
        None => None,
    }
}

/// Reads a non-empty run of class `k` at `p` as a string.
pub fn take1(v: &Vec<char>, p: usize, k: CharClass) -> (r: Option<(usize, String)>)
    requires
        p <= v@.len(),
    ensures
        str_result(r) == spec_take1(v@, p as int, k),
        r matches Some((q, _)) ==> p < q <= v@.len(),
{
    let q = scan(v, p, k);
    if q > p {
        Some((q, string_of(v, p, q)))
    } else {
        None
    }
}

/// The position after `key = ` at `p`, with whitespace allowed around
/// the key and the equals sign.
pub open spec fn spec_keyed(s: Seq<char>, p: int, key: Seq<char>) -> Option<int> {
    let a = ws_end(s, p);
    if tag_at(s, a, key) {
        let b = ws_end(s, a + key.len());
        if char_at(s, b, '=') {
            Some(ws_end(s, b + 1))
        } else {
            None
        }
    } else {
        None
    }
}

/// Reads `key = ` at `p`.
pub fn keyed(v: &Vec<char>, p: usize, key: &str) -> (r: Option<usize>)
    requires
        p <= v@.len(),
    ensures
        pos_result(r) == spec_keyed(v@, p as int, key@),
        r matches Some(q) ==> p < q <= v@.len(),
{
    let a = scan(v, p, CharClass::Space);
    if has_tag(v, a, key) {
        assert(a + key@.len() <= v.len());
        let b = scan(v, a + key.unicode_len(), CharClass::Space);
        if is_char_at(v, b, '=') {
            assert(b + 1 <= v.len());
            let q = scan(v, b + 1, CharClass::Space);
            Some(q)
        } else {
            None
        }
    } else {
        None
    }
}

/// `key = value`, the value being a run of value characters.
pub open spec fn spec_kv_value(s: Seq<char>, p: int, key: Seq<char>) -> Option<(int, Seq<char>)> {
    match spec_keyed(s, p, key) {
        Some(q) => spec_take1(s, q, CharClass::Value),
        None => None,
    }
}

/// Reads `key = value` at `p`.
pub fn kv_value(v: &Vec<char>, p: usize, key: &str) -> (r: Option<(usize, String)>)
    requires
        p <= v@.len(),
    ensures
        str_result(r) == spec_kv_value(v@, p as int, key@),
        r matches Some((q, _)) ==> p < q <= v@.len(),
{
    match keyed(v, p, key) {
        Some(q) => take1(v, q, CharClass::Value),
        None => None,
    }
}

/// `true` or `false` at `p`.
pub open spec fn spec_bool_at(s: Seq<char>, p: int) -> Option<(int, bool)> {
    if tag_at(s, p, "true"@) {
        Some((p + "true"@.len(), true))
    } else if tag_at(s, p, "false"@) {
        Some((p + "false"@.len(), false))
    } else {
        None
    }
}

/// Reads `true` or `false` at `p`.
pub fn parse_bool(v: &Vec<char>, p: usize) -> (r: Option<(usize, bool)>)
    requires
        p <= v@.len(),
    ensures
        lift(r) == spec_bool_at(v@, p as int),
        r matches Some((q, _)) ==> p <= q <= v@.len(),
{
    if has_tag(v, p, "true") {
        assert(p + "true"@.len() <= v.len());
        Some((p + "true".unicode_len(), true))
    } else if has_tag(v, p, "false") {
        assert(p + "false"@.len() <= v.len());
        Some((p + "false".unicode_len(), false))
    } else {
        None
    }
}

/// `key = true` or `key = false` at `p`.
pub open spec fn spec_kv_bool(s: Seq<char>, p: int, key: Seq<char>) -> Option<(int, bool)> {
    match spec_keyed(s, p, key) {
        Some(q) => spec_bool_at(s, q),
        None => None,
    }
}

/// Reads `key = true` or `key = false` at `p`.
pub fn kv_bool(v: &Vec<char>, p: usize, key: &str) -> (r: Option<(usize, bool)>)
    requires
        p <= v@.len(),
    ensures
        lift(r) == spec_kv_bool(v@, p as int, key@),
        r matches Some((q, _)) ==> p < q <= v@.len(),
{
    match keyed(v, p, key) {
        Some(q) => parse_bool(v, q),
        None => None,
    }
}

/// The number that a string of decimal digits writes.
pub open spec fn digits_value(d: Seq<char>) -> nat
    decreases d.len(),
{
    if d.len() == 0 {
        0
    } else {
        10 * digits_value(d.drop_last()) + ((d.last() as int - '0' as int) as nat)
    }
}

/// A longer string of digits writes a number at least as large.
pub proof fn lemma_digits_value_grows(d: Seq<char>, i: int, j: int)
    requires
        0 <= i <= j <= d.len(),
        forall|k: int| 0 <= k < d.len() ==> is_ascii_digit(#[trigger] d[k]),
    ensures
        digits_value(d.subrange(0, i)) <= digits_value(d.subrange(0, j)),
    decreases j - i,
{
    if i < j {
        lemma_digits_value_grows(d, i, j - 1);
        assert(d.subrange(0, j).drop_last() =~= d.subrange(0, j - 1));
    }
}

/// A non-empty run of digits at `p` that writes a number that fits in `u64`.
pub open spec fn spec_u64_at(s: Seq<char>, p: int) -> Option<(int, u64)> {
    let q = class_end(s, p, CharClass::Digit);
    if q > p && digits_value(s.subrange(p, q)) <= u64::MAX {
        Some((q, digits_value(s.subrange(p, q)) as u64))
    } else {
        None
    }
}

/// Reads a run of digits at `p` as a `u64`, failing where it overflows.
pub fn parse_u64(v: &Vec<char>, p: usize) -> (r: Option<(usize, u64)>)
    requires
        p <= v@.len(),
    ensures
        lift(r) == spec_u64_at(v@, p as int),
        r matches Some((q, _)) ==> p < q <= v@.len(),
{
    let q = scan(v, p, CharClass::Digit);
    if q == p {
        return None;
    }
    let ghost d = v@.subrange(p as int, q as int);
    proof {
        lemma_class_end(v@, p as int, CharClass::Digit);
        assert forall|k: int| 0 <= k < d.len() implies is_ascii_digit(#[trigger] d[k]) by {
            assert(d[k] == v@[p + k]);
        }
    }
    let mut acc: u64 = 0;
    let mut i = p;
    while i < q
        invariant
            p <= i <= q <= v@.len(),
            q > p,
            q == class_end(v@, p as int, CharClass::Digit),
            d == v@.subrange(p as int, q as int),
            forall|k: int| 0 <= k < d.len() ==> is_ascii_digit(#[trigger] d[k]),
            acc == digits_value(d.subrange(0, i - p)),
        decreases q - i,
    {
        let c = v[i];
        assert(c == d[i - p]);
        let digit = (c as u32 - '0' as u32) as u64;
        assert(d.subrange(0, i - p + 1).drop_last() =~= d.subrange(0, i - p));
        assert(d.subrange(0, i - p + 1).last() == c);
        assert(digits_value(d.subrange(0, i - p + 1)) == 10 * acc + digit);
        let m = acc.checked_mul(10);
        match m {
            Some(m) => {
                let t = m.checked_add(digit);
                match t {
                    Some(t) => {
                        acc = t;
                    },
                    None => {
                        proof {
                            lemma_digits_value_grows(d, i - p + 1, d.len() as int);
                            assert(d.subrange(0, d.len() as int) =~= d);
                        }
                        return None;
                    },
                }
            },
            None => {
                proof {
                    lemma_digits_value_grows(d, i - p + 1, d.len() as int);
                    assert(d.subrange(0, d.len() as int) =~= d);
                }
                return None;
            },
        }
        i = i + 1;
    }
    assert(d.subrange(0, q - p) =~= d);
    Some((q, acc))
}

/// `key = digits` at `p`.
pub open spec fn spec_kv_u64(s: Seq<char>, p: int, key: Seq<char>) -> Option<(int, u64)> {
    match spec_keyed(s, p, key) {
        Some(q) => spec_u64_at(s, q),
        None => None,
    }
}

/// Reads `key = digits` at `p`.
pub fn kv_u64(v: &Vec<char>, p: usize, key: &str) -> (r: Option<(usize, u64)>)
    requires
        p <= v@.len(),
    ensures
        lift(r) == spec_kv_u64(v@, p as int, key@),
        r matches Some((q, _)) ==> p < q <= v@.len(),
{
    match keyed(v, p, key) {
        Some(q) => parse_u64(v, q),
        None => None,
    }
}

/// A comma with whitespace around it, at `p`.
pub open spec fn spec_comma(s: Seq<char>, p: int) -> Option<int> {
    let a = ws_end(s, p);
    if char_at(s, a, ',') {
        Some(ws_end(s, a + 1))
    } else {
        None
    }
}

/// Reads a comma with whitespace around it at `p`.
pub fn comma(v: &Vec<char>, p: usize) -> (r: Option<usize>)
    requires
        p <= v@.len(),
    ensures
        pos_result(r) == spec_comma(v@, p as int),
        r matches Some(q) ==> p < q <= v@.len(),
{
    let a = scan(v, p, CharClass::Space);
    if is_char_at(v, a, ',') {
        Some(scan(v, a + 1, CharClass::Space))
    } else {
        None
    }
}

/// Further values of a comma-separated list, after the ones in `acc`.
/// A comma that no value follows is left unread.
pub open spec fn spec_values_rest(s: Seq<char>, p: int, acc: Seq<Seq<char>>) -> (int, Seq<Seq<char>>)
    decreases s.len() - p,
{
    match spec_comma(s, p) {
        Some(b) => match spec_take1(s, b, CharClass::Value) {
            Some((q, x)) => if p < q <= s.len() {
                spec_values_rest(s, q, acc.push(x))
            } else {
                (p, acc)
            },
            None => (p, acc),
        },
        None => (p, acc),
    }
}

/// A comma-separated list of values, possibly empty.
pub open spec fn spec_values(s: Seq<char>, p: int) -> (int, Seq<Seq<char>>) {
    match spec_take1(s, p, CharClass::Value) {
        Some((q, x)) => spec_values_rest(s, q, seq![x]),
        None => (p, Seq::empty()),
    }
}

/// A list of strings, each taken by its view.
pub open spec fn strings_view(v: Seq<String>) -> Seq<Seq<char>> {
    v.map_values(|x: String| x@)
}

/// Reads a comma-separated list of values at `p`.
pub fn values(v: &Vec<char>, p: usize) -> (r: (usize, Vec<String>))
    requires
        p <= v@.len(),
    ensures
        spec_values(v@, p as int) == (r.0 as int, strings_view(r.1@)),
        p <= r.0 <= v@.len(),
{
    let mut items: Vec<String> = Vec::new();
    let mut i = p;
    match take1(v, p, CharClass::Value) {
        Some((q, x)) => {
            items.push(x);
            i = q;
            assert(strings_view(items@) =~= seq![items@[0]@]);
        },
        None => {
            assert(strings_view(items@) =~= Seq::<Seq<char>>::empty());
            return (p, items);
        },
    }
    let ghost acc0 = strings_view(items@);
    loop
        invariant
            p < i <= v@.len(),
            spec_values(v@, p as int) == spec_values_rest(v@, i as int, strings_view(items@)),
        decreases v@.len() - i,
    {
        match comma(v, i) {
            Some(b) => match take1(v, b, CharClass::Value) {
                Some((q, x)) => {
                    let ghost old_items = items@;
                    items.push(x);
                    assert(strings_view(items@) =~= strings_view(old_items).push(x@));
                    i = q;
                },
                None => {
                    return (i, items);
                },
            },
            None => {
                return (i, items);
            },
        }
    }
}

/// A list of values in square brackets, with whitespace allowed before
/// each bracket.
pub open spec fn spec_vector(s: Seq<char>, p: int) -> Option<(int, Seq<Seq<char>>)> {
    let a = ws_end(s, p);
    if char_at(s, a, '[') {
        let (e, items) = spec_values(s, a + 1);
        let c = ws_end(s, e);
        if char_at(s, c, ']') {
            Some((c + 1, items))
        } else {
            None
        }
    } else {
        None
    }
}

/// Reads a list of values in square brackets at `p`.
pub fn parse_vector(v: &Vec<char>, p: usize) -> (r: Option<(usize, Vec<String>)>)
    requires
        p <= v@.len(),
    ensures
        match r {
            Some((q, items)) => spec_vector(v@, p as int) == Some((q as int, strings_view(items@)))
                && p < q <= v@.len(),
            None => spec_vector(v@, p as int) is None,
        },
{
    let a = scan(v, p, CharClass::Space);
    if is_char_at(v, a, '[') {
        let (e, items) = values(v, a + 1);
        let c = scan(v, e, CharClass::Space);
        if is_char_at(v, c, ']') {
            Some((c + 1, items))
        } else {
            None
        }
    } else {
        None
    }
}

/// A header key or value: text in double quotes, or a name.
pub open spec fn spec_header_key(s: Seq<char>, p: int) -> Option<(int, Seq<char>)> {
    if char_at(s, p, '"') {
        let q = class_end(s, p + 1, CharClass::NotQuote);
        if q > p + 1 && q < s.len() {
            Some((q + 1, s.subrange(p + 1, q)))
        } else {
            None
        }
    } else {
        spec_take1(s, p, CharClass::Name)
    }
}

/// Reads a header key or value at `p`.
pub fn parse_header_key(v: &Vec<char>, p: usize) -> (r: Option<(usize, String)>)
    requires
        p <= v@.len(),
    ensures
        str_result(r) == spec_header_key(v@, p as int),
        r matches Some((q, _)) ==> p < q <= v@.len(),
{
    if is_char_at(v, p, '"') {
        let q = scan(v, p + 1, CharClass::NotQuote);
        if q > p + 1 && q < v.len() {
            Some((q + 1, string_of(v, p + 1, q)))
        } else {
            None
        }
    } else {
        take1(v, p, CharClass::Name)
    }
}

/// A header: key, then `:` or `,` with whitespace around it, then value.
pub open spec fn spec_header(s: Seq<char>, p: int) -> Option<(int, (Seq<char>, Seq<char>))> {
    match spec_header_key(s, p) {
        Some((q1, k)) => {
            let a = ws_end(s, q1);
            if char_at(s, a, ':') || char_at(s, a, ',') {
                match spec_header_key(s, ws_end(s, a + 1)) {
                    Some((q2, x)) => Some((q2, (k, x))),
                    None => None,
                }
            } else {
                None
            }
        },
        None => None,
    }
}

/// A pair of strings taken by its view.
pub open spec fn pair_view(h: (String, String)) -> (Seq<char>, Seq<char>) {
    (h.0@, h.1@)
}

/// A list of pairs of strings, each taken by its view.
pub open spec fn pairs_view(v: Seq<(String, String)>) -> Seq<(Seq<char>, Seq<char>)> {
    v.map_values(|h: (String, String)| pair_view(h))
}

/// The result of a header parser, taken by its view.
pub open spec fn pair_result(r: Option<(usize, (String, String))>) -> Option<(int, (Seq<char>, Seq<char>))> {
    match r {
        Some((q, h)) => Some((q as int, pair_view(h))),
        None => None,
    }
}

/// Reads a header at `p`.
pub fn parse_header(v: &Vec<char>, p: usize) -> (r: Option<(usize, (String, String))>)
    requires
        p <= v@.len(),
    ensures
        pair_result(r) == spec_header(v@, p as int),
        r matches Some((q, _)) ==> p < q <= v@.len(),
{
    match parse_header_key(v, p) {
        Some((q1, k)) => {
            let a = scan(v, q1, CharClass::Space);
            if is_char_at(v, a, ':') || is_char_at(v, a, ',') {
                let b = scan(v, a + 1, CharClass::Space);
                match parse_header_key(v, b) {
                    Some((q2, x)) => Some((q2, (k, x))),
                    None => None,
                }
            } else {
                None
            }
        },
        None => None,
    }
}

/// A header in square brackets.
pub open spec fn spec_bracket_header(s: Seq<char>, p: int) -> Option<(int, (Seq<char>, Seq<char>))> {
    if char_at(s, p, '[') {
        match spec_header(s, p + 1) {
            Some((q, h)) => if char_at(s, q, ']') {
                Some((q + 1, h))
            } else {
                None
            },
            None => None,
        }
    } else {
        None
    }
}

/// Reads a header in square brackets at `p`.
pub fn bracket_header(v: &Vec<char>, p: usize) -> (r: Option<(usize, (String, String))>)
    requires
        p <= v@.len(),
    ensures
        pair_result(r) == spec_bracket_header(v@, p as int),
        r matches Some((q, _)) ==> p < q <= v@.len(),
{
    if is_char_at(v, p, '[') {
        match parse_header(v, p + 1) {
            Some((q, h)) => if is_char_at(v, q, ']') {
                Some((q + 1, h))
            } else {
                None
            },
            None => None,
        }
    } else {
        None
    }
}

/// Further bracketed headers of a comma-separated list, after those in `acc`.
pub open spec fn spec_header_list_rest(
    s: Seq<char>,
    p: int,
    acc: Seq<(Seq<char>, Seq<char>)>,
) -> (int, Seq<(Seq<char>, Seq<char>)>)
    decreases s.len() - p,
{
    match spec_comma(s, p) {
        Some(b) => match spec_bracket_header(s, b) {
            Some((q, h)) => if p < q <= s.len() {
                spec_header_list_rest(s, q, acc.push(h))
            } else {
                (p, acc)
            },
            None => (p, acc),
        },
        None => (p, acc),
    }
}

/// A comma-separated list of bracketed headers, possibly empty.
pub open spec fn spec_header_list(s: Seq<char>, p: int) -> (int, Seq<(Seq<char>, Seq<char>)>) {
    match spec_bracket_header(s, p) {
        Some((q, h)) => spec_header_list_rest(s, q, seq![h]),
        None => (p, Seq::empty()),
    }
}

/// Reads a comma-separated list of bracketed headers at `p`.
pub fn header_list(v: &Vec<char>, p: usize) -> (r: (usize, Vec<(String, String)>))
    requires
        p <= v@.len(),
    ensures
        spec_header_list(v@, p as int) == (r.0 as int, pairs_view(r.1@)),
        p <= r.0 <= v@.len(),
{
    let mut items: Vec<(String, String)> = Vec::new();
    let mut i = p;
    match bracket_header(v, p) {
        Some((q, h)) => {
            items.push(h);
            i = q;
            assert(pairs_view(items@) =~= seq![pair_view(items@[0])]);
        },
        None => {
            assert(pairs_view(items@) =~= Seq::<(Seq<char>, Seq<char>)>::empty());
            return (p, items);
        },
    }
    loop
        invariant
            p < i <= v@.len(),
            spec_header_list(v@, p as int) == spec_header_list_rest(v@, i as int, pairs_view(items@)),
        decreases v@.len() - i,
    {
        match comma(v, i) {
            Some(b) => match bracket_header(v, b) {
                Some((q, h)) => {
                    let ghost old_items = items@;
                    let ghost hv = pair_view(h);
                    items.push(h);
                    assert(pairs_view(items@) =~= pairs_view(old_items).push(hv));
                    i = q;
                },
                None => {
                    return (i, items);
                },
            },
            None => {
                return (i, items);
            },
        }
    }
}

/// A list of bracketed headers inside `[[` and `]]`, with whitespace
/// allowed before each of these.
pub open spec fn spec_headers(s: Seq<char>, p: int) -> Option<(int, Seq<(Seq<char>, Seq<char>)>)> {
    let a = ws_end(s, p);
    if char_at(s, a, '[') && char_at(s, a + 1, '[') {
        let (e, hs) = spec_header_list(s, a + 2);
        let c = ws_end(s, e);
        if char_at(s, c, ']') && char_at(s, c + 1, ']') {
            Some((c + 2, hs))
        } else {
            None
        }
    } else {
        None
    }
}

/// The result of a headers parser, taken by its view.
pub open spec fn pairs_result(r: Option<(usize, Vec<(String, String)>)>) -> Option<(int, Seq<(Seq<char>, Seq<char>)>)> {
    match r {
        Some((q, hs)) => Some((q as int, pairs_view(hs@))),
        None => None,
    }
}

/// Reads a list of headers at `p`.
pub fn parse_headers(v: &Vec<char>, p: usize) -> (r: Option<(usize, Vec<(String, String)>)>)
    requires
        p <= v@.len(),
    ensures
        pairs_result(r) == spec_headers(v@, p as int),
        r matches Some((q, _)) ==> p < q <= v@.len(),
{
    let a = scan(v, p, CharClass::Space);
    if is_char_at(v, a, '[') && is_char_at(v, a + 1, '[') {
        let (e, hs) = header_list(v, a + 2);
        let c = scan(v, e, CharClass::Space);
        if is_char_at(v, c, ']') && is_char_at(v, c + 1, ']') {
            Some((c + 2, hs))
        } else {
            None
        }
    } else {
        None
    }
}

/// A list of headers, with or without `key = ` before it.
pub open spec fn spec_headers_item(s: Seq<char>, p: int, key: Seq<char>) -> Option<(int, Seq<(Seq<char>, Seq<char>)>)> {
    match spec_keyed(s, p, key) {
        Some(q) => spec_headers(s, q),
        None => spec_headers(s, p),
    }
}

/// Reads a list of headers, with or without `key = ` before it, at `p`.
pub fn headers_item(v: &Vec<char>, p: usize, key: &str) -> (r: Option<(usize, Vec<(String, String)>)>)
    requires
        p <= v@.len(),
    ensures
        pairs_result(r) == spec_headers_item(v@, p as int, key@),
        r matches Some((q, _)) ==> p < q <= v@.len(),
{
    match keyed(v, p, key) {
        Some(q) => parse_headers(v, q),
        None => parse_headers(v, p),
    }
}

/// Headers as pairs of character sequences.
pub type HeadersView = Seq<(Seq<char>, Seq<char>)>;

/// An optional string taken by its view.
pub open spec fn opt_str_view(o: Option<String>) -> Option<Seq<char>> {
    match o {
        Some(x) => Some(x@),
        None => None,
    }
}

/// An optional list of headers taken by its view.
pub open spec fn opt_pairs_view(o: Option<Vec<(String, String)>>) -> Option<HeadersView> {
    match o {
        Some(x) => Some(pairs_view(x@)),
        None => None,
    }
}

/// The digit that writes `d`, for `d` below ten.
pub open spec fn digit_char(d: nat) -> char {
    if d == 0 {
        '0'
    } else if d == 1 {
        '1'
    } else if d == 2 {
        '2'
    } else if d == 3 {
        '3'
    } else if d == 4 {
        '4'
    } else if d == 5 {
        '5'
    } else if d == 6 {
        '6'
    } else if d == 7 {
        '7'
    } else if d == 8 {
        '8'
    } else {
        '9'
    }
}

/// The decimal numeral of `n`, without leading zeros.
pub open spec fn decimal(n: nat) -> Seq<char>
    decreases n,
{
    if n < 10 {
        seq![digit_char(n)]
    } else {
        decimal(n / 10).push(digit_char(n % 10))
    }
}

/// The digit that writes `d` is a digit worth `d`.
proof fn lemma_digit_char(d: nat)
    requires
        d < 10,
    ensures
        is_ascii_digit(digit_char(d)),
        digit_char(d) as int - '0' as int == d,
{
}

/// The decimal numeral of `n` is a non-empty run of digits that writes
/// `n`.
pub proof fn lemma_decimal(n: nat)
    ensures
        decimal(n).len() > 0,
        forall|i: int| 0 <= i < decimal(n).len() ==> is_ascii_digit(#[trigger] decimal(n)[i]),
        digits_value(decimal(n)) == n,
    decreases n,
{
    if n < 10 {
        lemma_digit_char(n);
        let one = seq![digit_char(n)];
        assert(one.drop_last() =~= Seq::<char>::empty());
        assert(one.last() == digit_char(n));
        assert(digits_value(Seq::<char>::empty()) == 0);
        assert(digits_value(one) == 10 * digits_value(one.drop_last()) + ((one.last() as int
            - '0' as int) as nat));
    } else {
        lemma_digit_char(n % 10);
        assert(n == 10 * (n / 10) + n % 10);
        lemma_decimal(n / 10);
        let d = decimal(n / 10);
        let e = d.push(digit_char(n % 10));
        assert(e.drop_last() =~= d);
        assert(e.last() == digit_char(n % 10));
        assert(digits_value(e) == 10 * digits_value(e.drop_last()) + ((e.last() as int - '0' as int) as nat));
        assert forall|i: int| 0 <= i < decimal(n).len() implies is_ascii_digit(
            #[trigger] decimal(n)[i],
        ) by {
            if i < d.len() {
                assert(decimal(n)[i] == d[i]);
            }
        }
    }
}

/// The decimal numeral of any number that fits in `u64` is read back as
/// that number, whatever follows it that is not a digit.
pub proof fn lemma_u64_at_decimal(n: nat, r: Seq<char>)
    requires
        n <= u64::MAX,
        r.len() == 0 || !is_ascii_digit(r[0]),
    ensures
        spec_u64_at(decimal(n) + r, 0) == Some((decimal(n).len() as int, n as u64)),
{
    lemma_decimal(n);
    let d = decimal(n);
    let s = d + r;
    assert(class_end(s, 0, CharClass::Digit) == d.len()) by {
        lemma_digit_run(s, 0, d.len() as int);
    }
    assert(s.subrange(0, d.len() as int) =~= d);
}

/// A run of digits from `p` to `q`, not followed by another, ends at `q`.
proof fn lemma_digit_run(s: Seq<char>, p: int, q: int)
    requires
        0 <= p <= q <= s.len(),
        forall|i: int| p <= i < q ==> is_ascii_digit(#[trigger] s[i]),
        q == s.len() || !is_ascii_digit(s[q]),
    ensures
        class_end(s, p, CharClass::Digit) == q,
    decreases q - p,
{
    if p < q {
        lemma_digit_run(s, p + 1, q);
    }
}

} // verus!
