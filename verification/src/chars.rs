//! Operations of `str` on strings held as vectors of characters:
//! trimming, splitting, prefixes and suffixes, and reading numbers.
use vstd::prelude::*;
use crate::lexer::{parse_u64, spec_u64_at, strings_view};
use crate::text::string_of;

verus! {

broadcast use vstd::string::group_string_axioms;

/// Sets of characters that strings are trimmed of.
#[derive(Clone, Copy, PartialEq, Eq, Debug)]
pub enum CharSet {
    /// Unicode white space, as `char::is_whitespace` gives it.
    White,
    /// One character.
    One(char),
    /// `[`, `]` and `"`.
    BracketsAndQuote,
}

/// Unicode white space: the characters of the `White_Space` property.
pub open spec fn is_white(c: char) -> bool {
    ('\u{9}' <= c <= '\u{d}') || c == ' ' || c == '\u{85}' || c == '\u{a0}' || c == '\u{1680}'
        || ('\u{2000}' <= c <= '\u{200a}') || c == '\u{2028}' || c == '\u{2029}' || c
        == '\u{202f}' || c == '\u{205f}' || c == '\u{3000}'
}

/// Whether `c` belongs to the set `k`.
pub open spec fn in_set(k: CharSet, c: char) -> bool {
    match k {
        CharSet::White => is_white(c),
        CharSet::One(d) => c == d,
        CharSet::BracketsAndQuote => c == '[' || c == ']' || c == '"',
    }
}

/// Decides whether `c` belongs to the set `k`.
pub fn set_has(k: CharSet, c: char) -> (b: bool)
    ensures
        b == in_set(k, c),
{
    match k {
        CharSet::White => ('\u{9}' <= c && c <= '\u{d}') || c == ' ' || c == '\u{85}' || c
            == '\u{a0}' || c == '\u{1680}' || ('\u{2000}' <= c && c <= '\u{200a}') || c
            == '\u{2028}' || c == '\u{2029}' || c == '\u{202f}' || c == '\u{205f}' || c
            == '\u{3000}',
        CharSet::One(d) => c == d,
        CharSet::BracketsAndQuote => c == '[' || c == ']' || c == '"',
    }
}

/// `s` without its leading characters of the set `k`.
pub open spec fn trim_start(s: Seq<char>, k: CharSet) -> Seq<char>
    decreases s.len(),
{
    if s.len() > 0 && in_set(k, s[0]) {
        trim_start(s.drop_first(), k)
    } else {
        s
    }
}

/// `s` without its trailing characters of the set `k`.
pub open spec fn trim_end(s: Seq<char>, k: CharSet) -> Seq<char>
    decreases s.len(),
{
    if s.len() > 0 && in_set(k, s.last()) {
        trim_end(s.drop_last(), k)
    } else {
        s
    }
}

/// `s` without its leading and trailing characters of the set `k`
/// (`trim` for white space, `trim_matches` for the others).
pub open spec fn trim(s: Seq<char>, k: CharSet) -> Seq<char> {
    trim_end(trim_start(s, k), k)
}

/// The characters `v[from..to]`.
pub fn sub_vec(v: &Vec<char>, from: usize, to: usize) -> (r: Vec<char>)
    requires
        from <= to <= v@.len(),
    ensures
        r@ == v@.subrange(from as int, to as int),
{
    let mut r: Vec<char> = Vec::new();
    let mut i = from;
    while i < to
        invariant
            from <= i <= to <= v@.len(),
            r@ == v@.subrange(from as int, i as int),
        decreases to - i,
    {
        r.push(v[i]);
        i = i + 1;
        assert(r@ =~= v@.subrange(from as int, i as int));
    }
    r
}

/// `v` trimmed of the set `k` at both ends.
pub fn trimmed(v: &Vec<char>, k: CharSet) -> (r: Vec<char>)
    ensures
        r@ == trim(v@, k),
{
    let n = v.len();
    let mut i: usize = 0;
    assert(v@.subrange(0, n as int) =~= v@);
    while i < n && set_has(k, v[i])
        invariant
            i <= n == v@.len(),
            trim_start(v@, k) == trim_start(v@.subrange(i as int, n as int), k),
        decreases n - i,
    {
        assert(v@.subrange(i as int, n as int).drop_first() =~= v@.subrange(i + 1, n as int));
        i = i + 1;
    }
    assert(trim_start(v@, k) == v@.subrange(i as int, n as int));
    let mut j: usize = n;
    while j > i && set_has(k, v[j - 1])
        invariant
            i <= j <= n == v@.len(),
            trim(v@, k) == trim_end(v@.subrange(i as int, j as int), k),
        decreases j,
    {
        assert(v@.subrange(i as int, j as int).drop_last() =~= v@.subrange(i as int, j - 1));
        j = j - 1;
    }
    sub_vec(v, i, j)
}

/// The pieces of `s` between the occurrences of `c` (`split`): always at
/// least one piece.
pub open spec fn split_on(s: Seq<char>, c: char) -> Seq<Seq<char>>
    decreases s.len(),
{
    if s.len() == 0 {
        seq![Seq::empty()]
    } else {
        let rest = split_on(s.drop_last(), c);
        if s.last() == c {
            rest.push(Seq::empty())
        } else {
            rest.update(rest.len() - 1, rest.last().push(s.last()))
        }
    }
}

/// `split_on` never gives an empty list.
pub proof fn lemma_split_on_nonempty(s: Seq<char>, c: char)
    ensures
        split_on(s, c).len() >= 1,
    decreases s.len(),
{
    if s.len() > 0 {
        lemma_split_on_nonempty(s.drop_last(), c);
    }
}

/// Vectors of characters taken as sequences.
pub open spec fn vecs_view(v: Seq<Vec<char>>) -> Seq<Seq<char>> {
    v.map_values(|x: Vec<char>| x@)
}

/// The pieces of `v` between the occurrences of `c`.
pub fn split(v: &Vec<char>, c: char) -> (r: Vec<Vec<char>>)
    ensures
        vecs_view(r@) == split_on(v@, c),
{
    let mut done: Vec<Vec<char>> = Vec::new();
    let mut cur: Vec<char> = Vec::new();
    let mut i: usize = 0;
    assert(v@.subrange(0, 0) =~= Seq::<char>::empty());
    while i < v.len()
        invariant
            i <= v@.len(),
            split_on(v@.subrange(0, i as int), c) == vecs_view(done@).push(cur@),
        decreases v@.len() - i,
    {
        let x = v[i];
        let ghost pre = v@.subrange(0, i as int);
        assert(v@.subrange(0, i + 1).drop_last() =~= pre);
        assert(v@.subrange(0, i + 1).last() == x);
        if x == c {
            let ghost old_done = vecs_view(done@);
            let ghost cv = cur@;
            done.push(cur);
            cur = Vec::new();
            assert(vecs_view(done@) =~= old_done.push(cv));
            assert(vecs_view(done@).push(cur@) =~= old_done.push(cv).push(Seq::empty()));
        } else {
            let ghost old_cur = cur@;
            cur.push(x);
            assert(vecs_view(done@).push(cur@) =~= vecs_view(done@).push(old_cur).update(
                vecs_view(done@).len() as int,
                old_cur.push(x),
            ));
        }
        i = i + 1;
    }
    assert(v@.subrange(0, v@.len() as int) =~= v@);
    let ghost old_done = vecs_view(done@);
    let ghost cv = cur@;
    done.push(cur);
    assert(vecs_view(done@) =~= old_done.push(cv));
    done
}

/// The index of the first `c` in `s`.
pub open spec fn find_first(s: Seq<char>, c: char) -> Option<int>
    decreases s.len(),
{
    if s.len() == 0 {
        None
    } else {
        match find_first(s.drop_last(), c) {
            Some(i) => Some(i),
            None => if s.last() == c {
                Some(s.len() - 1)
            } else {
                None
            },
        }
    }
}

/// `s` split at its first `c`, which is dropped (`split_once`).
pub open spec fn split_once(s: Seq<char>, c: char) -> Option<(Seq<char>, Seq<char>)> {
    match find_first(s, c) {
        Some(i) => Some((s.subrange(0, i), s.subrange(i + 1, s.len() as int))),
        None => None,
    }
}

/// Splits `v` at its first `c`.
pub fn split_once_at(v: &Vec<char>, c: char) -> (r: Option<(Vec<char>, Vec<char>)>)
    ensures
        match r {
            Some((a, b)) => split_once(v@, c) == Some((a@, b@)),
            None => split_once(v@, c) is None,
        },
{
    let mut i: usize = 0;
    while i < v.len()
        invariant
            i <= v@.len(),
            find_first(v@.subrange(0, i as int), c) is None,
        decreases v@.len() - i,
    {
        assert(v@.subrange(0, i + 1).drop_last() =~= v@.subrange(0, i as int));
        if v[i] == c {
            assert(find_first(v@.subrange(0, i + 1), c) == Some(i as int));
            proof {
                lemma_find_first_prefix(v@, c, i + 1);
            }
            return Some((sub_vec(v, 0, i), sub_vec(v, i + 1, v.len())));
        }
        i = i + 1;
    }
    assert(v@.subrange(0, v@.len() as int) =~= v@);
    None
}

/// The first `c` of a prefix that holds one is the first `c` of the whole.
pub proof fn lemma_find_first_prefix(s: Seq<char>, c: char, n: int)
    requires
        0 <= n <= s.len(),
        find_first(s.subrange(0, n), c) is Some,
    ensures
        find_first(s, c) == find_first(s.subrange(0, n), c),
    decreases s.len() - n,
{
    if n < s.len() {
        assert(s.subrange(0, n + 1).drop_last() =~= s.subrange(0, n));
        lemma_find_first_prefix(s, c, n + 1);
    } else {
        assert(s.subrange(0, n) =~= s);
    }
}

/// Whether `s` begins with `t`.
pub open spec fn starts_with(s: Seq<char>, t: Seq<char>) -> bool {
    t.len() <= s.len() && s.subrange(0, t.len() as int) == t
}

/// Whether `s` ends with `t`.
pub open spec fn ends_with(s: Seq<char>, t: Seq<char>) -> bool {
    t.len() <= s.len() && s.subrange(s.len() - t.len(), s.len() as int) == t
}

/// Checks whether `v` is the text `t`.
pub fn is_text(v: &Vec<char>, t: &str) -> (b: bool)
    ensures
        b == (v@ == t@),
{
    let n = t.unicode_len();
    if n != v.len() {
        return false;
    }
    let mut i: usize = 0;
    while i < n
        invariant
            n == t@.len() == v@.len(),
            i <= n,
            forall|j: int| 0 <= j < i ==> v@[j] == t@[j],
        decreases n - i,
    {
        if v[i] != t.get_char(i) {
            return false;
        }
        i = i + 1;
    }
    assert(v@ =~= t@);
    true
}

/// Checks whether `v` begins with the text `t`.
pub fn begins_with(v: &Vec<char>, t: &str) -> (b: bool)
    ensures
        b == starts_with(v@, t@),
{
    let n = t.unicode_len();
    if n > v.len() {
        return false;
    }
    let mut i: usize = 0;
    while i < n
        invariant
            n == t@.len() <= v@.len(),
            i <= n,
            forall|j: int| 0 <= j < i ==> v@[j] == t@[j],
        decreases n - i,
    {
        if v[i] != t.get_char(i) {
            assert(v@.subrange(0, n as int)[i as int] != t@[i as int]);
            return false;
        }
        i = i + 1;
    }
    assert(v@.subrange(0, n as int) =~= t@);
    true
}

/// Checks whether `v` ends with the text `t`.
pub fn finishes_with(v: &Vec<char>, t: &str) -> (b: bool)
    ensures
        b == ends_with(v@, t@),
{
    let n = t.unicode_len();
    if n > v.len() {
        return false;
    }
    let m = v.len() - n;
    let mut i: usize = 0;
    while i < n
        invariant
            n == t@.len() <= v@.len(),
            m + n == v.len(),
            i <= n,
            forall|j: int| 0 <= j < i ==> v@[m + j] == t@[j],
        decreases n - i,
    {
        if v[m + i] != t.get_char(i) {
            assert(v@.subrange(m as int, v@.len() as int)[i as int] != t@[i as int]);
            return false;
        }
        i = i + 1;
    }
    assert(v@.subrange(m as int, v@.len() as int) =~= t@);
    true
}

/// What `str::parse::<u64>` gives: an optional `+`, then decimal digits
/// up to the end, writing a number that fits in `u64`.
pub open spec fn std_u64(s: Seq<char>) -> Option<u64> {
    let p: int = if s.len() > 0 && s[0] == '+' {
        1
    } else {
        0
    };
    match spec_u64_at(s, p) {
        Some((q, x)) => if q == s.len() {
            Some(x)
        } else {
            None
        },
        None => None,
    }
}

/// Reads `v` as `str::parse::<u64>` does.
pub fn parse_u64_text(v: &Vec<char>) -> (r: Option<u64>)
    ensures
        r == std_u64(v@),
{
    let p: usize = if v.len() > 0 && v[0] == '+' {
        1
    } else {
        0
    };
    match parse_u64(v, p) {
        Some((q, x)) => if q == v.len() {
            Some(x)
        } else {
            None
        },
        None => None,
    }
}

/// What `str::parse::<bool>` gives: `true` and `false` only.
pub open spec fn std_bool(s: Seq<char>) -> Option<bool> {
    if s == "true"@ {
        Some(true)
    } else if s == "false"@ {
        Some(false)
    } else {
        None
    }
}

/// Reads `v` as `str::parse::<bool>` does.
pub fn parse_bool_text(v: &Vec<char>) -> (r: Option<bool>)
    ensures
        r == std_bool(v@),
{
    if is_text(v, "true") {
        Some(true)
    } else if is_text(v, "false") {
        Some(false)
    } else {
        None
    }
}

/// The string of the characters `v`.
pub fn to_string(v: &Vec<char>) -> (s: String)
    ensures
        s@ == v@,
{
    let s = string_of(v, 0, v.len());
    assert(v@.subrange(0, v@.len() as int) =~= v@);
    s
}

/// The pieces of `s` between the occurrences of `c`, each trimmed of white
/// space.
pub open spec fn trimmed_pieces(s: Seq<char>, c: char) -> Seq<Seq<char>> {
    split_on(s, c).map_values(|e: Seq<char>| trim(e, CharSet::White))
}

/// The pieces of `v` between the occurrences of `c`, each trimmed of white
/// space, as strings.
pub fn split_trimmed(v: &Vec<char>, c: char) -> (r: Vec<String>)
    ensures
        strings_view(r@) == trimmed_pieces(v@, c),
{
    let parts = split(v, c);
    let mut r: Vec<String> = Vec::new();
    let mut i: usize = 0;
    while i < parts.len()
        invariant
            i <= parts@.len(),
            vecs_view(parts@) == split_on(v@, c),
            strings_view(r@) == trimmed_pieces(v@, c).take(i as int),
        decreases parts@.len() - i,
    {
        let ghost old_r = strings_view(r@);
        let piece = to_string(&trimmed(&parts[i], CharSet::White));
        let ghost pv = piece@;
        r.push(piece);
        assert(strings_view(r@) =~= old_r.push(pv));
        assert(trimmed_pieces(v@, c).take(i + 1) =~= trimmed_pieces(v@, c).take(i as int).push(pv));
        i = i + 1;
    }
    assert(trimmed_pieces(v@, c).take(i as int) =~= trimmed_pieces(v@, c));
    r
}

/// Splitting at `c` a text joined by `c` gives the pieces of each part.
pub proof fn lemma_split_on_join(a: Seq<char>, b: Seq<char>, c: char)
    ensures
        split_on(a + seq![c] + b, c) == split_on(a, c) + split_on(b, c),
    decreases b.len(),
{
    let j = a + seq![c] + b;
    if b.len() == 0 {
        assert(j.drop_last() =~= a);
        assert(split_on(j, c) =~= split_on(a, c) + split_on(b, c));
    } else {
        let b1 = b.drop_last();
        lemma_split_on_join(a, b1, c);
        lemma_split_on_nonempty(b1, c);
        assert(j.drop_last() =~= a + seq![c] + b1);
        assert(j.last() == b.last());
        let sa = split_on(a, c);
        let sb1 = split_on(b1, c);
        if b.last() == c {
            assert(split_on(j, c) =~= sa + sb1.push(Seq::empty()));
        } else {
            let r = sa + sb1;
            assert(r.update(r.len() - 1, r.last().push(b.last())) =~= sa + sb1.update(
                sb1.len() - 1,
                sb1.last().push(b.last()),
            ));
        }
    }
}

/// A text without `c` is one piece.
pub proof fn lemma_split_on_single(w: Seq<char>, c: char)
    requires
        !w.contains(c),
    ensures
        split_on(w, c) == seq![w],
    decreases w.len(),
{
    if w.len() > 0 {
        let d = w.drop_last();
        assert(!d.contains(c)) by {
            if d.contains(c) {
                let i = choose|i: int| 0 <= i < d.len() && d[i] == c;
                assert(w[i] == c);
            }
        }
        lemma_split_on_single(d, c);
        assert(w.last() != c) by {
            assert(w[w.len() - 1] == w.last());
        }
        assert(d.push(w.last()) =~= w);
        assert(seq![d].update(0, d.push(w.last())) =~= seq![w]);
    } else {
        assert(w =~= Seq::<char>::empty());
    }
}

/// The lines of `a`, a line `w` and `b`, joined by newlines, are those of
/// `a`, then `w`, then those of `b`.
pub proof fn lemma_lines_around(a: Seq<char>, w: Seq<char>, b: Seq<char>)
    requires
        !w.contains('\n'),
    ensures
        split_on(a + seq!['\n'] + w + seq!['\n'] + b, '\n') == split_on(a, '\n') + seq![w]
            + split_on(b, '\n'),
        split_on(a + seq!['\n'] + b, '\n') == split_on(a, '\n') + split_on(b, '\n'),
{
    lemma_split_on_join(a, w + seq!['\n'] + b, '\n');
    lemma_split_on_join(w, b, '\n');
    lemma_split_on_single(w, '\n');
    lemma_split_on_join(a, b, '\n');
    assert(a + seq!['\n'] + w + seq!['\n'] + b =~= a + seq!['\n'] + (w + seq!['\n'] + b));
    assert(split_on(a, '\n') + (seq![w] + split_on(b, '\n')) =~= split_on(a, '\n') + seq![w]
        + split_on(b, '\n'));
}

/// A text without `c` holds no first `c`.
pub proof fn lemma_find_first_none(s: Seq<char>, c: char)
    requires
        !s.contains(c),
    ensures
        find_first(s, c) is None,
    decreases s.len(),
{
    if s.len() > 0 {
        let d = s.drop_last();
        assert(!d.contains(c)) by {
            if d.contains(c) {
                let i = choose|i: int| 0 <= i < d.len() && d[i] == c;
                assert(s[i] == c);
            }
        }
        lemma_find_first_none(d, c);
        assert(s[s.len() - 1] == s.last());
    }
}

/// `k`, then `c`, then `v`, where `k` holds no `c`, splits at that `c`
/// into `k` and `v`.
pub proof fn lemma_split_once_first(k: Seq<char>, c: char, v: Seq<char>)
    requires
        !k.contains(c),
    ensures
        split_once(k + seq![c] + v, c) == Some((k, v)),
{
    let s = k + seq![c] + v;
    let n = k.len() as int + 1;
    lemma_find_first_none(k, c);
    assert(s.subrange(0, n).drop_last() =~= k);
    assert(s.subrange(0, n).last() == c);
    lemma_find_first_prefix(s, c, n);
    assert(s.subrange(0, n - 1) =~= k);
    assert(s.subrange(n, s.len() as int) =~= v);
}

/// A text that neither begins nor ends with a character of the set is
/// its own trim.
pub proof fn lemma_trim_none(s: Seq<char>, k: CharSet)
    requires
        s.len() > 0,
        !in_set(k, s[0]),
        !in_set(k, s.last()),
    ensures
        trim(s, k) == s,
{
}

/// Leading characters of the set are dropped up to the first that is
/// not in it.
pub proof fn lemma_trim_start_prefix(pre: Seq<char>, s: Seq<char>, k: CharSet)
    requires
        forall|i: int| 0 <= i < pre.len() ==> in_set(k, #[trigger] pre[i]),
        s.len() > 0,
        !in_set(k, s[0]),
    ensures
        trim_start(pre + s, k) == s,
    decreases pre.len(),
{
    if pre.len() == 0 {
        assert(pre + s =~= s);
    } else {
        assert((pre + s)[0] == pre[0]);
        assert((pre + s).drop_first() =~= pre.drop_first() + s);
        assert forall|i: int| 0 <= i < pre.drop_first().len() implies in_set(
            k,
            #[trigger] pre.drop_first()[i],
        ) by {
            assert(pre.drop_first()[i] == pre[i + 1]);
        }
        lemma_trim_start_prefix(pre.drop_first(), s, k);
    }
}

/// Trailing characters of the set are dropped back to the last that is
/// not in it.
pub proof fn lemma_trim_end_suffix(s: Seq<char>, suf: Seq<char>, k: CharSet)
    requires
        forall|i: int| 0 <= i < suf.len() ==> in_set(k, #[trigger] suf[i]),
        s.len() > 0,
        !in_set(k, s.last()),
    ensures
        trim_end(s + suf, k) == s,
    decreases suf.len(),
{
    if suf.len() == 0 {
        assert(s + suf =~= s);
    } else {
        assert((s + suf).last() == suf.last());
        assert((s + suf).drop_last() =~= s + suf.drop_last());
        assert forall|i: int| 0 <= i < suf.drop_last().len() implies in_set(
            k,
            #[trigger] suf.drop_last()[i],
        ) by {
            assert(suf.drop_last()[i] == suf[i]);
        }
        lemma_trim_end_suffix(s, suf.drop_last(), k);
    }
}

/// The decimal numeral of any number that fits in `u64` reads as that
/// number, as `str::parse` reads it.
pub proof fn lemma_std_u64_decimal(n: nat)
    requires
        n <= u64::MAX,
    ensures
        std_u64(crate::lexer::decimal(n)) == Some(n as u64),
{
    crate::lexer::lemma_u64_at_decimal(n, Seq::empty());
    crate::lexer::lemma_decimal(n);
    let d = crate::lexer::decimal(n);
    assert(d + Seq::<char>::empty() =~= d);
    assert(crate::lexer::is_ascii_digit(d[0]));
}

} // verus!
