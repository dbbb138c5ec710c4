//! Header lists written as `[[key: value, key: value]]` on one line.
use vstd::prelude::*;
use crate::chars::{split, split_once, split_once_at, split_on, to_string, trim, trimmed, vecs_view, CharSet};
use crate::lexer::{pairs_view, HeadersView};

verus! {

broadcast use vstd::string::group_string_axioms;

/// The message of the error for an entry without a colon.
pub open spec fn header_error(entry: Seq<char>) -> Seq<char> {
    "Invalid header format: "@ + entry
}

/// The entries of a header list: the text without its surrounding `[`
/// and `]`, split at commas, each entry trimmed of white space.
pub open spec fn header_entries(s: Seq<char>) -> Seq<Seq<char>> {
    split_on(trim(trim(s, CharSet::One('[')), CharSet::One(']')), ',').map_values(
        |e: Seq<char>| trim(e, CharSet::White),
    )
}

/// Each entry split at its first colon into a trimmed key and value; the
/// first entry without a colon is an error.
pub open spec fn headers_of(entries: Seq<Seq<char>>) -> Result<HeadersView, Seq<char>>
    decreases entries.len(),
{
    if entries.len() == 0 {
        Ok(Seq::empty())
    } else {
        match headers_of(entries.drop_last()) {
            Ok(hs) => match split_once(entries.last(), ':') {
                Some((k, x)) => Ok(hs.push((trim(k, CharSet::White), trim(x, CharSet::White)))),
                None => Err(header_error(entries.last())),
            },
            Err(e) => Err(e),
        }
    }
}

/// The header list that the text `s` writes, or the error for it.
pub open spec fn spec_parse_headers(s: Seq<char>) -> Result<HeadersView, Seq<char>> {
    headers_of(header_entries(s))
}

/// A header list result taken by its view.
pub open spec fn headers_result(r: Result<Vec<(String, String)>, String>) -> Result<HeadersView, Seq<char>> {
    match r {
        Ok(hs) => Ok(pairs_view(hs@)),
        Err(e) => Err(e@),
    }
}

/// Reads the header list that `v` writes.
pub fn headers_from(v: &Vec<char>) -> (r: Result<Vec<(String, String)>, String>)
    ensures
        headers_result(r) == spec_parse_headers(v@),
{
    let inner = trimmed(&trimmed(v, CharSet::One('[')), CharSet::One(']'));
    let parts = split(&inner, ',');
    let ghost entries = header_entries(v@);
    assert(entries.len() == parts@.len());
    let mut hs: Vec<(String, String)> = Vec::new();
    let mut i: usize = 0;
    assert(entries.take(0) =~= Seq::<Seq<char>>::empty());
    assert(pairs_view(hs@) =~= Seq::<(Seq<char>, Seq<char>)>::empty());
    while i < parts.len()
        invariant
            i <= parts@.len() == entries.len(),
            entries == header_entries(v@),
            vecs_view(parts@) == split_on(inner@, ','),
            inner@ == trim(trim(v@, CharSet::One('[')), CharSet::One(']')),
            headers_of(entries.take(i as int)) == Ok::<HeadersView, Seq<char>>(pairs_view(hs@)),
        decreases parts@.len() - i,
    {
        let e = trimmed(&parts[i], CharSet::White);
        assert(e@ == entries[i as int]);
        assert(entries.take(i + 1).drop_last() =~= entries.take(i as int));
        assert(entries.take(i + 1).last() == entries[i as int]);
        match split_once_at(&e, ':') {
            Some((k, x)) => {
                let ghost old_hs = pairs_view(hs@);
                let key = to_string(&trimmed(&k, CharSet::White));
                let value = to_string(&trimmed(&x, CharSet::White));
                let ghost pv = (key@, value@);
                hs.push((key, value));
                assert(pairs_view(hs@) =~= old_hs.push(pv));
            },
            None => {
                let mut msg = String::from_str("Invalid header format: ");
                let text = to_string(&e);
                msg.append(text.as_str());
                proof {
                    lemma_headers_of_err(entries, i as int + 1);
                }
                return Err(msg);
            },
        }
        i = i + 1;
    }
    assert(entries.take(i as int) =~= entries);
    Ok(hs)
}

/// An error in a prefix of the entries is the error of them all.
pub proof fn lemma_headers_of_err(entries: Seq<Seq<char>>, n: int)
    requires
        0 <= n <= entries.len(),
        headers_of(entries.take(n)) is Err,
    ensures
        headers_of(entries) == headers_of(entries.take(n)),
    decreases entries.len() - n,
{
    if n < entries.len() {
        assert(entries.take(n + 1).drop_last() =~= entries.take(n));
        lemma_headers_of_err(entries, n + 1);
    } else {
        assert(entries.take(n) =~= entries);
    }
}

/// Whether every entry holds a colon.
pub open spec fn all_have_colon(entries: Seq<Seq<char>>) -> bool {
    forall|i: int| 0 <= i < entries.len() ==> (#[trigger] split_once(entries[i], ':')) is Some
}

/// The header that an entry with a colon writes.
pub open spec fn header_of_entry(e: Seq<char>) -> (Seq<char>, Seq<char>) {
    match split_once(e, ':') {
        Some((k, x)) => (trim(k, CharSet::White), trim(x, CharSet::White)),
        None => (Seq::empty(), Seq::empty()),
    }
}

/// Entries give a header list exactly when each holds a colon, and then
/// one header per entry, in order.
pub proof fn lemma_headers_of_shape(entries: Seq<Seq<char>>)
    ensures
        headers_of(entries) is Ok <==> all_have_colon(entries),
        headers_of(entries) matches Ok(hs) ==> hs.len() == entries.len() && forall|i: int|
            0 <= i < hs.len() ==> hs[i] == header_of_entry(#[trigger] entries[i]),
    decreases entries.len(),
{
    if entries.len() > 0 {
        let d = entries.drop_last();
        lemma_headers_of_shape(d);
        assert forall|i: int| 0 <= i < d.len() implies d[i] == entries[i] by {}
        if all_have_colon(entries) {
            assert(all_have_colon(d)) by {
                assert forall|i: int| 0 <= i < d.len() implies (#[trigger] split_once(d[i], ':')) is Some by {
                    assert(d[i] == entries[i]);
                    assert(split_once(entries[i], ':') is Some);
                }
            }
            assert(split_once(entries[entries.len() - 1], ':') is Some);
        }
        if headers_of(entries) is Ok {
            assert(headers_of(d) is Ok);
            assert(split_once(entries.last(), ':') is Some);
            assert forall|i: int| 0 <= i < entries.len() implies (#[trigger] split_once(entries[i], ':')) is Some by {
                if i < d.len() {
                    assert(d[i] == entries[i]);
                    assert(split_once(d[i], ':') is Some);
                }
            }
        }
    }
}

/// A header line gives headers exactly when each of its comma-separated
/// entries holds a colon, and then one header per entry; so a list that
/// reads holds at least one header.
pub proof fn lemma_parse_headers_shape(s: Seq<char>)
    ensures
        spec_parse_headers(s) is Ok <==> all_have_colon(header_entries(s)),
        spec_parse_headers(s) matches Ok(hs) ==> hs.len() == header_entries(s).len()
            && hs.len() >= 1 && forall|i: int|
            0 <= i < hs.len() ==> hs[i] == header_of_entry(#[trigger] header_entries(s)[i]),
{
    lemma_headers_of_shape(header_entries(s));
    crate::chars::lemma_split_on_nonempty(
        trim(trim(s, CharSet::One('[')), CharSet::One(']')),
        ',',
    );
}

} // verus!
