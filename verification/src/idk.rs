//! A sketch of a grammar-based reader: an optional `prometheus_addr=`
//! line, then sections whose contents it does not read.
//!
//! Reading a section past its `[name]` header is not supported: the
//! functions that would do so require that no such header stands.
use vstd::prelude::*;
use crate::chars::{sub_vec, to_string, trim, trimmed, CharSet};
use crate::lexer::{
    char_at, in_class, is_char_at, opt_pairs_view, opt_str_view, scan, spec_take1, str_result, take1, ws_end,
    CharClass,
};
use crate::str_map::StrMap;
use crate::text::{chars_of, has_tag, string_of, tag_at};

verus! {

broadcast use vstd::string::group_string_axioms;

/// One proxy section.
#[derive(Debug)]
pub struct ProxyConfig {
    pub listener: String,
    pub tls_certificate: Option<String>,
    pub tls_certificate_key: Option<String>,
    pub servers: StrMap<ProxyHostConfig>,
}

/// One load balancer section.
#[derive(Debug)]
pub struct LoadBalancerConfig {
    pub listener: String,
    pub upstreams: Vec<String>,
    pub health_check: Option<bool>,
    pub health_check_frequency: Option<u64>,
    pub parallel_health_check: Option<bool>,
    pub tls_certificate: Option<String>,
    pub tls_certificate_key: Option<String>,
    pub servers: StrMap<LBHostConfig>,
}

/// The whole configuration.
#[derive(Debug)]
pub struct Config {
    pub prometheus_addr: Option<String>,
    pub proxy: Option<Vec<ProxyConfig>>,
    pub load_balancer: Option<Vec<LoadBalancerConfig>>,
}

/// The settings of one domain of a load balancer.
#[derive(Debug)]
pub struct LBHostConfig {
    pub load_balancer_tls: bool,
    pub load_balancer_headers: Option<Vec<(String, String)>>,
}

/// The settings of one proxied domain.
#[derive(Debug)]
pub struct ProxyHostConfig {
    pub proxy_addr: String,
    pub proxy_tls: bool,
    pub proxy_headers: Option<Vec<(String, String)>>,
    pub proxy_uds: Option<bool>,
}

/// A proxied domain's settings as values.
pub struct HostView {
    pub proxy_addr: Seq<char>,
    pub proxy_tls: bool,
    pub proxy_headers: Option<crate::lexer::HeadersView>,
    pub proxy_uds: Option<bool>,
}

/// A load balancer's domain settings as values.
pub struct LBHostView {
    pub load_balancer_tls: bool,
    pub load_balancer_headers: Option<crate::lexer::HeadersView>,
}

impl View for ProxyHostConfig {
    type V = HostView;

    open spec fn view(&self) -> HostView {
        HostView {
            proxy_addr: self.proxy_addr@,
            proxy_tls: self.proxy_tls,
            proxy_headers: opt_pairs_view(self.proxy_headers),
            proxy_uds: self.proxy_uds,
        }
    }
}

impl View for LBHostConfig {
    type V = LBHostView;

    open spec fn view(&self) -> LBHostView {
        LBHostView {
            load_balancer_tls: self.load_balancer_tls,
            load_balancer_headers: opt_pairs_view(self.load_balancer_headers),
        }
    }
}

/// What `char::is_alphanumeric` gives for `c`: whether it is alphabetic or
/// numeric in the sense of Unicode.
pub uninterp spec fn char_is_alphanumeric(c: char) -> bool;

/// `char::is_alphanumeric`: the contract names its result and states no
/// more of the Unicode tables it consults.
#[verifier::external_body]
fn is_alphanumeric(c: char) -> (b: bool)
    ensures
        b == char_is_alphanumeric(c),
{
    c.is_alphanumeric()
}

/// A character of a key or section name: alphanumeric or `_`.
pub open spec fn is_word_char(c: char) -> bool {
    char_is_alphanumeric(c) || c == '_'
}

/// The end of the run of word characters at `p`.
pub open spec fn word_end(s: Seq<char>, p: int) -> int
    decreases s.len() - p,
{
    if 0 <= p < s.len() && is_word_char(s[p]) {
        word_end(s, p + 1)
    } else {
        p
    }
}

/// A character that a value may hold: anything but a newline, and, where
/// `comma_stops`, anything but a comma.
pub open spec fn is_text_char(c: char, comma_stops: bool) -> bool {
    c != '\n' && !(comma_stops && c == ',')
}

/// The end of the run of value characters at `p`.
pub open spec fn text_end(s: Seq<char>, p: int, comma_stops: bool) -> int
    decreases s.len() - p,
{
    if 0 <= p < s.len() && is_text_char(s[p], comma_stops) {
        text_end(s, p + 1, comma_stops)
    } else {
        p
    }
}

/// Skips the word characters at `p`.
fn scan_word(v: &Vec<char>, p: usize) -> (q: usize)
    requires
        p <= v@.len(),
    ensures
        q == word_end(v@, p as int),
        p <= q <= v@.len(),
{
    let mut i = p;
    while i < v.len() && (is_alphanumeric(v[i]) || v[i] == '_')
        invariant
            p <= i <= v@.len(),
            word_end(v@, i as int) == word_end(v@, p as int),
        decreases v@.len() - i,
    {
        i = i + 1;
    }
    i
}

/// Skips the value characters at `p`.
fn scan_text(v: &Vec<char>, p: usize, comma_stops: bool) -> (q: usize)
    requires
        p <= v@.len(),
    ensures
        q == text_end(v@, p as int, comma_stops),
        p <= q <= v@.len(),
{
    let mut i = p;
    while i < v.len() && v[i] != '\n' && !(comma_stops && v[i] == ',')
        invariant
            p <= i <= v@.len(),
            text_end(v@, i as int, comma_stops) == text_end(v@, p as int, comma_stops),
        decreases v@.len() - i,
    {
        i = i + 1;
    }
    i
}

/// `key = value`: a run of word characters, `=` with whitespace around
/// it, and a run of characters up to a newline or comma, trimmed of white
/// space.
pub open spec fn spec_key_value(s: Seq<char>, p: int) -> Option<(int, (Seq<char>, Seq<char>))> {
    let k = word_end(s, p);
    let a = ws_end(s, k);
    if k > p && char_at(s, a, '=') {
        let b = ws_end(s, a + 1);
        let e = text_end(s, b, true);
        if e > b {
            Some((e, (s.subrange(p, k), trim(s.subrange(b, e), CharSet::White))))
        } else {
            None
        }
    } else {
        None
    }
}

/// Reads `key = value` at `p`.
fn key_value_at(v: &Vec<char>, p: usize) -> (r: Option<(usize, (String, String))>)
    requires
        p <= v@.len(),
    ensures
        match r {
            Some((q, (k, x))) => spec_key_value(v@, p as int) == Some((q as int, (k@, x@)))
                && p < q <= v@.len(),
            None => spec_key_value(v@, p as int) is None,
        },
{
    let k = scan_word(v, p);
    let a = scan(v, k, CharClass::Space);
    if k > p && is_char_at(v, a, '=') {
        let b = scan(v, a + 1, CharClass::Space);
        let e = scan_text(v, b, true);
        if e > b {
            let value = trimmed(&sub_vec(v, b, e), CharSet::White);
            return Some((e, (string_of(v, p, k), to_string(&value))));
        }
    }
    None
}

/// Reads `key = value` from the start of `input`; gives the rest of the
/// input, the key and the value.
pub fn parse_key_value(input: &str) -> (r: Result<(&str, (String, String)), ParseError>)
    ensures
        match r {
            Ok((rest, (k, x))) => exists|q: int| spec_key_value(input@, 0) == Some((q, (k@, x@)))
                && rest@ == input@.subrange(q, input@.len() as int),
            Err(_) => spec_key_value(input@, 0) is None,
        },
{
    let v = chars_of(input);
    match key_value_at(&v, 0) {
        Some((q, kx)) => Ok((input.substring_char(q, input.unicode_len()), kx)),
        None => Err(ParseError),
    }
}

/// `[name]` where the name is a run of word characters.
pub open spec fn spec_section_header(s: Seq<char>, p: int) -> Option<(int, Seq<char>)> {
    if char_at(s, p, '[') {
        let k = word_end(s, p + 1);
        if k > p + 1 && char_at(s, k, ']') {
            Some((k + 1, s.subrange(p + 1, k)))
        } else {
            None
        }
    } else {
        None
    }
}

/// Reads `[name]` at `p`.
fn section_header_at(v: &Vec<char>, p: usize) -> (r: Option<(usize, String)>)
    requires
        p <= v@.len(),
    ensures
        str_result(r) == spec_section_header(v@, p as int),
        r matches Some((q, _)) ==> p < q <= v@.len(),
{
    if is_char_at(v, p, '[') {
        let k = scan_word(v, p + 1);
        if k > p + 1 && is_char_at(v, k, ']') {
            return Some((k + 1, string_of(v, p + 1, k)));
        }
    }
    None
}

/// Reads `[name]` from the start of `input`; gives the rest of the input
/// and the name.
pub fn parse_section_header(input: &str) -> (r: Result<(&str, String), ParseError>)
    ensures
        match r {
            Ok((rest, x)) => exists|q: int| spec_section_header(input@, 0) == Some((q, x@))
                && rest@ == input@.subrange(q, input@.len() as int),
            Err(_) => spec_section_header(input@, 0) is None,
        },
{
    let v = chars_of(input);
    match section_header_at(&v, 0) {
        Some((q, x)) => Ok((input.substring_char(q, input.unicode_len()), x)),
        None => Err(ParseError),
    }
}

/// `[["name"]]` where the name is a non-empty run without double quotes.
pub open spec fn spec_server_header(s: Seq<char>, p: int) -> Option<(int, Seq<char>)> {
    if tag_at(s, p, "[[\""@) {
        match spec_take1(s, p + "[[\""@.len(), CharClass::NotQuote) {
            Some((q, d)) => if tag_at(s, q, "\"]]"@) {
                Some((q + "\"]]"@.len(), d))
            } else {
                None
            },
            None => None,
        }
    } else {
        None
    }
}

/// Reads `[["name"]]` from the start of `input`; gives the rest of the
/// input and the name.
pub fn parse_server_header(input: &str) -> (r: Result<(&str, String), ParseError>)
    ensures
        match r {
            Ok((rest, x)) => exists|q: int| spec_server_header(input@, 0) == Some((q, x@))
                && rest@ == input@.subrange(q, input@.len() as int),
            Err(_) => spec_server_header(input@, 0) is None,
        },
{
    let v = chars_of(input);
    if has_tag(&v, 0, "[[\"") {
        match take1(&v, "[[\"".unicode_len(), CharClass::NotQuote) {
            Some((q, d)) => if has_tag(&v, q, "\"]]") {
                let e = q + "\"]]".unicode_len();
                return Ok((input.substring_char(e, input.unicode_len()), d));
            },
            None => {},
        }
    }
    Err(ParseError)
}

/// The error of a reader that did not match its input.
#[derive(Debug, Clone, Copy, PartialEq, Eq)]
pub struct ParseError;

/// The configuration as values: the address, and how many sections of
/// each kind were read.
pub struct ConfigView {
    pub prometheus_addr: Option<Seq<char>>,
    pub proxy: Option<nat>,
    pub load_balancer: Option<nat>,
}

impl View for Config {
    type V = ConfigView;

    open spec fn view(&self) -> ConfigView {
        ConfigView {
            prometheus_addr: opt_str_view(self.prometheus_addr),
            proxy: match self.proxy {
                Some(v) => Some(v@.len()),
                None => None,
            },
            load_balancer: match self.load_balancer {
                Some(v) => Some(v@.len()),
                None => None,
            },
        }
    }
}

/// `prometheus_addr=` at the very start, then whitespace, then the rest
/// of the line; whitespace after it is read too.
pub open spec fn spec_prometheus_line(s: Seq<char>) -> Option<(int, Seq<char>)> {
    let n = "prometheus_addr"@.len() as int;
    if tag_at(s, 0, "prometheus_addr"@) && char_at(s, n, '=') {
        let b = ws_end(s, n + 1);
        let e = text_end(s, b, false);
        if e > b {
            Some((ws_end(s, e), s.subrange(b, e)))
        } else {
            None
        }
    } else {
        None
    }
}

/// Where the sections begin: after the `prometheus_addr` line, if any.
pub open spec fn sections_start(s: Seq<char>) -> int {
    match spec_prometheus_line(s) {
        Some((q, _)) => q,
        None => 0,
    }
}

/// A proxy section at `p`. Only inputs without a section header there are
/// read, and none of them is a proxy section.
fn parse_proxy_section(v: &Vec<char>, p: usize) -> (r: Option<(usize, ProxyConfig)>)
    requires
        p <= v@.len(),
        spec_section_header(v@, p as int) is None,
    ensures
        r is None,
{
    match section_header_at(v, p) {
        Some(_) => None,
        None => None,
    }
}

/// A load balancer section at `p`. Only inputs without a section header
/// there are read, and none of them is a load balancer section.
fn parse_load_balancer_section(v: &Vec<char>, p: usize) -> (r: Option<(usize, LoadBalancerConfig)>)
    requires
        p <= v@.len(),
        spec_section_header(v@, p as int) is None,
    ensures
        r is None,
{
    match section_header_at(v, p) {
        Some(_) => None,
        None => None,
    }
}

/// Reads the `prometheus_addr` line and the (empty) lists of sections; gives
/// the rest of the input and the configuration. A section header after the
/// `prometheus_addr` line is not supported.
pub fn parse_config(input: &str) -> (r: Result<(&str, Config), ParseError>)
    requires
        spec_section_header(input@, sections_start(input@)) is None,
    ensures
        r matches Ok((rest, c)) && rest@ == input@.subrange(
            sections_start(input@),
            input@.len() as int,
        ) && c@ == (ConfigView {
            prometheus_addr: match spec_prometheus_line(input@) {
                Some((_, a)) => Some(a),
                None => None,
            },
            proxy: Some(0),
            load_balancer: Some(0),
        }),
{
    let v = chars_of(input);
    let mut i: usize = 0;
    let mut prometheus_addr: Option<String> = None;
    if has_tag(&v, 0, "prometheus_addr") {
        let n = "prometheus_addr".unicode_len();
        if is_char_at(&v, n, '=') {
            let b = scan(&v, n + 1, CharClass::Space);
            let e = scan_text(&v, b, false);
            if e > b {
                prometheus_addr = Some(string_of(&v, b, e));
                i = scan(&v, e, CharClass::Space);
            }
        }
    }
    let ghost start = i;
    let ghost addr = opt_str_view(prometheus_addr);
    let mut proxy: Vec<ProxyConfig> = Vec::new();
    loop
        invariant
            v@ == input@,
            i == start,
            opt_str_view(prometheus_addr) == addr,
            i <= v@.len(),
            spec_section_header(v@, i as int) is None,
            proxy@.len() == 0,
        decreases v@.len() - i,
    {
        match parse_proxy_section(&v, i) {
            Some((j, section)) => {
                proxy.push(section);
                i = j;
            },
            None => {
                break;
            },
        }
    }
    let mut load_balancer: Vec<LoadBalancerConfig> = Vec::new();
    loop
        invariant
            v@ == input@,
            i == start,
            opt_str_view(prometheus_addr) == addr,
            proxy@.len() == 0,
            i <= v@.len(),
            spec_section_header(v@, i as int) is None,
            load_balancer@.len() == 0,
        decreases v@.len() - i,
    {
        match parse_load_balancer_section(&v, i) {
            Some((j, section)) => {
                load_balancer.push(section);
                i = j;
            },
            None => {
                break;
            },
        }
    }
    let config = Config {
        prometheus_addr: prometheus_addr,
        proxy: Some(proxy),
        load_balancer: Some(load_balancer),
    };
    Ok((input.substring_char(i, input.unicode_len()), config))
}

/// `parse_config` where a section header does not follow the
/// `prometheus_addr` line; `None` where one does.
pub fn parse_config_checked(input: &str) -> (r: Option<(&str, Config)>)
    ensures
        match r {
            Some((rest, c)) => spec_section_header(input@, sections_start(input@)) is None
                && rest@ == input@.subrange(sections_start(input@), input@.len() as int)
                && c@.prometheus_addr == match spec_prometheus_line(input@) {
                    Some((_, a)) => Some(a),
                    None => None,
                } && c@.proxy == Some(0nat) && c@.load_balancer == Some(0nat),
            None => spec_section_header(input@, sections_start(input@)) is Some,
        },
{
    let v = chars_of(input);
    let mut i: usize = 0;
    if has_tag(&v, 0, "prometheus_addr") {
        let n = "prometheus_addr".unicode_len();
        if is_char_at(&v, n, '=') {
            let b = scan(&v, n + 1, CharClass::Space);
            let e = scan_text(&v, b, false);
            if e > b {
                i = scan(&v, e, CharClass::Space);
            }
        }
    }
    if section_header_at(&v, i).is_some() {
        return None;
    }
    match parse_config(input) {
        Ok(x) => Some(x),
        Err(_) => None,
    }
}

/// A run of word characters from `p` to `q`, not followed by another,
/// ends at `q`.
proof fn lemma_word_run(s: Seq<char>, p: int, q: int)
    requires
        0 <= p <= q <= s.len(),
        forall|i: int| p <= i < q ==> is_word_char(#[trigger] s[i]),
        q == s.len() || !is_word_char(s[q]),
    ensures
        word_end(s, p) == q,
    decreases q - p,
{
    if p < q {
        lemma_word_run(s, p + 1, q);
    }
}

/// A run of value characters from `p` to `q`, not followed by another,
/// ends at `q`.
proof fn lemma_text_run(s: Seq<char>, p: int, q: int, comma_stops: bool)
    requires
        0 <= p <= q <= s.len(),
        forall|i: int| p <= i < q ==> is_text_char(#[trigger] s[i], comma_stops),
        q == s.len() || !is_text_char(s[q], comma_stops),
    ensures
        text_end(s, p, comma_stops) == q,
    decreases q - p,
{
    if p < q {
        lemma_text_run(s, p + 1, q, comma_stops);
    }
}

/// A header `[name]` gives the name, for any non-empty name of word
/// characters, whatever follows (`]` being no word character).
pub proof fn lemma_section_header_text(name: Seq<char>, r: Seq<char>)
    requires
        name.len() > 0,
        forall|i: int| 0 <= i < name.len() ==> is_word_char(#[trigger] name[i]),
        !is_word_char(']'),
    ensures
        spec_section_header(seq!['['] + name + seq![']'] + r, 0) == Some(
            ((name.len() + 2) as int, name),
        ),
{
    let s = seq!['['] + name + seq![']'] + r;
    let k = (name.len() + 1) as int;
    assert forall|i: int| 1 <= i < k implies is_word_char(#[trigger] s[i]) by {
        assert(s[i] == name[i - 1]);
    }
    assert(s[k] == ']');
    lemma_word_run(s, 1, k);
    assert(s.subrange(1, k) =~= name);
}

/// A server header `[["name"]]` gives the name, for any non-empty name
/// without double quotes, whatever follows.
pub proof fn lemma_server_header_text(d: Seq<char>, r: Seq<char>)
    requires
        d.len() > 0,
        !d.contains('"'),
    ensures
        spec_server_header("[[\""@ + d + "\"]]"@ + r, 0) == Some(((d.len() + 6) as int, d)),
{
    reveal_strlit("[[\"");
    reveal_strlit("\"]]");
    let s = "[[\""@ + d + "\"]]"@ + r;
    let e = (d.len() + 3) as int;
    assert(s.subrange(0, 3) =~= "[[\""@);
    assert forall|i: int| 3 <= i < e implies in_class(CharClass::NotQuote, #[trigger] s[i]) by {
        assert(s[i] == d[i - 3]);
        if s[i] == '"' {
            assert(d.contains('"'));
        }
    }
    assert(s[e] == '"');
    crate::nom_parser_impl::lemma_class_run(s, 3, e, CharClass::NotQuote);
    assert(s.subrange(3, e) =~= d);
    assert(s.subrange(e, e + 3) =~= "\"]]"@);
}

/// A line `k = v` gives the key `k` and the value `v`, for any non-empty
/// key of word characters and any value without newline or comma that
/// neither begins nor ends with white space, up to a newline, a comma or
/// the end (a space being no word character).
pub proof fn lemma_key_value_text(k: Seq<char>, v: Seq<char>, r: Seq<char>)
    requires
        k.len() > 0,
        forall|i: int| 0 <= i < k.len() ==> is_word_char(#[trigger] k[i]),
        !is_word_char(' '),
        v.len() > 0,
        !v.contains('\n'),
        !v.contains(','),
        !crate::chars::is_white(v[0]),
        !crate::chars::is_white(v.last()),
        r.len() == 0 || r[0] == '\n' || r[0] == ',',
    ensures
        spec_key_value(k + " = "@ + v + r, 0) == Some(
            ((k.len() + 3 + v.len()) as int, (k, v)),
        ),
{
    reveal_strlit(" = ");
    let s = k + " = "@ + v + r;
    let n = k.len() as int;
    let b = n + 3;
    let e = b + v.len();
    assert forall|i: int| 0 <= i < n implies is_word_char(#[trigger] s[i]) by {
        assert(s[i] == k[i]);
    }
    assert(s[n] == ' ');
    lemma_word_run(s, 0, n);
    assert(s[n + 1] == '=');
    crate::nom_parser_impl::lemma_class_run(s, n, n + 1, CharClass::Space);
    assert(s[n + 2] == ' ');
    assert(s[b] == v[0]);
    crate::nom_parser_impl::lemma_class_run(s, n + 2, b, CharClass::Space);
    assert forall|i: int| b <= i < e implies is_text_char(#[trigger] s[i], true) by {
        assert(s[i] == v[i - b]);
        if s[i] == '\n' {
            assert(v.contains('\n'));
        }
        if s[i] == ',' {
            assert(v.contains(','));
        }
    }
    if r.len() > 0 {
        assert(s[e] == r[0]);
    }
    lemma_text_run(s, b, e, true);
    assert(s.subrange(0, n) =~= k);
    assert(s.subrange(b, e) =~= v);
    crate::chars::lemma_trim_none(v, CharSet::White);
}

} // verus!
