//! The grammar-based parser of the configuration language: a document is
//! an optional `prometheus_addr` followed by `[proxy]` and
//! `[load_balancer]` sections, each with its keys and its domain blocks.
//!
//! Whitespace, newlines included, may stand before every token.
use vstd::prelude::*;
use crate::lexer::{
    in_class, lemma_class_end,
    parse_bool, char_at, class_end, headers_item, is_char_at, kv_bool, kv_u64, kv_value, lift,
    opt_pairs_view, opt_str_view, pairs_view, scan, spec_headers_item, spec_kv_bool,
    spec_kv_u64, spec_kv_value, spec_take1, str_result, strings_view, take1, parse_vector, keyed,
    spec_keyed, spec_vector, ws_end, CharClass, HeadersView,
};
use crate::str_map::StrMap;
use crate::text::{chars_of, has_tag, tag_at};

verus! {

broadcast use vstd::string::group_string_axioms;

/// The whole configuration.
#[derive(Debug)]
pub struct Config {
    pub prometheus_addr: Option<String>,
    pub proxy: Option<Vec<ProxyConfig>>,
    pub load_balancer: Option<Vec<LoadBalancerConfig>>,
}

/// One `[load_balancer]` section.
#[derive(Debug)]
pub struct LoadBalancerConfig {
    pub listener: String,
    pub upstreams: Vec<String>,
    pub health_check: Option<bool>,
    pub health_check_frequency: Option<u64>,
    pub parallel_health_check: Option<bool>,
    pub tls_certificate: Option<String>,
    pub tls_certificate_key: Option<String>,
    pub servers: StrMap<LBHostConfig>,
}

/// The settings of one domain of a load balancer.
#[derive(Debug)]
pub struct LBHostConfig {
    pub load_balancer_tls: bool,
    pub load_balancer_headers: Option<Vec<(String, String)>>,
}

/// One `[proxy]` section.
#[derive(Debug)]
pub struct ProxyConfig {
    pub listener: String,
    pub tls_certificate: Option<String>,
    pub tls_certificate_key: Option<String>,
    pub servers: StrMap<ProxyHostConfig>,
}

/// The settings of one domain of a proxy.
#[derive(Debug)]
pub struct ProxyHostConfig {
    pub proxy_addr: String,
    pub proxy_tls: bool,
    pub proxy_headers: Option<Vec<(String, String)>>,
    pub proxy_uds: Option<bool>,
    pub routes: Option<StrMap<ProxyPathBaseHostConfig>>,
}

/// The settings of one route of a proxied domain.
#[derive(Debug)]
pub struct ProxyPathBaseHostConfig {
    pub proxy_addr: Option<String>,
    pub proxy_tls: Option<bool>,
    pub proxy_headers: Option<Vec<(String, String)>>,
    pub proxy_uds: Option<bool>,
}

/// A route's settings as values.
pub struct RouteView {
    pub proxy_addr: Option<Seq<char>>,
    pub proxy_tls: Option<bool>,
    pub proxy_headers: Option<HeadersView>,
    pub proxy_uds: Option<bool>,
}

/// A proxied domain's settings as values.
pub struct HostView {
    pub proxy_addr: Seq<char>,
    pub proxy_tls: bool,
    pub proxy_headers: Option<HeadersView>,
    pub proxy_uds: Option<bool>,
    pub routes: Option<Map<Seq<char>, RouteView>>,
}

/// A proxy section as values.
pub struct ProxyView {
    pub listener: Seq<char>,
    pub tls_certificate: Option<Seq<char>>,
    pub tls_certificate_key: Option<Seq<char>>,
    pub servers: Map<Seq<char>, HostView>,
}

/// A load balancer's domain settings as values.
pub struct LBHostView {
    pub load_balancer_tls: bool,
    pub load_balancer_headers: Option<HeadersView>,
}

/// A load balancer section as values.
pub struct LBView {
    pub listener: Seq<char>,
    pub upstreams: Seq<Seq<char>>,
    pub health_check: Option<bool>,
    pub health_check_frequency: Option<u64>,
    pub parallel_health_check: Option<bool>,
    pub tls_certificate: Option<Seq<char>>,
    pub tls_certificate_key: Option<Seq<char>>,
    pub servers: Map<Seq<char>, LBHostView>,
}

/// The whole configuration as values.
pub struct ConfigView {
    pub prometheus_addr: Option<Seq<char>>,
    pub proxy: Option<Seq<ProxyView>>,
    pub load_balancer: Option<Seq<LBView>>,
}

impl View for ProxyPathBaseHostConfig {
    type V = RouteView;

    open spec fn view(&self) -> RouteView {
        RouteView {
            proxy_addr: opt_str_view(self.proxy_addr),
            proxy_tls: self.proxy_tls,
            proxy_headers: opt_pairs_view(self.proxy_headers),
            proxy_uds: self.proxy_uds,
        }
    }
}

impl View for ProxyHostConfig {
    type V = HostView;

    open spec fn view(&self) -> HostView {
        HostView {
            proxy_addr: self.proxy_addr@,
            proxy_tls: self.proxy_tls,
            proxy_headers: opt_pairs_view(self.proxy_headers),
            proxy_uds: self.proxy_uds,
            routes: match self.routes {
                Some(m) => Some(m@),
                None => None,
            },
        }
    }
}

impl View for ProxyConfig {
    type V = ProxyView;

    open spec fn view(&self) -> ProxyView {
        ProxyView {
            listener: self.listener@,
            tls_certificate: opt_str_view(self.tls_certificate),
            tls_certificate_key: opt_str_view(self.tls_certificate_key),
            servers: self.servers@,
        }
    }
}

impl View for LBHostConfig {
    type V = LBHostView;

    open spec fn view(&self) -> LBHostView {
        LBHostView {
            load_balancer_tls: self.load_balancer_tls,
            load_balancer_headers: opt_pairs_view(self.load_balancer_headers),
        }
    }
}

impl View for LoadBalancerConfig {
    type V = LBView;

    open spec fn view(&self) -> LBView {
        LBView {
            listener: self.listener@,
            upstreams: strings_view(self.upstreams@),
            health_check: self.health_check,
            health_check_frequency: self.health_check_frequency,
            parallel_health_check: self.parallel_health_check,
            tls_certificate: opt_str_view(self.tls_certificate),
            tls_certificate_key: opt_str_view(self.tls_certificate_key),
            servers: self.servers@,
        }
    }
}

/// Proxy sections taken by their views.
pub open spec fn proxies_view(v: Seq<ProxyConfig>) -> Seq<ProxyView> {
    v.map_values(|c: ProxyConfig| c@)
}

/// Load balancer sections taken by their views.
pub open spec fn lbs_view(v: Seq<LoadBalancerConfig>) -> Seq<LBView> {
    v.map_values(|c: LoadBalancerConfig| c@)
}

impl View for Config {
    type V = ConfigView;

    open spec fn view(&self) -> ConfigView {
        ConfigView {
            prometheus_addr: opt_str_view(self.prometheus_addr),
            proxy: match self.proxy {
                Some(v) => Some(proxies_view(v@)),
                None => None,
            },
            load_balancer: match self.load_balancer {
                Some(v) => Some(lbs_view(v@)),
                None => None,
            },
        }
    }
}

/// A route with nothing set.
pub open spec fn route_default() -> RouteView {
    RouteView { proxy_addr: None, proxy_tls: None, proxy_headers: None, proxy_uds: None }
}

/// A proxied domain with nothing set.
pub open spec fn host_default() -> HostView {
    HostView {
        proxy_addr: Seq::empty(),
        proxy_tls: false,
        proxy_headers: None,
        proxy_uds: None,
        routes: None,
    }
}

/// A load balancer domain with nothing set.
pub open spec fn lb_host_default() -> LBHostView {
    LBHostView { load_balancer_tls: false, load_balancer_headers: None }
}

impl Default for ProxyPathBaseHostConfig {
    fn default() -> (r: Self)
        ensures
            r@ == route_default(),
    {
        ProxyPathBaseHostConfig { proxy_addr: None, proxy_tls: None, proxy_headers: None, proxy_uds: None }
    }
}

impl Default for ProxyHostConfig {
    fn default() -> (r: Self)
        ensures
            r@ == host_default(),
    {
        ProxyHostConfig {
            proxy_addr: String::new(),
            proxy_tls: false,
            proxy_headers: None,
            proxy_uds: None,
            routes: None,
        }
    }
}

impl Default for LBHostConfig {
    fn default() -> (r: Self)
        ensures
            r@ == lb_host_default(),
    {
        LBHostConfig { load_balancer_tls: false, load_balancer_headers: None }
    }
}

/// The error of a parser that did not match its input.
#[derive(Debug, Clone, Copy, PartialEq, Eq)]
pub struct ParseError;

// ---------------------------------------------------------------------
// Keys
// ---------------------------------------------------------------------

/// `listener = value`.
fn parse_listener(v: &Vec<char>, p: usize) -> (r: Option<(usize, String)>)
    requires
        p <= v@.len(),
    ensures
        str_result(r) == spec_kv_value(v@, p as int, "listener"@),
        r matches Some((q, _)) ==> p < q <= v@.len(),
{
    kv_value(v, p, "listener")
}

/// `tls_certificate = value`.
fn parse_tls_certificate(v: &Vec<char>, p: usize) -> (r: Option<(usize, String)>)
    requires
        p <= v@.len(),
    ensures
        str_result(r) == spec_kv_value(v@, p as int, "tls_certificate"@),
        r matches Some((q, _)) ==> p < q <= v@.len(),
{
    kv_value(v, p, "tls_certificate")
}

/// `tls_certificate_key = value`.
fn parse_tls_certificate_key(v: &Vec<char>, p: usize) -> (r: Option<(usize, String)>)
    requires
        p <= v@.len(),
    ensures
        str_result(r) == spec_kv_value(v@, p as int, "tls_certificate_key"@),
        r matches Some((q, _)) ==> p < q <= v@.len(),
{
    kv_value(v, p, "tls_certificate_key")
}

/// `proxy_addr = value`.
fn parse_proxy_addr(v: &Vec<char>, p: usize) -> (r: Option<(usize, String)>)
    requires
        p <= v@.len(),
    ensures
        str_result(r) == spec_kv_value(v@, p as int, "proxy_addr"@),
        r matches Some((q, _)) ==> p < q <= v@.len(),
{
    kv_value(v, p, "proxy_addr")
}

/// `proxy_tls = bool`.
fn parse_proxy_tls(v: &Vec<char>, p: usize) -> (r: Option<(usize, bool)>)
    requires
        p <= v@.len(),
    ensures
        lift(r) == spec_kv_bool(v@, p as int, "proxy_tls"@),
        r matches Some((q, _)) ==> p < q <= v@.len(),
{
    kv_bool(v, p, "proxy_tls")
}

/// `proxy_uds = bool`.
fn parse_proxy_uds(v: &Vec<char>, p: usize) -> (r: Option<(usize, bool)>)
    requires
        p <= v@.len(),
    ensures
        lift(r) == spec_kv_bool(v@, p as int, "proxy_uds"@),
        r matches Some((q, _)) ==> p < q <= v@.len(),
{
    kv_bool(v, p, "proxy_uds")
}

/// `prometheus_addr = value`, read from the start of `input`; gives the
/// rest of the input and the value.
pub fn parse_prometheus_addr(input: &str) -> (r: Result<(&str, String), ParseError>)
    ensures
        match r {
            Ok((rest, x)) => exists|q: int| spec_kv_value(input@, 0, "prometheus_addr"@)
                == Some((q, x@)) && rest@ == input@.subrange(q, input@.len() as int),
            Err(_) => spec_kv_value(input@, 0, "prometheus_addr"@) is None,
        },
{
    let v = chars_of(input);
    match kv_value(&v, 0, "prometheus_addr") {
        Some((q, x)) => Ok((input.substring_char(q, input.unicode_len()), x)),
        None => Err(ParseError),
    }
}

/// `health_check = bool`.
fn parse_health_check(v: &Vec<char>, p: usize) -> (r: Option<(usize, bool)>)
    requires
        p <= v@.len(),
    ensures
        lift(r) == spec_kv_bool(v@, p as int, "health_check"@),
        r matches Some((q, _)) ==> p < q <= v@.len(),
{
    kv_bool(v, p, "health_check")
}

/// `health_check_frequency = digits`.
fn parse_health_check_frequency(v: &Vec<char>, p: usize) -> (r: Option<(usize, u64)>)
    requires
        p <= v@.len(),
    ensures
        lift(r) == spec_kv_u64(v@, p as int, "health_check_frequency"@),
        r matches Some((q, _)) ==> p < q <= v@.len(),
{
    kv_u64(v, p, "health_check_frequency")
}

/// `parallel_health_check = bool`.
fn parse_parallel_health_check(v: &Vec<char>, p: usize) -> (r: Option<(usize, bool)>)
    requires
        p <= v@.len(),
    ensures
        lift(r) == spec_kv_bool(v@, p as int, "parallel_health_check"@),
        r matches Some((q, _)) ==> p < q <= v@.len(),
{
    kv_bool(v, p, "parallel_health_check")
}

/// `load_balancer_tls = bool`.
fn parse_load_balancer_tls(v: &Vec<char>, p: usize) -> (r: Option<(usize, bool)>)
    requires
        p <= v@.len(),
    ensures
        lift(r) == spec_kv_bool(v@, p as int, "load_balancer_tls"@),
        r matches Some((q, _)) ==> p < q <= v@.len(),
{
    kv_bool(v, p, "load_balancer_tls")
}

// ---------------------------------------------------------------------
// Section headers
// ---------------------------------------------------------------------

/// `[name]` with whitespace around it.
pub open spec fn spec_section(s: Seq<char>, p: int, name: Seq<char>) -> Option<int> {
    let a = ws_end(s, p);
    if char_at(s, a, '[') && tag_at(s, a + 1, name) && char_at(s, a + 1 + name.len(), ']') {
        Some(ws_end(s, a + 2 + name.len()))
    } else {
        None
    }
}

/// Reads `[name]` with whitespace around it at `p`.
fn section(v: &Vec<char>, p: usize, name: &str) -> (r: Option<usize>)
    requires
        p <= v@.len(),
    ensures
        match r {
            Some(q) => spec_section(v@, p as int, name@) == Some(q as int) && p < q <= v@.len(),
            None => spec_section(v@, p as int, name@) is None,
        },
{
    let a = scan(v, p, CharClass::Space);
    if is_char_at(v, a, '[') && has_tag(v, a + 1, name) {
        let n = name.unicode_len();
        if is_char_at(v, a + 1 + n, ']') {
            return Some(scan(v, a + 2 + n, CharClass::Space));
        }
    }
    None
}

/// `[proxy]`.
fn parse_proxy_section(v: &Vec<char>, p: usize) -> (r: Option<usize>)
    requires
        p <= v@.len(),
    ensures
        match r {
            Some(q) => spec_section(v@, p as int, "proxy"@) == Some(q as int) && p < q <= v@.len(),
            None => spec_section(v@, p as int, "proxy"@) is None,
        },
{
    section(v, p, "proxy")
}

/// `[load_balancer]`.
fn parse_load_balancer_section(v: &Vec<char>, p: usize) -> (r: Option<usize>)
    requires
        p <= v@.len(),
    ensures
        match r {
            Some(q) => spec_section(v@, p as int, "load_balancer"@) == Some(q as int) && p < q
                <= v@.len(),
            None => spec_section(v@, p as int, "load_balancer"@) is None,
        },
{
    section(v, p, "load_balancer")
}

/// The end of the first of the words `a`, `b`, `c` that stands at `p`.
pub open spec fn spec_one_of(s: Seq<char>, p: int, a: Seq<char>, b: Seq<char>, c: Seq<char>) -> Option<int> {
    if tag_at(s, p, a) {
        Some(p + a.len())
    } else if tag_at(s, p, b) {
        Some(p + b.len())
    } else if tag_at(s, p, c) {
        Some(p + c.len())
    } else {
        None
    }
}

/// Reads the first of the words `a`, `b`, `c` that stands at `p`.
fn one_of(v: &Vec<char>, p: usize, a: &str, b: &str, c: &str) -> (r: Option<usize>)
    requires
        p <= v@.len(),
    ensures
        pos_of(r) == spec_one_of(v@, p as int, a@, b@, c@),
        r matches Some(q) ==> p <= q <= v@.len(),
{
    if has_tag(v, p, a) {
        Some(p + a.unicode_len())
    } else if has_tag(v, p, b) {
        Some(p + b.unicode_len())
    } else if has_tag(v, p, c) {
        Some(p + c.unicode_len())
    } else {
        None
    }
}

/// A position taken as an integer.
pub open spec fn pos_of(r: Option<usize>) -> Option<int> {
    match r {
        Some(q) => Some(q as int),
        None => None,
    }
}

/// A block header `open kw = value close` where `kw` is one of three words;
/// gives the value.
pub open spec fn spec_block_header(
    s: Seq<char>,
    p: int,
    depth: int,
    a: Seq<char>,
    b: Seq<char>,
    c: Seq<char>,
) -> Option<(int, Seq<char>)> {
    let o = ws_end(s, p);
    if opens(s, o, depth) {
        match spec_one_of(s, ws_end(s, o + depth), a, b, c) {
            Some(k) => {
                let e = ws_end(s, k);
                if char_at(s, e, '=') {
                    match spec_take1(s, ws_end(s, e + 1), CharClass::Value) {
                        Some((f, x)) => {
                            let g = ws_end(s, f);
                            if closes(s, g, depth) {
                                Some((ws_end(s, g + depth), x))
                            } else {
                                None
                            }
                        },
                        None => None,
                    }
                } else {
                    None
                }
            },
            None => None,
        }
    } else {
        None
    }
}

/// `depth` opening brackets at `p`.
pub open spec fn opens(s: Seq<char>, p: int, depth: int) -> bool {
    0 <= p && p + depth <= s.len() && forall|i: int| p <= i < p + depth ==> s[i] == '['
}

/// `depth` closing brackets at `p`.
pub open spec fn closes(s: Seq<char>, p: int, depth: int) -> bool {
    0 <= p && p + depth <= s.len() && forall|i: int| p <= i < p + depth ==> s[i] == ']'
}

/// Checks for `depth` copies of `c` at `p`.
fn repeated(v: &Vec<char>, p: usize, depth: usize, c: char) -> (b: bool)
    requires
        p <= v@.len(),
    ensures
        b == (p + depth <= v@.len() && forall|i: int| p <= i < p + depth ==> v@[i] == c),
        b ==> p + depth <= v.len(),
{
    if depth > v.len() - p {
        return false;
    }
    let mut i: usize = 0;
    while i < depth
        invariant
            p + depth <= v.len(),
            i <= depth,
            forall|j: int| p <= j < p + i ==> v@[j] == c,
        decreases depth - i,
    {
        if v[p + i] != c {
            return false;
        }
        i = i + 1;
    }
    true
}

/// Reads a block header at `p`.
fn block_header(v: &Vec<char>, p: usize, depth: usize, a: &str, b: &str, c: &str) -> (r: Option<(usize, String)>)
    requires
        p <= v@.len(),
        depth == 2 || depth == 3,
    ensures
        str_result(r) == spec_block_header(v@, p as int, depth as int, a@, b@, c@),
        r matches Some((q, _)) ==> p < q <= v@.len(),
{
    let o = scan(v, p, CharClass::Space);
    if !repeated(v, o, depth, '[') {
        return None;
    }
    let w = scan(v, o + depth, CharClass::Space);
    match one_of(v, w, a, b, c) {
        Some(k) => {
            let e = scan(v, k, CharClass::Space);
            if is_char_at(v, e, '=') {
                let d = scan(v, e + 1, CharClass::Space);
                match take1(v, d, CharClass::Value) {
                    Some((f, x)) => {
                        let g = scan(v, f, CharClass::Space);
                        if repeated(v, g, depth, ']') {
                            Some((scan(v, g + depth, CharClass::Space), x))
                        } else {
                            None
                        }
                    },
                    None => None,
                }
            } else {
                None
            }
        },
        None => None,
    }
}

/// `[[domain = value]]`, where `host` or `ip` may stand for `domain`.
pub open spec fn spec_domain_section(s: Seq<char>, p: int) -> Option<(int, Seq<char>)> {
    spec_block_header(s, p, 2, "domain"@, "host"@, "ip"@)
}

/// Reads a domain block header at `p`.
fn parse_domain_section(v: &Vec<char>, p: usize) -> (r: Option<(usize, String)>)
    requires
        p <= v@.len(),
    ensures
        str_result(r) == spec_domain_section(v@, p as int),
        r matches Some((q, _)) ==> p < q <= v@.len(),
{
    block_header(v, p, 2, "domain", "host", "ip")
}

/// `[[[route = value]]]`, where `path` may stand for `route`.
pub open spec fn spec_path_section(s: Seq<char>, p: int) -> Option<(int, Seq<char>)> {
    spec_block_header(s, p, 3, "route"@, "path"@, "path"@)
}

/// Reads a route block header at `p`.
fn parse_path_section(v: &Vec<char>, p: usize) -> (r: Option<(usize, String)>)
    requires
        p <= v@.len(),
    ensures
        str_result(r) == spec_path_section(v@, p as int),
        r matches Some((q, _)) ==> p < q <= v@.len(),
{
    block_header(v, p, 3, "route", "path", "path")
}

// ---------------------------------------------------------------------
// Proxy domains and routes
// ---------------------------------------------------------------------

/// One setting of a proxied domain or route, as values.
pub enum ProxyItemView {
    Addr(Seq<char>),
    Tls(bool),
    Uds(bool),
    Headers(HeadersView),
}

/// One setting of a proxied domain or route.
pub enum ProxyItem {
    Addr(String),
    Tls(bool),
    Uds(bool),
    Headers(Vec<(String, String)>),
}

impl View for ProxyItem {
    type V = ProxyItemView;

    open spec fn view(&self) -> ProxyItemView {
        match self {
            ProxyItem::Addr(x) => ProxyItemView::Addr(x@),
            ProxyItem::Tls(b) => ProxyItemView::Tls(*b),
            ProxyItem::Uds(b) => ProxyItemView::Uds(*b),
            ProxyItem::Headers(h) => ProxyItemView::Headers(pairs_view(h@)),
        }
    }
}

/// The first of `proxy_addr = value`, `proxy_tls = bool`,
/// `proxy_uds = bool` and a header list (with or without
/// `proxy_headers = ` before it) that stands at `p`.
pub open spec fn spec_proxy_item(s: Seq<char>, p: int) -> Option<(int, ProxyItemView)> {
    match spec_kv_value(s, p, "proxy_addr"@) {
        Some((q, x)) => Some((q, ProxyItemView::Addr(x))),
        None => match spec_kv_bool(s, p, "proxy_tls"@) {
            Some((q, b)) => Some((q, ProxyItemView::Tls(b))),
            None => match spec_kv_bool(s, p, "proxy_uds"@) {
                Some((q, b)) => Some((q, ProxyItemView::Uds(b))),
                None => match spec_headers_item(s, p, "proxy_headers"@) {
                    Some((q, h)) => Some((q, ProxyItemView::Headers(h))),
                    None => None,
                },
            },
        },
    }
}

/// Reads one setting of a proxied domain or route at `p`.
fn parse_proxy_item(v: &Vec<char>, p: usize) -> (r: Option<(usize, ProxyItem)>)
    requires
        p <= v@.len(),
    ensures
        match r {
            Some((q, it)) => spec_proxy_item(v@, p as int) == Some((q as int, it@)) && p < q
                <= v@.len(),
            None => spec_proxy_item(v@, p as int) is None,
        },
{
    if let Some((q, x)) = parse_proxy_addr(v, p) {
        return Some((q, ProxyItem::Addr(x)));
    }
    if let Some((q, b)) = parse_proxy_tls(v, p) {
        return Some((q, ProxyItem::Tls(b)));
    }
    if let Some((q, b)) = parse_proxy_uds(v, p) {
        return Some((q, ProxyItem::Uds(b)));
    }
    if let Some((q, h)) = headers_item(v, p, "proxy_headers") {
        return Some((q, ProxyItem::Headers(h)));
    }
    None
}

/// A route with one more setting applied.
pub open spec fn apply_route(r: RouteView, it: ProxyItemView) -> RouteView {
    match it {
        ProxyItemView::Addr(x) => RouteView { proxy_addr: Some(x), ..r },
        ProxyItemView::Tls(b) => RouteView { proxy_tls: Some(b), ..r },
        ProxyItemView::Uds(b) => RouteView { proxy_uds: Some(b), ..r },
        ProxyItemView::Headers(h) => RouteView { proxy_headers: Some(h), ..r },
    }
}

/// A proxied domain with one more setting applied.
pub open spec fn apply_host(h: HostView, it: ProxyItemView) -> HostView {
    match it {
        ProxyItemView::Addr(x) => HostView { proxy_addr: x, ..h },
        ProxyItemView::Tls(b) => HostView { proxy_tls: b, ..h },
        ProxyItemView::Uds(b) => HostView { proxy_uds: Some(b), ..h },
        ProxyItemView::Headers(hs) => HostView { proxy_headers: Some(hs), ..h },
    }
}

/// Settings read one after the other into a route, until none stands.
pub open spec fn spec_route_items(s: Seq<char>, p: int, r: RouteView) -> (int, RouteView)
    decreases s.len() - p,
{
    match spec_proxy_item(s, p) {
        Some((q, it)) => if p < q <= s.len() {
            spec_route_items(s, q, apply_route(r, it))
        } else {
            (p, r)
        },
        None => (p, r),
    }
}

/// A route: an optional route block header, then its settings. It
/// always matches, if need be with nothing set.
pub open spec fn spec_route_config(s: Seq<char>, p: int) -> (int, RouteView) {
    let start = match spec_path_section(s, p) {
        Some((q, _)) => q,
        None => p,
    };
    spec_route_items(s, start, route_default())
}

/// Reads a route at `p`.
fn parse_proxy_route_config(v: &Vec<char>, p: usize) -> (r: (usize, ProxyPathBaseHostConfig))
    requires
        p <= v@.len(),
    ensures
        spec_route_config(v@, p as int) == (r.0 as int, r.1@),
        p <= r.0 <= v@.len(),
{
    let mut route = ProxyPathBaseHostConfig::default();
    let mut i = p;
    if let Some((q, _)) = parse_path_section(v, p) {
        i = q;
    }
    loop
        invariant
            p <= i <= v@.len(),
            spec_route_config(v@, p as int) == spec_route_items(v@, i as int, route@),
        decreases v@.len() - i,
    {
        match parse_proxy_item(v, i) {
            Some((q, it)) => {
                match it {
                    ProxyItem::Addr(x) => route.proxy_addr = Some(x),
                    ProxyItem::Tls(b) => route.proxy_tls = Some(b),
                    ProxyItem::Uds(b) => route.proxy_uds = Some(b),
                    ProxyItem::Headers(h) => route.proxy_headers = Some(h),
                }
                i = q;
            },
            None => {
                return (i, route);
            },
        }
    }
}

/// Settings read one after the other into a proxied domain, until none
/// stands.
pub open spec fn spec_host_items(s: Seq<char>, p: int, h: HostView) -> (int, HostView)
    decreases s.len() - p,
{
    match spec_proxy_item(s, p) {
        Some((q, it)) => if p < q <= s.len() {
            spec_host_items(s, q, apply_host(h, it))
        } else {
            (p, h)
        },
        None => (p, h),
    }
}

/// The key under which a route is filed: its address, or `default`.
pub open spec fn route_key(r: RouteView) -> Seq<char> {
    match r.proxy_addr {
        Some(a) => a,
        None => "default"@,
    }
}

/// A proxied domain: its block header, its settings, then one route,
/// filed under its address.
pub open spec fn spec_proxy_domain_config(s: Seq<char>, p: int) -> Option<(int, (Seq<char>, HostView))> {
    match spec_domain_section(s, p) {
        Some((q, d)) => {
            let (e, h) = spec_host_items(s, q, host_default());
            let (f, route) = spec_route_config(s, e);
            Some(
                (
                    f,
                    (
                        d,
                        HostView {
                            routes: Some(Map::empty().insert(route_key(route), route)),
                            ..h
                        },
                    ),
                ),
            )
        },
        None => None,
    }
}

/// Reads a proxied domain at `p`.
fn parse_proxy_domain_config(v: &Vec<char>, p: usize) -> (r: Option<(usize, (String, ProxyHostConfig))>)
    requires
        p <= v@.len(),
    ensures
        match r {
            Some((q, (d, h))) => spec_proxy_domain_config(v@, p as int) == Some(
                (q as int, (d@, h@)),
            ) && p < q <= v@.len(),
            None => spec_proxy_domain_config(v@, p as int) is None,
        },
{
    let (q, d) = match parse_domain_section(v, p) {
        Some(x) => x,
        None => {
            return None;
        },
    };
    let mut host = ProxyHostConfig::default();
    let mut i = q;
    loop
        invariant
            q <= i <= v@.len(),
            spec_host_items(v@, q as int, host_default()) == spec_host_items(v@, i as int, host@),
            host.routes is None,
        ensures
            q <= i <= v@.len(),
            spec_host_items(v@, q as int, host_default()) == (i as int, host@),
            host.routes is None,
        decreases v@.len() - i,
    {
        match parse_proxy_item(v, i) {
            Some((j, it)) => {
                match it {
                    ProxyItem::Addr(x) => host.proxy_addr = x,
                    ProxyItem::Tls(b) => host.proxy_tls = b,
                    ProxyItem::Uds(b) => host.proxy_uds = Some(b),
                    ProxyItem::Headers(h) => host.proxy_headers = Some(h),
                }
                i = j;
            },
            None => {
                break ;
            },
        }
    }
    let (f, route) = parse_proxy_route_config(v, i);
    let key = match &route.proxy_addr {
        Some(a) => a.clone(),
        None => String::from_str("default"),
    };
    let mut routes = StrMap::new();
    routes.insert(key, route);
    host.routes = Some(routes);
    Some((f, (d, host)))
}

/// Proxied domains read one after the other into `m`, until none stands.
pub open spec fn spec_proxy_domains(s: Seq<char>, p: int, m: Map<Seq<char>, HostView>) -> (int, Map<Seq<char>, HostView>)
    decreases s.len() - p,
{
    match spec_proxy_domain_config(s, p) {
        Some((q, (d, h))) => if p < q <= s.len() {
            spec_proxy_domains(s, q, m.insert(d, h))
        } else {
            (p, m)
        },
        None => (p, m),
    }
}

/// `tls_certificate = value` followed by `tls_certificate_key = value`;
/// where the pair is not complete, neither is read.
pub open spec fn spec_tls_pair(s: Seq<char>, p: int) -> (int, Option<Seq<char>>, Option<Seq<char>>) {
    match spec_kv_value(s, p, "tls_certificate"@) {
        Some((i, c)) => match spec_kv_value(s, i, "tls_certificate_key"@) {
            Some((j, k)) => (j, Some(c), Some(k)),
            None => (p, None, None),
        },
        None => (p, None, None),
    }
}

/// Reads a certificate and its key at `p`.
fn tls_pair(v: &Vec<char>, p: usize) -> (r: (usize, Option<String>, Option<String>))
    requires
        p <= v@.len(),
    ensures
        spec_tls_pair(v@, p as int) == (r.0 as int, opt_str_view(r.1), opt_str_view(r.2)),
        p <= r.0 <= v@.len(),
{
    if let Some((i, c)) = parse_tls_certificate(v, p) {
        if let Some((j, k)) = parse_tls_certificate_key(v, i) {
            return (j, Some(c), Some(k));
        }
    }
    (p, None, None)
}

/// A proxy section: `[proxy]`, `listener = value` (required), an
/// optional certificate and key, then its domains.
pub open spec fn spec_proxy_config(s: Seq<char>, p: int) -> Option<(int, ProxyView)> {
    match spec_section(s, p, "proxy"@) {
        Some(a) => match spec_kv_value(s, a, "listener"@) {
            Some((b, l)) => {
                let (c, cert, key) = spec_tls_pair(s, b);
                let (e, servers) = spec_proxy_domains(s, c, Map::empty());
                Some(
                    (
                        e,
                        ProxyView {
                            listener: l,
                            tls_certificate: cert,
                            tls_certificate_key: key,
                            servers: servers,
                        },
                    ),
                )
            },
            None => None,
        },
        None => None,
    }
}

/// Reads a proxy section at `p`.
fn proxy_config_at(v: &Vec<char>, p: usize) -> (r: Option<(usize, ProxyConfig)>)
    requires
        p <= v@.len(),
    ensures
        match r {
            Some((q, c)) => spec_proxy_config(v@, p as int) == Some((q as int, c@)) && p < q
                <= v@.len(),
            None => spec_proxy_config(v@, p as int) is None,
        },
{
    let a = match parse_proxy_section(v, p) {
        Some(a) => a,
        None => {
            return None;
        },
    };
    let (b, listener) = match parse_listener(v, a) {
        Some(x) => x,
        None => {
            return None;
        },
    };
    let (c, cert, key) = tls_pair(v, b);
    let mut servers = StrMap::new();
    let mut i = c;
    loop
        invariant
            c <= i <= v@.len(),
            p < a < b <= c,
            spec_proxy_domains(v@, c as int, Map::empty()) == spec_proxy_domains(
                v@,
                i as int,
                servers@,
            ),
        ensures
            c <= i <= v@.len(),
            p < a < b <= c,
            spec_proxy_domains(v@, c as int, Map::empty()) == (i as int, servers@),
        decreases v@.len() - i,
    {
        match parse_proxy_domain_config(v, i) {
            Some((j, (d, h))) => {
                servers.insert(d, h);
                i = j;
            },
            None => {
                break ;
            },
        }
    }
    Some(
        (
            i,
            ProxyConfig {
                listener: listener,
                tls_certificate: cert,
                tls_certificate_key: key,
                servers: servers,
            },
        ),
    )
}

/// Reads a proxy section from the start of `input`; gives the rest of the
/// input and the section.
pub fn parse_proxy_config(input: &str) -> (r: Result<(&str, ProxyConfig), ParseError>)
    ensures
        match r {
            Ok((rest, c)) => exists|q: int| spec_proxy_config(input@, 0) == Some((q, c@))
                && rest@ == input@.subrange(q, input@.len() as int),
            Err(_) => spec_proxy_config(input@, 0) is None,
        },
{
    let v = chars_of(input);
    match proxy_config_at(&v, 0) {
        Some((q, c)) => Ok((input.substring_char(q, input.unicode_len()), c)),
        None => Err(ParseError),
    }
}

// ---------------------------------------------------------------------
// Load balancers
// ---------------------------------------------------------------------

/// A load balancer domain: its block header, then an optional
/// `load_balancer_tls = bool`, then an optional header list (with or
/// without `load_balancer_headers = ` before it).
pub open spec fn spec_lb_domain_config(s: Seq<char>, p: int) -> Option<(int, (Seq<char>, LBHostView))> {
    match spec_domain_section(s, p) {
        Some((q, d)) => {
            let (a, tls) = match spec_kv_bool(s, q, "load_balancer_tls"@) {
                Some((i, t)) => (i, t),
                None => (q, false),
            };
            let (b, hs) = match spec_headers_item(s, a, "load_balancer_headers"@) {
                Some((i, h)) => (i, Some(h)),
                None => (a, None),
            };
            Some((b, (d, LBHostView { load_balancer_tls: tls, load_balancer_headers: hs })))
        },
        None => None,
    }
}

/// Reads a load balancer domain at `p`.
fn parse_lb_domain_config(v: &Vec<char>, p: usize) -> (r: Option<(usize, (String, LBHostConfig))>)
    requires
        p <= v@.len(),
    ensures
        match r {
            Some((q, (d, h))) => spec_lb_domain_config(v@, p as int) == Some((q as int, (d@, h@)))
                && p < q <= v@.len(),
            None => spec_lb_domain_config(v@, p as int) is None,
        },
{
    let (q, d) = match parse_domain_section(v, p) {
        Some(x) => x,
        None => {
            return None;
        },
    };
    let mut host = LBHostConfig::default();
    let mut i = q;
    if let Some((j, tls)) = parse_load_balancer_tls(v, i) {
        host.load_balancer_tls = tls;
        i = j;
    }
    if let Some((j, hs)) = headers_item(v, i, "load_balancer_headers") {
        host.load_balancer_headers = Some(hs);
        i = j;
    }
    Some((i, (d, host)))
}

/// `upstreams = [value, ...]`; where it does not stand, no upstream is read.
pub open spec fn spec_upstreams(s: Seq<char>, p: int) -> (int, Seq<Seq<char>>) {
    match spec_keyed(s, p, "upstreams"@) {
        Some(i) => match spec_vector(s, i) {
            Some((j, u)) => (j, u),
            None => (p, Seq::empty()),
        },
        None => (p, Seq::empty()),
    }
}

/// An optional result: the position moves only where it matched.
pub open spec fn opt_step<T>(r: Option<(int, T)>, p: int) -> (int, Option<T>) {
    match r {
        Some((q, x)) => (q, Some(x)),
        None => (p, None),
    }
}

/// A load balancer section: `[load_balancer]`, `listener = value`
/// (required), then optionally and in this order the upstreams, a
/// certificate and key, `health_check`, `health_check_frequency`,
/// `parallel_health_check` and one domain.
pub open spec fn spec_lb_main_config(s: Seq<char>, p: int) -> Option<(int, LBView)> {
    match spec_section(s, p, "load_balancer"@) {
        Some(a) => match spec_kv_value(s, a, "listener"@) {
            Some((b, l)) => {
                let (c, ups) = spec_upstreams(s, b);
                let (d, cert, key) = spec_tls_pair(s, c);
                let (e, hc) = opt_step(spec_kv_bool(s, d, "health_check"@), d);
                let (f, freq) = opt_step(spec_kv_u64(s, e, "health_check_frequency"@), e);
                let (g, par) = opt_step(spec_kv_bool(s, f, "parallel_health_check"@), f);
                let (h, servers) = match spec_lb_domain_config(s, g) {
                    Some((i, (dom, host))) => (i, Map::empty().insert(dom, host)),
                    None => (g, Map::empty()),
                };
                Some(
                    (
                        h,
                        LBView {
                            listener: l,
                            upstreams: ups,
                            health_check: hc,
                            health_check_frequency: freq,
                            parallel_health_check: par,
                            tls_certificate: cert,
                            tls_certificate_key: key,
                            servers: servers,
                        },
                    ),
                )
            },
            None => None,
        },
        None => None,
    }
}

/// Reads a load balancer section at `p`.
fn lb_main_config_at(v: &Vec<char>, p: usize) -> (r: Option<(usize, LoadBalancerConfig)>)
    requires
        p <= v@.len(),
    ensures
        match r {
            Some((q, c)) => spec_lb_main_config(v@, p as int) == Some((q as int, c@)) && p < q
                <= v@.len(),
            None => spec_lb_main_config(v@, p as int) is None,
        },
{
    let a = match parse_load_balancer_section(v, p) {
        Some(a) => a,
        None => {
            return None;
        },
    };
    let (b, listener) = match parse_listener(v, a) {
        Some(x) => x,
        None => {
            return None;
        },
    };
    let mut i = b;
    let mut upstreams: Vec<String> = Vec::new();
    if let Some(k) = keyed(v, i, "upstreams") {
        if let Some((j, u)) = parse_vector(v, k) {
            upstreams = u;
            i = j;
        }
    }
    assert(strings_view(upstreams@) =~= spec_upstreams(v@, b as int).1);
    let (c, cert, key) = tls_pair(v, i);
    i = c;
    let mut health_check: Option<bool> = None;
    if let Some((j, x)) = parse_health_check(v, i) {
        health_check = Some(x);
        i = j;
    }
    let mut frequency: Option<u64> = None;
    if let Some((j, x)) = parse_health_check_frequency(v, i) {
        frequency = Some(x);
        i = j;
    }
    let mut parallel: Option<bool> = None;
    if let Some((j, x)) = parse_parallel_health_check(v, i) {
        parallel = Some(x);
        i = j;
    }
    let mut servers = StrMap::new();
    if let Some((j, (d, h))) = parse_lb_domain_config(v, i) {
        servers.insert(d, h);
        i = j;
    }
    Some(
        (
            i,
            LoadBalancerConfig {
                listener: listener,
                upstreams: upstreams,
                health_check: health_check,
                health_check_frequency: frequency,
                parallel_health_check: parallel,
                tls_certificate: cert,
                tls_certificate_key: key,
                servers: servers,
            },
        ),
    )
}

/// Reads a load balancer section from the start of `input`; gives the rest
/// of the input and the section.
pub fn parse_lb_main_config(input: &str) -> (r: Result<(&str, LoadBalancerConfig), ParseError>)
    ensures
        match r {
            Ok((rest, c)) => exists|q: int| spec_lb_main_config(input@, 0) == Some((q, c@))
                && rest@ == input@.subrange(q, input@.len() as int),
            Err(_) => spec_lb_main_config(input@, 0) is None,
        },
{
    let v = chars_of(input);
    match lb_main_config_at(&v, 0) {
        Some((q, c)) => Ok((input.substring_char(q, input.unicode_len()), c)),
        None => Err(ParseError),
    }
}

// ---------------------------------------------------------------------
// Whole documents
// ---------------------------------------------------------------------

/// A configuration with one more proxy section.
pub open spec fn push_proxy(c: ConfigView, x: ProxyView) -> ConfigView {
    ConfigView {
        proxy: Some(
            match c.proxy {
                Some(v) => v.push(x),
                None => seq![x],
            },
        ),
        ..c
    }
}

/// A configuration with one more load balancer section.
pub open spec fn push_lb(c: ConfigView, x: LBView) -> ConfigView {
    ConfigView {
        load_balancer: Some(
            match c.load_balancer {
                Some(v) => v.push(x),
                None => seq![x],
            },
        ),
        ..c
    }
}

/// Sections read one after the other into `c`: after whitespace, a proxy
/// section, else a load balancer section; it stops at the end of the
/// input or where neither stands.
pub open spec fn spec_sections(s: Seq<char>, p: int, c: ConfigView) -> (int, ConfigView)
    decreases s.len() - p,
{
    let a = ws_end(s, p);
    if a >= s.len() || a < p {
        (a, c)
    } else {
        match spec_proxy_config(s, a) {
            Some((q, x)) => if a < q <= s.len() {
                spec_sections(s, q, push_proxy(c, x))
            } else {
                (a, c)
            },
            None => match spec_lb_main_config(s, a) {
                Some((q, x)) => if a < q <= s.len() {
                    spec_sections(s, q, push_lb(c, x))
                } else {
                    (a, c)
                },
                None => (a, c),
            },
        }
    }
}

/// A document: an optional `prometheus_addr = value`, then its sections.
/// It always matches; gives where reading stopped and the configuration.
pub open spec fn spec_config(s: Seq<char>) -> (int, ConfigView) {
    let (p, prom) = opt_step(spec_kv_value(s, 0, "prometheus_addr"@), 0);
    spec_sections(s, p, ConfigView { prometheus_addr: prom, proxy: None, load_balancer: None })
}

/// Appends a proxy section to a configuration.
fn add_proxy(config: &mut Config, x: ProxyConfig)
    ensures
        final(config)@ == push_proxy(old(config)@, x@),
{
    let ghost old_config = config@;
    let mut list = match config.proxy.take() {
        Some(l) => l,
        None => Vec::new(),
    };
    let ghost xv = x@;
    list.push(x);
    assert(proxies_view(list@) =~= match old_config.proxy {
        Some(w) => w.push(xv),
        None => seq![xv],
    });
    config.proxy = Some(list);
}

/// Appends a load balancer section to a configuration.
fn add_lb(config: &mut Config, x: LoadBalancerConfig)
    ensures
        final(config)@ == push_lb(old(config)@, x@),
{
    let ghost old_config = config@;
    let mut list = match config.load_balancer.take() {
        Some(l) => l,
        None => Vec::new(),
    };
    let ghost xv = x@;
    list.push(x);
    assert(lbs_view(list@) =~= match old_config.load_balancer {
        Some(w) => w.push(xv),
        None => seq![xv],
    });
    config.load_balancer = Some(list);
}

/// Reads a whole document; gives the input that was left unread and the
/// configuration.
pub fn parse_config(input: &str) -> (r: Result<(&str, Config), ParseError>)
    ensures
        r matches Ok((rest, c)) && c@ == spec_config(input@).1 && rest@ == input@.subrange(
            spec_config(input@).0,
            input@.len() as int,
        ),
{
    let v = chars_of(input);
    let mut config = Config { prometheus_addr: None, proxy: None, load_balancer: None };
    let mut i: usize = 0;
    if let Some((q, x)) = kv_value(&v, 0, "prometheus_addr") {
        config.prometheus_addr = Some(x);
        i = q;
    }
    loop
        invariant_except_break
            spec_config(v@) == spec_sections(v@, i as int, config@),
        invariant
            i <= v@.len(),
            v@ == input@,
        ensures
            spec_config(v@) == (i as int, config@),
        decreases v@.len() - i,
    {
        let a = scan(&v, i, CharClass::Space);
        if a >= v.len() {
            i = a;
            break ;
        }
        if let Some((q, x)) = proxy_config_at(&v, a) {
            add_proxy(&mut config, x);
            i = q;
            continue ;
        }
        if let Some((q, x)) = lb_main_config_at(&v, a) {
            add_lb(&mut config, x);
            i = q;
            continue ;
        }
        i = a;
        break ;
    }
    Ok((input.substring_char(i, input.unicode_len()), config))
}

/// A `key = value` pair ends inside the input.
proof fn lemma_kv_value_bound(s: Seq<char>, p: int, key: Seq<char>)
    requires
        0 <= p <= s.len(),
    ensures
        spec_kv_value(s, p, key) matches Some((q, _)) ==> p <= q <= s.len(),
{
    let a = ws_end(s, p);
    lemma_class_end(s, p, CharClass::Space);
    if tag_at(s, a, key) {
        let b = ws_end(s, a + key.len());
        lemma_class_end(s, a + key.len(), CharClass::Space);
        if char_at(s, b, '=') {
            lemma_class_end(s, b + 1, CharClass::Space);
            lemma_class_end(s, ws_end(s, b + 1), CharClass::Value);
        }
    }
}

/// Reading sections stops at the end of the input or at a character that
/// is not whitespace.
proof fn lemma_sections_stop(s: Seq<char>, p: int, c: ConfigView)
    requires
        0 <= p <= s.len(),
    ensures
        spec_sections(s, p, c).0 == s.len() || (0 <= spec_sections(s, p, c).0 < s.len()
            && !in_class(CharClass::Space, s[spec_sections(s, p, c).0])),
    decreases s.len() - p,
{
    let a = ws_end(s, p);
    lemma_class_end(s, p, CharClass::Space);
    if a < s.len() {
        match spec_proxy_config(s, a) {
            Some((q, x)) => if a < q <= s.len() {
                lemma_sections_stop(s, q, push_proxy(c, x));
            },
            None => match spec_lb_main_config(s, a) {
                Some((q, x)) => if a < q <= s.len() {
                    lemma_sections_stop(s, q, push_lb(c, x));
                },
                None => {},
            },
        }
    }
}

/// A document is read up to its end or up to a character that is not
/// whitespace: no whitespace is ever left unread in front of the rest.
pub proof fn lemma_config_rest_trimmed(s: Seq<char>)
    ensures
        spec_config(s).0 == s.len() || (0 <= spec_config(s).0 < s.len() && !in_class(
            CharClass::Space,
            s[spec_config(s).0],
        )),
{
    lemma_kv_value_bound(s, 0, "prometheus_addr"@);
    let (p, prom) = opt_step(spec_kv_value(s, 0, "prometheus_addr"@), 0);
    lemma_sections_stop(s, p, ConfigView { prometheus_addr: prom, proxy: None, load_balancer: None });
}

/// A run of class `k` from `p` to `q`, not followed by another character
/// of the class, ends at `q`.
pub proof fn lemma_class_run(s: Seq<char>, p: int, q: int, k: CharClass)
    requires
        0 <= p <= q <= s.len(),
        forall|i: int| p <= i < q ==> in_class(k, #[trigger] s[i]),
        q == s.len() || !in_class(k, s[q]),
    ensures
        class_end(s, p, k) == q,
    decreases q - p,
{
    if p < q {
        lemma_class_run(s, p + 1, q, k);
    }
}

/// A block header written `open kw = x close`, with nothing else around
/// its parts, reads as the value `x`.
proof fn lemma_block_header_text(
    o: Seq<char>,
    kw: Seq<char>,
    x: Seq<char>,
    cl: Seq<char>,
    r: Seq<char>,
    a: Seq<char>,
    b: Seq<char>,
    c: Seq<char>,
)
    requires
        o.len() > 0,
        cl.len() == o.len(),
        forall|i: int| 0 <= i < o.len() ==> o[i] == '[',
        forall|i: int| 0 <= i < cl.len() ==> cl[i] == ']',
        kw.len() > 0,
        !in_class(CharClass::Space, kw[0]),
        x.len() > 0,
        forall|i: int| 0 <= i < x.len() ==> in_class(CharClass::Value, #[trigger] x[i]),
        x[0] != ' ',
        spec_one_of(o + kw + " = "@ + x + cl + r, o.len() as int, a, b, c) == Some(
            (o.len() + kw.len()) as int,
        ),
    ensures
        ({
            let s = o + kw + " = "@ + x + cl + r;
            let e = (o.len() + kw.len() + 3 + x.len()) as int;
            spec_block_header(s, 0, o.len() as int, a, b, c) == Some(
                (ws_end(s, (e + o.len()) as int), x),
            )
        }),
{
    reveal_strlit(" = ");
    let s = o + kw + " = "@ + x + cl + r;
    let d = o.len() as int;
    let k = d + kw.len();
    let xs = k + 3;
    let e = xs + x.len();
    assert(s[0] == '[');
    lemma_class_run(s, 0, 0, CharClass::Space);
    assert forall|i: int| 0 <= i < d implies s[i] == '[' by {
        assert(s[i] == o[i]);
    }
    assert(opens(s, 0, d));
    assert(s[d] == kw[0]);
    lemma_class_run(s, d, d, CharClass::Space);
    assert(s[k] == ' ');
    assert(s[k + 1] == '=');
    lemma_class_run(s, k, k + 1, CharClass::Space);
    assert(char_at(s, k + 1, '='));
    assert(s[k + 2] == ' ');
    assert(s[xs] == x[0]);
    lemma_class_run(s, k + 2, xs, CharClass::Space);
    assert forall|i: int| xs <= i < e implies in_class(CharClass::Value, #[trigger] s[i]) by {
        assert(s[i] == x[i - xs]);
    }
    assert(s[e] == ']');
    lemma_class_run(s, xs, e, CharClass::Value);
    assert(s.subrange(xs, e) =~= x);
    lemma_class_run(s, e, e, CharClass::Space);
    assert forall|i: int| e <= i < e + d implies s[i] == ']' by {
        assert(s[i] == cl[i - e]);
    }
    assert(closes(s, e, d));
}

/// Route block headers: `[[[route = x]]]` and `[[[path = x]]]` both read
/// as the route `x`, for any value `x` of value characters that does not
/// begin with a space, whatever follows the header.
pub proof fn lemma_route_header(kw: Seq<char>, x: Seq<char>, r: Seq<char>)
    requires
        kw == "route"@ || kw == "path"@,
        x.len() > 0,
        forall|i: int| 0 <= i < x.len() ==> in_class(CharClass::Value, #[trigger] x[i]),
        x[0] != ' ',
    ensures
        ({
            let s = "[[["@ + kw + " = "@ + x + "]]]"@ + r;
            spec_path_section(s, 0) == Some((ws_end(s, (9 + kw.len() + x.len()) as int), x))
        }),
{
    reveal_strlit("[[[");
    reveal_strlit("]]]");
    reveal_strlit("route");
    reveal_strlit("path");
    let o = "[[["@;
    let s = o + kw + " = "@ + x + "]]]"@ + r;
    assert(s.subrange(3, (3 + kw.len()) as int) =~= kw);
    assert(s[3] == kw[0]);
    if kw == "path"@ {
        assert(!tag_at(s, 3, "route"@)) by {
            if tag_at(s, 3, "route"@) {
                assert(s.subrange(3, 8)[0] == s[3]);
            }
        }
    }
    assert(spec_one_of(s, 3, "route"@, "path"@, "path"@) == Some((3 + kw.len()) as int));
    lemma_block_header_text(o, kw, x, "]]]"@, r, "route"@, "path"@, "path"@);
}

/// Domain block headers: `[[domain = x]]`, `[[host = x]]` and
/// `[[ip = x]]` all read as the domain `x`, for any value `x` of value
/// characters that does not begin with a space, whatever follows the
/// header.
pub proof fn lemma_domain_header(kw: Seq<char>, x: Seq<char>, r: Seq<char>)
    requires
        kw == "domain"@ || kw == "host"@ || kw == "ip"@,
        x.len() > 0,
        forall|i: int| 0 <= i < x.len() ==> in_class(CharClass::Value, #[trigger] x[i]),
        x[0] != ' ',
    ensures
        ({
            let s = "[["@ + kw + " = "@ + x + "]]"@ + r;
            spec_domain_section(s, 0) == Some((ws_end(s, (7 + kw.len() + x.len()) as int), x))
        }),
{
    reveal_strlit("[[");
    reveal_strlit("]]");
    reveal_strlit("domain");
    reveal_strlit("host");
    reveal_strlit("ip");
    let o = "[["@;
    let s = o + kw + " = "@ + x + "]]"@ + r;
    assert(s.subrange(2, (2 + kw.len()) as int) =~= kw);
    assert(s[2] == kw[0]);
    if kw != "domain"@ {
        assert(!tag_at(s, 2, "domain"@)) by {
            if tag_at(s, 2, "domain"@) {
                assert(s.subrange(2, 8)[0] == s[2]);
            }
        }
    }
    if kw == "ip"@ {
        assert(!tag_at(s, 2, "host"@)) by {
            if tag_at(s, 2, "host"@) {
                assert(s.subrange(2, 6)[0] == s[2]);
            }
        }
    }
    assert(spec_one_of(s, 2, "domain"@, "host"@, "ip"@) == Some((2 + kw.len()) as int));
    lemma_block_header_text(o, kw, x, "]]"@, r, "domain"@, "host"@, "ip"@);
}

/// `key = ` written with one space on each side of `=`, before text that
/// does not begin with white space, is read up to that text.
proof fn lemma_keyed_text(key: Seq<char>, rest: Seq<char>)
    requires
        key.len() > 0,
        !in_class(CharClass::Space, key[0]),
        rest.len() > 0,
        !in_class(CharClass::Space, rest[0]),
    ensures
        spec_keyed(key + " = "@ + rest, 0, key) == Some((key.len() + 3) as int),
{
    reveal_strlit(" = ");
    let s = key + " = "@ + rest;
    let k = key.len() as int;
    assert(s[0] == key[0]);
    lemma_class_run(s, 0, 0, CharClass::Space);
    assert(s.subrange(0, k) =~= key);
    assert(s[k] == ' ');
    assert(s[k + 1] == '=');
    lemma_class_run(s, k, k + 1, CharClass::Space);
    assert(s[k + 2] == ' ');
    assert(s[k + 3] == rest[0]);
    lemma_class_run(s, k + 2, k + 3, CharClass::Space);
}

/// The text of a boolean value.
pub open spec fn bool_text(b: bool) -> Seq<char> {
    if b {
        "true"@
    } else {
        "false"@
    }
}

/// The settings of a proxied domain or route read as written:
/// `proxy_addr = x` gives the address `x` (for any value `x` of value
/// characters that does not begin with a space, up to the first
/// character that is not one), and `proxy_tls = b` and `proxy_uds = b`
/// give the flag `b`, whatever follows.
pub proof fn lemma_proxy_item_text(x: Seq<char>, b: bool, r: Seq<char>)
    requires
        x.len() > 0,
        forall|i: int| 0 <= i < x.len() ==> in_class(CharClass::Value, #[trigger] x[i]),
        x[0] != ' ',
        r.len() == 0 || !in_class(CharClass::Value, r[0]),
    ensures
        spec_proxy_item("proxy_addr"@ + " = "@ + x + r, 0) == Some(
            ((13 + x.len()) as int, ProxyItemView::Addr(x)),
        ),
        spec_proxy_item("proxy_tls"@ + " = "@ + bool_text(b) + r, 0) == Some(
            ((12 + bool_text(b).len()) as int, ProxyItemView::Tls(b)),
        ),
        spec_proxy_item("proxy_uds"@ + " = "@ + bool_text(b) + r, 0) == Some(
            ((12 + bool_text(b).len()) as int, ProxyItemView::Uds(b)),
        ),
{
    reveal_strlit("proxy_addr");
    reveal_strlit("proxy_tls");
    reveal_strlit("proxy_uds");
    reveal_strlit("true");
    reveal_strlit("false");
    reveal_strlit(" = ");
    let t = bool_text(b);
    // The address.
    let sa = "proxy_addr"@ + " = "@ + x + r;
    assert(sa =~= "proxy_addr"@ + " = "@ + (x + r));
    lemma_keyed_text("proxy_addr"@, x + r);
    let e = (13 + x.len()) as int;
    assert forall|i: int| 13 <= i < e implies in_class(CharClass::Value, #[trigger] sa[i]) by {
        assert(sa[i] == x[i - 13]);
    }
    if r.len() > 0 {
        assert(sa[e] == r[0]);
    }
    lemma_class_run(sa, 13, e, CharClass::Value);
    assert(sa.subrange(13, e) =~= x);
    // The flags.
    assert(t.len() > 0);
    assert(!in_class(CharClass::Space, t[0]));
    let st = "proxy_tls"@ + " = "@ + t + r;
    let su = "proxy_uds"@ + " = "@ + t + r;
    assert(st =~= "proxy_tls"@ + " = "@ + (t + r));
    assert(su =~= "proxy_uds"@ + " = "@ + (t + r));
    lemma_keyed_text("proxy_tls"@, t + r);
    lemma_keyed_text("proxy_uds"@, t + r);
    assert(!tag_at(st, 0, "proxy_addr"@)) by {
        if tag_at(st, 0, "proxy_addr"@) {
            assert(st.subrange(0, 10)[6] == st[6]);
        }
    }
    assert(!tag_at(su, 0, "proxy_addr"@)) by {
        if tag_at(su, 0, "proxy_addr"@) {
            assert(su.subrange(0, 10)[6] == su[6]);
        }
    }
    assert(!tag_at(su, 0, "proxy_tls"@)) by {
        if tag_at(su, 0, "proxy_tls"@) {
            assert(su.subrange(0, 9)[6] == su[6]);
        }
    }
    lemma_class_run(st, 0, 0, CharClass::Space);
    lemma_class_run(su, 0, 0, CharClass::Space);
    assert(st.subrange(12, (12 + t.len()) as int) =~= t);
    assert(su.subrange(12, (12 + t.len()) as int) =~= t);
    if !b {
        assert(!tag_at(st, 12, "true"@)) by {
            if tag_at(st, 12, "true"@) {
                assert(st.subrange(12, 16)[0] == st[12]);
            }
        }
        assert(!tag_at(su, 12, "true"@)) by {
            if tag_at(su, 12, "true"@) {
                assert(su.subrange(12, 16)[0] == su[12]);
            }
        }
    }
}

/// Each setting changes only its own field: the address, the TLS flag,
/// the UDS flag or the headers of the domain or route it is read into.
pub proof fn lemma_settings_apply(
    h: HostView,
    r: RouteView,
    x: Seq<char>,
    b: bool,
    hs: HeadersView,
)
    ensures
        apply_host(h, ProxyItemView::Addr(x)) == (HostView { proxy_addr: x, ..h }),
        apply_host(h, ProxyItemView::Tls(b)) == (HostView { proxy_tls: b, ..h }),
        apply_host(h, ProxyItemView::Uds(b)) == (HostView { proxy_uds: Some(b), ..h }),
        apply_host(h, ProxyItemView::Headers(hs)) == (HostView { proxy_headers: Some(hs), ..h }),
        apply_route(r, ProxyItemView::Addr(x)) == (RouteView { proxy_addr: Some(x), ..r }),
        apply_route(r, ProxyItemView::Tls(b)) == (RouteView { proxy_tls: Some(b), ..r }),
        apply_route(r, ProxyItemView::Uds(b)) == (RouteView { proxy_uds: Some(b), ..r }),
        apply_route(r, ProxyItemView::Headers(hs)) == (RouteView { proxy_headers: Some(hs), ..r }),
{
}

/// A `[proxy]` or `[load_balancer]` section whose header line is followed
/// by `listener = x` reads, and its listener is `x`, whatever follows
/// (for any value `x` of value characters that does not begin with a
/// space, up to the first character that is not one).
pub proof fn lemma_section_listener(name: Seq<char>, x: Seq<char>, r: Seq<char>)
    requires
        name == "proxy"@ || name == "load_balancer"@,
        x.len() > 0,
        forall|i: int| 0 <= i < x.len() ==> in_class(CharClass::Value, #[trigger] x[i]),
        x[0] != ' ',
        r.len() == 0 || !in_class(CharClass::Value, r[0]),
    ensures
        ({
            let s = seq!['['] + name + seq![']', '\n'] + "listener"@ + " = "@ + x + r;
            &&& name == "proxy"@ ==> (spec_proxy_config(s, 0) matches Some((_, pv))
                && pv.listener == x)
            &&& name == "load_balancer"@ ==> (spec_lb_main_config(s, 0) matches Some((_, lv))
                && lv.listener == x)
        }),
{
    reveal_strlit("proxy");
    reveal_strlit("load_balancer");
    reveal_strlit("listener");
    reveal_strlit(" = ");
    let s = seq!['['] + name + seq![']', '\n'] + "listener"@ + " = "@ + x + r;
    let n = name.len() as int;
    let l = n + 3;
    let b = l + 11;
    let e = b + x.len();
    assert(s[0] == '[');
    crate::nom_parser_impl::lemma_class_run(s, 0, 0, CharClass::Space);
    assert(s.subrange(1, 1 + n) =~= name);
    assert(s[1 + n] == ']');
    assert(s[2 + n] == '\n');
    assert(s[l] == 'l');
    lemma_class_run(s, 2 + n, l, CharClass::Space);
    assert(spec_section(s, 0, name) == Some(l));
    lemma_class_run(s, l, l, CharClass::Space);
    assert(s.subrange(l, l + 8) =~= "listener"@);
    assert(s[l + 8] == ' ');
    assert(s[l + 9] == '=');
    lemma_class_run(s, l + 8, l + 9, CharClass::Space);
    assert(s[l + 10] == ' ');
    assert(s[b] == x[0]);
    lemma_class_run(s, l + 10, b, CharClass::Space);
    assert(spec_keyed(s, l, "listener"@) == Some(b));
    assert forall|i: int| b <= i < e implies in_class(CharClass::Value, #[trigger] s[i]) by {
        assert(s[i] == x[i - b]);
    }
    if r.len() > 0 {
        assert(s[e] == r[0]);
    }
    lemma_class_run(s, b, e, CharClass::Value);
    assert(s.subrange(b, e) =~= x);
    assert(spec_kv_value(s, l, "listener"@) == Some((e, x)));
}

} // verus!
