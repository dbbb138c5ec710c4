//! The line-based reader of proxy and load balancer sections.
//!
//! The input is read line by line, each line trimmed of white space; blank
//! lines are skipped. `[proxy]` and `[load_balancer]` open a section, a
//! line that begins with `[[[` and ends with `]]]` opens a route block in
//! a proxy section, belonging to the open proxied domain, a line that begins with `[[` and ends with
//! `]]` opens a domain block of the current section, and `key = value`
//! sets a key of the innermost open block. A route block is filed into its
//! domain when the next route, domain or section opens or the input ends;
//! a domain block is filed into its section when the next domain or
//! section opens or the input ends.
use vstd::prelude::*;
use crate::chars::{
    begins_with, ends_with, finishes_with, is_text, parse_u64_text, split, split_once,
    split_once_at, split_on, split_trimmed, starts_with, std_u64, trim, trimmed, trimmed_pieces,
    vecs_view, to_string, CharSet,
};
use crate::headers::{headers_from, headers_result, spec_parse_headers};
use crate::lexer::{opt_pairs_view, opt_str_view, pairs_view, strings_view, HeadersView};
use crate::str_map::StrMap;
use crate::text::chars_of;

verus! {

broadcast use vstd::string::group_string_axioms;

/// One `[proxy]` section.
#[derive(Debug)]
pub struct ProxyConfig {
    pub listener: String,
    pub tls_certificate: Option<String>,
    pub tls_certificate_key: Option<String>,
    pub servers: StrMap<ProxyHostConfig>,
}

/// The settings of one proxied domain.
#[derive(Debug)]
pub struct ProxyHostConfig {
    pub proxy_addr: String,
    pub proxy_tls: bool,
    pub proxy_headers: Option<Vec<(String, String)>>,
    pub proxy_uds: bool,
    pub routes: StrMap<ProxyPathBaseHostConfig>,
}

/// The settings of one route of a proxied domain.
#[derive(Debug)]
pub struct ProxyPathBaseHostConfig {
    pub proxy_addr: Option<String>,
    pub proxy_tls: bool,
    pub proxy_headers: Option<Vec<(String, String)>>,
    pub proxy_uds: bool,
}

/// One `[load_balancer]` section.
#[derive(Debug)]
pub struct LoadBalancerConfig {
    pub listener: String,
    pub upstreams: Vec<String>,
    pub health_check: Option<bool>,
    pub health_check_frequency: Option<u64>,
    pub parallel_health_check: Option<u64>,
    pub tls_certificate: Option<String>,
    pub tls_certificate_key: Option<String>,
    pub servers: StrMap<LBHostConfig>,
}

/// The settings of one domain of a load balancer.
#[derive(Debug)]
pub struct LBHostConfig {
    pub load_balancer_tls: bool,
    pub load_balancer_headers: Option<Vec<(String, String)>>,
}

/// The kind of the section being read.
#[derive(Debug, Clone, Copy)]
pub enum ConfigType {
    Proxy,
    LoadBalancer,
}

/// A route's settings as values.
pub struct RouteView {
    pub proxy_addr: Option<Seq<char>>,
    pub proxy_tls: bool,
    pub proxy_headers: Option<HeadersView>,
    pub proxy_uds: bool,
}

/// A proxied domain's settings as values.
pub struct HostView {
    pub proxy_addr: Seq<char>,
    pub proxy_tls: bool,
    pub proxy_headers: Option<HeadersView>,
    pub proxy_uds: bool,
    pub routes: Map<Seq<char>, RouteView>,
}

/// A proxy section as values.
pub struct ProxyView {
    pub listener: Seq<char>,
    pub tls_certificate: Option<Seq<char>>,
    pub tls_certificate_key: Option<Seq<char>>,
    pub servers: Map<Seq<char>, HostView>,
}

/// A load balancer's domain settings as values.
pub struct LBHostView {
    pub load_balancer_tls: bool,
    pub load_balancer_headers: Option<HeadersView>,
}

/// A load balancer section as values.
pub struct LBView {
    pub listener: Seq<char>,
    pub upstreams: Seq<Seq<char>>,
    pub health_check: Option<bool>,
    pub health_check_frequency: Option<u64>,
    pub parallel_health_check: Option<u64>,
    pub tls_certificate: Option<Seq<char>>,
    pub tls_certificate_key: Option<Seq<char>>,
    pub servers: Map<Seq<char>, LBHostView>,
}

impl View for ProxyPathBaseHostConfig {
    type V = RouteView;

    open spec fn view(&self) -> RouteView {
        RouteView {
            proxy_addr: opt_str_view(self.proxy_addr),
            proxy_tls: self.proxy_tls,
            proxy_headers: opt_pairs_view(self.proxy_headers),
            proxy_uds: self.proxy_uds,
        }
    }
}

impl View for ProxyHostConfig {
    type V = HostView;

    open spec fn view(&self) -> HostView {
        HostView {
            proxy_addr: self.proxy_addr@,
            proxy_tls: self.proxy_tls,
            proxy_headers: opt_pairs_view(self.proxy_headers),
            proxy_uds: self.proxy_uds,
            routes: self.routes@,
        }
    }
}

impl View for ProxyConfig {
    type V = ProxyView;

    open spec fn view(&self) -> ProxyView {
        ProxyView {
            listener: self.listener@,
            tls_certificate: opt_str_view(self.tls_certificate),
            tls_certificate_key: opt_str_view(self.tls_certificate_key),
            servers: self.servers@,
        }
    }
}

impl View for LBHostConfig {
    type V = LBHostView;

    open spec fn view(&self) -> LBHostView {
        LBHostView {
            load_balancer_tls: self.load_balancer_tls,
            load_balancer_headers: opt_pairs_view(self.load_balancer_headers),
        }
    }
}

impl View for LoadBalancerConfig {
    type V = LBView;

    open spec fn view(&self) -> LBView {
        LBView {
            listener: self.listener@,
            upstreams: strings_view(self.upstreams@),
            health_check: self.health_check,
            health_check_frequency: self.health_check_frequency,
            parallel_health_check: self.parallel_health_check,
            tls_certificate: opt_str_view(self.tls_certificate),
            tls_certificate_key: opt_str_view(self.tls_certificate_key),
            servers: self.servers@,
        }
    }
}

/// A route with nothing set.
pub open spec fn route_default() -> RouteView {
    RouteView { proxy_addr: None, proxy_tls: false, proxy_headers: None, proxy_uds: false }
}

/// A proxied domain with nothing set.
pub open spec fn host_default() -> HostView {
    HostView {
        proxy_addr: Seq::empty(),
        proxy_tls: false,
        proxy_headers: None,
        proxy_uds: false,
        routes: Map::empty(),
    }
}

/// A proxy section with nothing set.
pub open spec fn proxy_default() -> ProxyView {
    ProxyView {
        listener: Seq::empty(),
        tls_certificate: None,
        tls_certificate_key: None,
        servers: Map::empty(),
    }
}

/// A load balancer domain with nothing set.
pub open spec fn lb_host_default() -> LBHostView {
    LBHostView { load_balancer_tls: false, load_balancer_headers: None }
}

/// A load balancer section with nothing set.
pub open spec fn lb_default() -> LBView {
    LBView {
        listener: Seq::empty(),
        upstreams: Seq::empty(),
        health_check: None,
        health_check_frequency: None,
        parallel_health_check: None,
        tls_certificate: None,
        tls_certificate_key: None,
        servers: Map::empty(),
    }
}

impl Default for ProxyPathBaseHostConfig {
    fn default() -> (r: Self)
        ensures
            r@ == route_default(),
    {
        ProxyPathBaseHostConfig { proxy_addr: None, proxy_tls: false, proxy_headers: None, proxy_uds: false }
    }
}

impl Default for ProxyHostConfig {
    fn default() -> (r: Self)
        ensures
            r@ == host_default(),
    {
        ProxyHostConfig {
            proxy_addr: String::new(),
            proxy_tls: false,
            proxy_headers: None,
            proxy_uds: false,
            routes: StrMap::new(),
        }
    }
}

impl Default for ProxyConfig {
    fn default() -> (r: Self)
        ensures
            r@ == proxy_default(),
    {
        ProxyConfig {
            listener: String::new(),
            tls_certificate: None,
            tls_certificate_key: None,
            servers: StrMap::new(),
        }
    }
}

impl Default for LBHostConfig {
    fn default() -> (r: Self)
        ensures
            r@ == lb_host_default(),
    {
        LBHostConfig { load_balancer_tls: false, load_balancer_headers: None }
    }
}

impl Default for LoadBalancerConfig {
    fn default() -> (r: Self)
        ensures
            r@ == lb_default(),
    {
        let r = LoadBalancerConfig {
            listener: String::new(),
            upstreams: Vec::new(),
            health_check: None,
            health_check_frequency: None,
            parallel_health_check: None,
            tls_certificate: None,
            tls_certificate_key: None,
            servers: StrMap::new(),
        };
        assert(strings_view(r.upstreams@) =~= Seq::<Seq<char>>::empty());
        r
    }
}

/// What the reader holds between two lines.
pub struct ReadState {
    /// The proxy sections opened so far; while a proxy section is being
    /// read, it is the last of them.
    pub proxies: Seq<ProxyView>,
    /// The load balancer sections opened so far; while a load balancer
    /// section is being read, it is the last of them.
    pub lbs: Seq<LBView>,
    /// The kind of the section being read.
    pub kind: Option<ConfigType>,
    /// The open proxied domain.
    pub host: Option<HostView>,
    /// The open load balancer domain.
    pub lb_host: Option<LBHostView>,
    /// The name of the open domain.
    pub domain: Option<Seq<char>>,
    /// The open route of the open proxied domain, with its name.
    pub route: Option<(Seq<char>, RouteView)>,
}

/// The state before the first line.
pub open spec fn initial_state() -> ReadState {
    ReadState {
        proxies: Seq::empty(),
        lbs: Seq::empty(),
        kind: None,
        host: None,
        lb_host: None,
        domain: None,
        route: None,
    }
}

/// A value read as a boolean: `true` only for the text `true`.
pub open spec fn flag(value: Seq<char>) -> bool {
    value == "true"@
}

/// A route with one key set.
pub open spec fn set_route_key(r: RouteView, key: Seq<char>, value: Seq<char>) -> Result<RouteView, Seq<char>> {
    if key == "proxy_addr"@ {
        Ok(RouteView { proxy_addr: Some(value), ..r })
    } else if key == "proxy_tls"@ {
        Ok(RouteView { proxy_tls: flag(value), ..r })
    } else if key == "proxy_headers"@ {
        match spec_parse_headers(value) {
            Ok(hs) => Ok(RouteView { proxy_headers: Some(hs), ..r }),
            Err(e) => Err(e),
        }
    } else if key == "proxy_uds"@ {
        Ok(RouteView { proxy_uds: flag(value), ..r })
    } else {
        Ok(r)
    }
}

/// A proxied domain with one key set.
pub open spec fn set_host_key(h: HostView, key: Seq<char>, value: Seq<char>) -> Result<HostView, Seq<char>> {
    if key == "proxy_addr"@ {
        Ok(HostView { proxy_addr: value, ..h })
    } else if key == "proxy_tls"@ {
        Ok(HostView { proxy_tls: flag(value), ..h })
    } else if key == "proxy_headers"@ {
        match spec_parse_headers(value) {
            Ok(hs) => Ok(HostView { proxy_headers: Some(hs), ..h }),
            Err(e) => Err(e),
        }
    } else if key == "proxy_uds"@ {
        Ok(HostView { proxy_uds: flag(value), ..h })
    } else {
        Ok(h)
    }
}

/// A proxy section with one key set.
pub open spec fn set_proxy_key(p: ProxyView, key: Seq<char>, value: Seq<char>) -> ProxyView {
    if key == "listener"@ {
        ProxyView { listener: value, ..p }
    } else if key == "tls_certificate"@ {
        ProxyView { tls_certificate: Some(value), ..p }
    } else if key == "tls_certificate_key"@ {
        ProxyView { tls_certificate_key: Some(value), ..p }
    } else {
        p
    }
}

/// A load balancer domain with one key set.
pub open spec fn set_lb_host_key(h: LBHostView, key: Seq<char>, value: Seq<char>) -> Result<LBHostView, Seq<char>> {
    if key == "load_balancer_tls"@ {
        Ok(LBHostView { load_balancer_tls: flag(value), ..h })
    } else if key == "load_balancer_headers"@ {
        match spec_parse_headers(value) {
            Ok(hs) => Ok(LBHostView { load_balancer_headers: Some(hs), ..h }),
            Err(e) => Err(e),
        }
    } else {
        Ok(h)
    }
}

/// A load balancer section with one key set.
pub open spec fn set_lb_key(l: LBView, key: Seq<char>, value: Seq<char>) -> LBView {
    if key == "listener"@ {
        LBView { listener: value, ..l }
    } else if key == "upstreams"@ {
        LBView { upstreams: trimmed_pieces(value, ','), ..l }
    } else if key == "health_check"@ {
        LBView { health_check: Some(flag(value)), ..l }
    } else if key == "health_check_frequency"@ {
        LBView { health_check_frequency: std_u64(value), ..l }
    } else if key == "parallel_health_check"@ {
        LBView { parallel_health_check: std_u64(value), ..l }
    } else if key == "tls_certificate"@ {
        LBView { tls_certificate: Some(value), ..l }
    } else if key == "tls_certificate_key"@ {
        LBView { tls_certificate_key: Some(value), ..l }
    } else {
        l
    }
}

/// The sections with the last one changed to `p`; none changes where
/// there are none.
pub open spec fn with_last<T>(v: Seq<T>, p: T) -> Seq<T> {
    if v.len() > 0 {
        v.update(v.len() - 1, p)
    } else {
        v
    }
}

/// `key = value` applied to the innermost open block of the current
/// section.
pub open spec fn set_key(st: ReadState, key: Seq<char>, value: Seq<char>) -> Result<ReadState, Seq<char>> {
    match st.kind {
        Some(ConfigType::Proxy) => match st.route {
            Some((n, r)) => match set_route_key(r, key, value) {
                Ok(r2) => Ok(ReadState { route: Some((n, r2)), ..st }),
                Err(e) => Err(e),
            },
            None => match st.host {
                Some(h) => match set_host_key(h, key, value) {
                    Ok(h2) => Ok(ReadState { host: Some(h2), ..st }),
                    Err(e) => Err(e),
                },
                None => Ok(
                    ReadState {
                        proxies: with_last(st.proxies, set_proxy_key(st.proxies.last(), key, value)),
                        ..st
                    },
                ),
            },
        },
        Some(ConfigType::LoadBalancer) => match st.lb_host {
            Some(h) => match set_lb_host_key(h, key, value) {
                Ok(h2) => Ok(ReadState { lb_host: Some(h2), ..st }),
                Err(e) => Err(e),
            },
            None => Ok(
                ReadState { lbs: with_last(st.lbs, set_lb_key(st.lbs.last(), key, value)), ..st },
            ),
        },
        None => Ok(st),
    }
}

/// The open route filed into the open proxied domain under its name, and
/// closed.
pub open spec fn close_route(st: ReadState) -> ReadState {
    match (st.host, st.route) {
        (Some(h), Some((n, r))) => ReadState {
            host: Some(HostView { routes: h.routes.insert(n, r), ..h }),
            route: None,
            ..st
        },
        _ => ReadState { route: None, ..st },
    }
}

/// The last proxy section with the domain `h` filed into it as `d`.
pub open spec fn file_host(ps: Seq<ProxyView>, d: Option<Seq<char>>, h: Option<HostView>) -> Seq<ProxyView> {
    match (d, h) {
        (Some(d), Some(h)) => with_last(
            ps,
            ProxyView { servers: ps.last().servers.insert(d, h), ..ps.last() },
        ),
        _ => ps,
    }
}

/// The last load balancer section with the domain `h` filed into it as
/// `d`.
pub open spec fn file_lb_host(ls: Seq<LBView>, d: Option<Seq<char>>, h: Option<LBHostView>) -> Seq<LBView> {
    match (d, h) {
        (Some(d), Some(h)) => with_last(
            ls,
            LBView { servers: ls.last().servers.insert(d, h), ..ls.last() },
        ),
        _ => ls,
    }
}

/// The open domain, with its open route, filed into the section being
/// read; no domain is open afterwards.
pub open spec fn close_domain(st: ReadState) -> ReadState {
    let c = close_route(st);
    let filed = match c.kind {
        Some(ConfigType::Proxy) => ReadState {
            proxies: file_host(c.proxies, c.domain, c.host),
            ..c
        },
        Some(ConfigType::LoadBalancer) => ReadState {
            lbs: file_lb_host(c.lbs, c.domain, c.lb_host),
            ..c
        },
        None => c,
    };
    ReadState { host: None, lb_host: None, domain: None, route: None, ..filed }
}

/// A section of the given kind opens: the open domain is filed and a
/// fresh section is added.
pub open spec fn open_section(st: ReadState, kind: ConfigType) -> ReadState {
    let c = close_domain(st);
    match kind {
        ConfigType::Proxy => ReadState {
            proxies: c.proxies.push(proxy_default()),
            kind: Some(ConfigType::Proxy),
            ..c
        },
        ConfigType::LoadBalancer => ReadState {
            lbs: c.lbs.push(lb_default()),
            kind: Some(ConfigType::LoadBalancer),
            ..c
        },
    }
}

/// A domain block named `name` opens in the section being read: the open
/// domain is filed, and a fresh one is opened. Outside any section the
/// line is ignored.
pub open spec fn open_domain(st: ReadState, name: Seq<char>) -> ReadState {
    match st.kind {
        Some(ConfigType::Proxy) => ReadState {
            host: Some(host_default()),
            domain: Some(name),
            ..close_domain(st)
        },
        Some(ConfigType::LoadBalancer) => ReadState {
            lb_host: Some(lb_host_default()),
            domain: Some(name),
            ..close_domain(st)
        },
        None => st,
    }
}

/// A route block named `name` opens in the proxy section being read: the
/// open route is filed into the open proxied domain, and a fresh one is
/// opened that takes the keys that follow. Where no proxied domain is open
/// the route is filed nowhere. Outside a proxy section the line is
/// ignored.
pub open spec fn open_route(st: ReadState, name: Seq<char>) -> ReadState {
    match st.kind {
        Some(ConfigType::Proxy) => ReadState {
            route: Some((name, route_default())),
            ..close_route(st)
        },
        _ => st,
    }
}

/// The name of a domain or route block: the line without its brackets,
/// trimmed.
pub open spec fn domain_name(line: Seq<char>) -> Seq<char> {
    trim(trim(trim(line, CharSet::One('[')), CharSet::One(']')), CharSet::White)
}

/// The key of a `key = value` line: the text before the first `=`, trimmed.
pub open spec fn line_key(k: Seq<char>) -> Seq<char> {
    trim(k, CharSet::White)
}

/// The value of a `key = value` line: the text after the first `=`,
/// trimmed, then stripped of double quotes at both ends.
pub open spec fn line_value(x: Seq<char>) -> Seq<char> {
    trim(trim(x, CharSet::White), CharSet::One('"'))
}

/// Whether a trimmed line opens a section.
pub open spec fn is_section_line(line: Seq<char>) -> bool {
    line == "[proxy]"@ || line == "[load_balancer]"@
}

/// One line read.
pub open spec fn step(st: ReadState, raw: Seq<char>) -> Result<ReadState, Seq<char>> {
    let line = trim(raw, CharSet::White);
    if line.len() == 0 {
        Ok(st)
    } else if line == "[proxy]"@ {
        Ok(open_section(st, ConfigType::Proxy))
    } else if line == "[load_balancer]"@ {
        Ok(open_section(st, ConfigType::LoadBalancer))
    } else if starts_with(line, "[[["@) && ends_with(line, "]]]"@) {
        Ok(open_route(st, domain_name(line)))
    } else if starts_with(line, "[["@) && ends_with(line, "]]"@) {
        Ok(open_domain(st, domain_name(line)))
    } else {
        match split_once(line, '=') {
            Some((k, x)) => set_key(st, line_key(k), line_value(x)),
            None => Ok(st),
        }
    }
}

/// The state after the given lines are read from `st`, or the first
/// error.
pub open spec fn run_from(st: ReadState, lines: Seq<Seq<char>>) -> Result<ReadState, Seq<char>>
    decreases lines.len(),
{
    if lines.len() == 0 {
        Ok(st)
    } else {
        match run_from(st, lines.drop_last()) {
            Ok(s) => step(s, lines.last()),
            Err(e) => Err(e),
        }
    }
}

/// The state after the given lines, or the first error.
pub open spec fn run_lines(lines: Seq<Seq<char>>) -> Result<ReadState, Seq<char>> {
    run_from(initial_state(), lines)
}

/// The sections that a state gives once the input ends: its open domain
/// is filed.
pub open spec fn finish(st: ReadState) -> (Seq<ProxyView>, Seq<LBView>) {
    let c = close_domain(st);
    (c.proxies, c.lbs)
}

/// What the reader gives for the text `s`: the proxy sections and the load
/// balancer sections in the order in which they open, or the message of the
/// first malformed header list.
pub open spec fn spec_parse_combined_config(s: Seq<char>) -> Result<(Seq<ProxyView>, Seq<LBView>), Seq<char>> {
    match run_lines(split_on(s, '\n')) {
        Ok(st) => Ok(finish(st)),
        Err(e) => Err(e),
    }
}

/// A result without a value, taken by its view.
pub open spec fn unit_result(r: Result<(), String>) -> Result<(), Seq<char>> {
    match r {
        Ok(()) => Ok(()),
        Err(e) => Err(e@),
    }
}

/// Sets a key of a route.
fn set_route_key_in(r: &mut ProxyPathBaseHostConfig, key: &Vec<char>, value: &Vec<char>) -> (res: Result<(), String>)
    ensures
        match res {
            Ok(()) => set_route_key(old(r)@, key@, value@) == Ok::<RouteView, Seq<char>>(final(r)@),
            Err(e) => set_route_key(old(r)@, key@, value@) == Err::<RouteView, Seq<char>>(e@),
        },
{
    if is_text(key, "proxy_addr") {
        r.proxy_addr = Some(to_string(value));
    } else if is_text(key, "proxy_tls") {
        r.proxy_tls = is_text(value, "true");
    } else if is_text(key, "proxy_headers") {
        match headers_from(value) {
            Ok(hs) => {
                r.proxy_headers = Some(hs);
            },
            Err(e) => {
                return Err(e);
            },
        }
    } else if is_text(key, "proxy_uds") {
        r.proxy_uds = is_text(value, "true");
    }
    Ok(())
}

/// Sets a key of a proxied domain.
fn set_host_key_in(h: &mut ProxyHostConfig, key: &Vec<char>, value: &Vec<char>) -> (r: Result<(), String>)
    ensures
        match r {
            Ok(()) => set_host_key(old(h)@, key@, value@) == Ok::<HostView, Seq<char>>(final(h)@),
            Err(e) => set_host_key(old(h)@, key@, value@) == Err::<HostView, Seq<char>>(e@),
        },
{
    if is_text(key, "proxy_addr") {
        h.proxy_addr = to_string(value);
    } else if is_text(key, "proxy_tls") {
        h.proxy_tls = is_text(value, "true");
    } else if is_text(key, "proxy_headers") {
        match headers_from(value) {
            Ok(hs) => {
                h.proxy_headers = Some(hs);
            },
            Err(e) => {
                return Err(e);
            },
        }
    } else if is_text(key, "proxy_uds") {
        h.proxy_uds = is_text(value, "true");
    }
    Ok(())
}

/// Sets a key of a proxy section.
fn set_proxy_key_in(p: &mut ProxyConfig, key: &Vec<char>, value: &Vec<char>)
    ensures
        final(p)@ == set_proxy_key(old(p)@, key@, value@),
{
    if is_text(key, "listener") {
        p.listener = to_string(value);
    } else if is_text(key, "tls_certificate") {
        p.tls_certificate = Some(to_string(value));
    } else if is_text(key, "tls_certificate_key") {
        p.tls_certificate_key = Some(to_string(value));
    }
}

/// Sets a key of a load balancer domain.
fn set_lb_host_key_in(h: &mut LBHostConfig, key: &Vec<char>, value: &Vec<char>) -> (r: Result<(), String>)
    ensures
        match r {
            Ok(()) => set_lb_host_key(old(h)@, key@, value@) == Ok::<LBHostView, Seq<char>>(final(h)@),
            Err(e) => set_lb_host_key(old(h)@, key@, value@) == Err::<LBHostView, Seq<char>>(e@),
        },
{
    if is_text(key, "load_balancer_tls") {
        h.load_balancer_tls = is_text(value, "true");
    } else if is_text(key, "load_balancer_headers") {
        match headers_from(value) {
            Ok(hs) => {
                h.load_balancer_headers = Some(hs);
            },
            Err(e) => {
                return Err(e);
            },
        }
    }
    Ok(())
}

/// Sets a key of a load balancer section.
fn set_lb_key_in(l: &mut LoadBalancerConfig, key: &Vec<char>, value: &Vec<char>)
    ensures
        final(l)@ == set_lb_key(old(l)@, key@, value@),
{
    if is_text(key, "listener") {
        l.listener = to_string(value);
    } else if is_text(key, "upstreams") {
        l.upstreams = split_trimmed(value, ',');
    } else if is_text(key, "health_check") {
        l.health_check = Some(is_text(value, "true"));
    } else if is_text(key, "health_check_frequency") {
        l.health_check_frequency = parse_u64_text(value);
    } else if is_text(key, "parallel_health_check") {
        l.parallel_health_check = parse_u64_text(value);
    } else if is_text(key, "tls_certificate") {
        l.tls_certificate = Some(to_string(value));
    } else if is_text(key, "tls_certificate_key") {
        l.tls_certificate_key = Some(to_string(value));
    }
}

/// An optional proxied domain taken by its view.
pub open spec fn opt_host_view(o: Option<ProxyHostConfig>) -> Option<HostView> {
    match o {
        Some(x) => Some(x@),
        None => None,
    }
}

/// An optional load balancer domain taken by its view.
pub open spec fn opt_lb_host_view(o: Option<LBHostConfig>) -> Option<LBHostView> {
    match o {
        Some(x) => Some(x@),
        None => None,
    }
}

/// Proxy sections taken by their views.
pub open spec fn proxies_view(v: Seq<ProxyConfig>) -> Seq<ProxyView> {
    v.map_values(|c: ProxyConfig| c@)
}

/// Load balancer sections taken by their views.
pub open spec fn lbs_view(v: Seq<LoadBalancerConfig>) -> Seq<LBView> {
    v.map_values(|c: LoadBalancerConfig| c@)
}

/// The reader's state between two lines.
struct Reader {
    proxy_configs: Vec<ProxyConfig>,
    lb_configs: Vec<LoadBalancerConfig>,
    current_config_type: Option<ConfigType>,
    current_host_config: Option<ProxyHostConfig>,
    current_lb_host_config: Option<LBHostConfig>,
    current_domain: Option<String>,
    current_route: Option<(String, ProxyPathBaseHostConfig)>,
}

/// An optional named route taken by its view.
pub open spec fn opt_route_view(o: Option<(String, ProxyPathBaseHostConfig)>) -> Option<(Seq<char>, RouteView)> {
    match o {
        Some((n, r)) => Some((n@, r@)),
        None => None,
    }
}

impl View for Reader {
    type V = ReadState;

    closed spec fn view(&self) -> ReadState {
        ReadState {
            proxies: proxies_view(self.proxy_configs@),
            lbs: lbs_view(self.lb_configs@),
            kind: self.current_config_type,
            host: opt_host_view(self.current_host_config),
            lb_host: opt_lb_host_view(self.current_lb_host_config),
            domain: opt_str_view(self.current_domain),
            route: opt_route_view(self.current_route),
        }
    }
}

impl Reader {
    fn new() -> (r: Reader)
        ensures
            r@ == initial_state(),
    {
        let r = Reader {
            proxy_configs: Vec::new(),
            lb_configs: Vec::new(),
            current_config_type: None,
            current_host_config: None,
            current_lb_host_config: None,
            current_domain: None,
            current_route: None,
        };
        assert(proxies_view(r.proxy_configs@) =~= Seq::<ProxyView>::empty());
        assert(lbs_view(r.lb_configs@) =~= Seq::<LBView>::empty());
        r
    }

    /// Files the open route into the open proxied domain.
    fn close_route(&mut self)
        ensures
            final(self)@ == close_route(old(self)@),
    {
        let route = self.current_route.take();
        if let Some((n, r)) = route {
            if let Some(mut h) = self.current_host_config.take() {
                h.routes.insert(n, r);
                self.current_host_config = Some(h);
            }
        }
    }

    /// Files the open domain into the section being read.
    fn close_domain(&mut self)
        ensures
            final(self)@ == close_domain(old(self)@),
    {
        self.close_route();
        let domain = self.current_domain.take();
        let host = self.current_host_config.take();
        let lb_host = self.current_lb_host_config.take();
        match self.current_config_type {
            Some(ConfigType::Proxy) => {
                if let (Some(d), Some(h)) = (domain, host) {
                    let ghost before = proxies_view(self.proxy_configs@);
                    if let Some(mut p) = self.proxy_configs.pop() {
                        p.servers.insert(d, h);
                        self.proxy_configs.push(p);
                        assert(proxies_view(self.proxy_configs@) =~= before.update(
                            before.len() - 1,
                            p@,
                        ));
                    } else {
                        assert(proxies_view(self.proxy_configs@) =~= before);
                    }
                }
            },
            Some(ConfigType::LoadBalancer) => {
                if let (Some(d), Some(h)) = (domain, lb_host) {
                    let ghost before = lbs_view(self.lb_configs@);
                    if let Some(mut l) = self.lb_configs.pop() {
                        l.servers.insert(d, h);
                        self.lb_configs.push(l);
                        assert(lbs_view(self.lb_configs@) =~= before.update(
                            before.len() - 1,
                            l@,
                        ));
                    } else {
                        assert(lbs_view(self.lb_configs@) =~= before);
                    }
                }
            },
            None => {},
        }
    }

    /// Opens a section of the given kind.
    fn open_section(&mut self, kind: ConfigType)
        ensures
            final(self)@ == open_section(old(self)@, kind),
    {
        self.close_domain();
        match kind {
            ConfigType::Proxy => {
                let ghost before = proxies_view(self.proxy_configs@);
                self.proxy_configs.push(ProxyConfig::default());
                assert(proxies_view(self.proxy_configs@) =~= before.push(proxy_default()));
                self.current_config_type = Some(ConfigType::Proxy);
            },
            ConfigType::LoadBalancer => {
                let ghost before = lbs_view(self.lb_configs@);
                self.lb_configs.push(LoadBalancerConfig::default());
                assert(lbs_view(self.lb_configs@) =~= before.push(lb_default()));
                self.current_config_type = Some(ConfigType::LoadBalancer);
            },
        }
    }

    /// Opens a domain block named `name`.
    fn open_domain_block(&mut self, name: String)
        ensures
            final(self)@ == open_domain(old(self)@, name@),
    {
        match self.current_config_type {
            Some(ConfigType::Proxy) => {
                self.close_domain();
                self.current_host_config = Some(ProxyHostConfig::default());
                self.current_domain = Some(name);
            },
            Some(ConfigType::LoadBalancer) => {
                self.close_domain();
                self.current_lb_host_config = Some(LBHostConfig::default());
                self.current_domain = Some(name);
            },
            None => {},
        }
    }

    /// Opens a route block named `name`.
    fn open_route_block(&mut self, name: String)
        ensures
            final(self)@ == open_route(old(self)@, name@),
    {
        if let Some(ConfigType::Proxy) = self.current_config_type {
            self.close_route();
            self.current_route = Some((name, ProxyPathBaseHostConfig::default()));
        }
    }

    /// Applies `key = value` to the innermost open block.
    fn set(&mut self, key: &Vec<char>, value: &Vec<char>) -> (r: Result<(), String>)
        ensures
            match r {
                Ok(()) => set_key(old(self)@, key@, value@) == Ok::<ReadState, Seq<char>>(final(self)@),
                Err(e) => set_key(old(self)@, key@, value@) == Err::<ReadState, Seq<char>>(e@),
            },
    {
        match self.current_config_type {
            Some(ConfigType::Proxy) => {
                if let Some((n, mut route_config)) = self.current_route.take() {
                    let r = set_route_key_in(&mut route_config, key, value);
                    self.current_route = Some((n, route_config));
                    return r;
                } else if let Some(mut host_config) = self.current_host_config.take() {
                    let r = set_host_key_in(&mut host_config, key, value);
                    self.current_host_config = Some(host_config);
                    return r;
                } else {
                    let ghost before = proxies_view(self.proxy_configs@);
                    if let Some(mut p) = self.proxy_configs.pop() {
                        set_proxy_key_in(&mut p, key, value);
                        self.proxy_configs.push(p);
                        assert(proxies_view(self.proxy_configs@) =~= before.update(
                            before.len() - 1,
                            p@,
                        ));
                    } else {
                        assert(proxies_view(self.proxy_configs@) =~= before);
                    }
                }
            },
            Some(ConfigType::LoadBalancer) => {
                if let Some(mut lb_host_config) = self.current_lb_host_config.take() {
                    let r = set_lb_host_key_in(&mut lb_host_config, key, value);
                    self.current_lb_host_config = Some(lb_host_config);
                    return r;
                } else {
                    let ghost before = lbs_view(self.lb_configs@);
                    if let Some(mut l) = self.lb_configs.pop() {
                        set_lb_key_in(&mut l, key, value);
                        self.lb_configs.push(l);
                        assert(lbs_view(self.lb_configs@) =~= before.update(
                            before.len() - 1,
                            l@,
                        ));
                    } else {
                        assert(lbs_view(self.lb_configs@) =~= before);
                    }
                }
            },
            None => {},
        }
        Ok(())
    }

    /// Reads one line.
    fn step(&mut self, raw: &Vec<char>) -> (r: Result<(), String>)
        ensures
            match r {
                Ok(()) => step(old(self)@, raw@) == Ok::<ReadState, Seq<char>>(final(self)@),
                Err(e) => step(old(self)@, raw@) == Err::<ReadState, Seq<char>>(e@),
            },
    {
        let line = trimmed(raw, CharSet::White);
        if line.len() == 0 {
            return Ok(());
        }
        if is_text(&line, "[proxy]") {
            self.open_section(ConfigType::Proxy);
        } else if is_text(&line, "[load_balancer]") {
            self.open_section(ConfigType::LoadBalancer);
        } else if begins_with(&line, "[[[") && finishes_with(&line, "]]]") {
            let name = trimmed(
                &trimmed(&trimmed(&line, CharSet::One('[')), CharSet::One(']')),
                CharSet::White,
            );
            self.open_route_block(to_string(&name));
        } else if begins_with(&line, "[[") && finishes_with(&line, "]]") {
            let name = trimmed(
                &trimmed(&trimmed(&line, CharSet::One('[')), CharSet::One(']')),
                CharSet::White,
            );
            self.open_domain_block(to_string(&name));
        } else if let Some((k, x)) = split_once_at(&line, '=') {
            let key = trimmed(&k, CharSet::White);
            let value = trimmed(&trimmed(&x, CharSet::White), CharSet::One('"'));
            return self.set(&key, &value);
        }
        Ok(())
    }
}

/// Reads the proxy and load balancer sections of `input`, in the order in
/// which they open; fails with the message of the first malformed header
/// list.
pub fn parse_combined_config(input: &str) -> (r: Result<(Vec<ProxyConfig>, Vec<LoadBalancerConfig>), String>)
    ensures
        match r {
            Ok((ps, ls)) => spec_parse_combined_config(input@) == Ok::<
                (Seq<ProxyView>, Seq<LBView>),
                Seq<char>,
            >((proxies_view(ps@), lbs_view(ls@))),
            Err(e) => spec_parse_combined_config(input@) == Err::<
                (Seq<ProxyView>, Seq<LBView>),
                Seq<char>,
            >(e@),
        },
{
    let v = chars_of(input);
    let lines = split(&v, '\n');
    let ghost ls = split_on(v@, '\n');
    let mut reader = Reader::new();
    let mut i: usize = 0;
    assert(ls.take(0) =~= Seq::<Seq<char>>::empty());
    while i < lines.len()
        invariant
            i <= lines@.len(),
            vecs_view(lines@) == ls,
            ls == split_on(input@, '\n'),
            run_lines(ls.take(i as int)) == Ok::<ReadState, Seq<char>>(reader@),
        decreases lines@.len() - i,
    {
        assert(ls.take(i + 1).drop_last() =~= ls.take(i as int));
        assert(ls.take(i + 1).last() == lines@[i as int]@);
        match reader.step(&lines[i]) {
            Ok(()) => {},
            Err(e) => {
                proof {
                    lemma_run_lines_err(ls, i as int + 1);
                }
                return Err(e);
            },
        }
        i = i + 1;
    }
    assert(ls.take(i as int) =~= ls);
    reader.close_domain();
    Ok((reader.proxy_configs, reader.lb_configs))
}

/// Reading two runs of lines from `st` is reading the first, then the
/// second from where the first ended.
pub proof fn lemma_run_from_append(st: ReadState, l1: Seq<Seq<char>>, l2: Seq<Seq<char>>)
    ensures
        run_from(st, l1 + l2) == match run_from(st, l1) {
            Ok(s) => run_from(s, l2),
            Err(e) => Err(e),
        },
    decreases l2.len(),
{
    if l2.len() == 0 {
        assert(l1 + l2 =~= l1);
    } else {
        lemma_run_from_append(st, l1, l2.drop_last());
        assert((l1 + l2).drop_last() =~= l1 + l2.drop_last());
        assert((l1 + l2).last() == l2.last());
    }
}

/// An error in a prefix of the lines is the error of them all.
pub proof fn lemma_run_lines_err(lines: Seq<Seq<char>>, n: int)
    requires
        0 <= n <= lines.len(),
        run_lines(lines.take(n)) is Err,
    ensures
        run_lines(lines) == run_lines(lines.take(n)),
{
    lemma_run_from_append(initial_state(), lines.take(n), lines.skip(n));
    assert(lines.take(n) + lines.skip(n) =~= lines);
}

/// How many of the lines are `t` once trimmed of white space.
pub open spec fn count_lines(lines: Seq<Seq<char>>, t: Seq<char>) -> nat
    decreases lines.len(),
{
    if lines.len() == 0 {
        0
    } else {
        count_lines(lines.drop_last(), t) + if trim(lines.last(), CharSet::White) == t {
            1nat
        } else {
            0nat
        }
    }
}

/// Every section header line opens one section of its kind.
proof fn lemma_run_counts(lines: Seq<Seq<char>>)
    ensures
        run_lines(lines) matches Ok(st) ==> st.proxies.len() == count_lines(lines, "[proxy]"@)
            && st.lbs.len() == count_lines(lines, "[load_balancer]"@),
    decreases lines.len(),
{
    reveal_strlit("[proxy]");
    reveal_strlit("[load_balancer]");
    assert("[proxy]"@ != "[load_balancer]"@) by {
        assert("[proxy]"@.len() != "[load_balancer]"@.len());
    }
    if lines.len() > 0 {
        lemma_run_counts(lines.drop_last());
    }
}

/// Each `[proxy]` line opens one proxy section and each `[load_balancer]`
/// line one load balancer section: where the input reads, it gives as
/// many sections of each kind as it has such lines.
pub proof fn lemma_section_counts(s: Seq<char>)
    ensures
        spec_parse_combined_config(s) matches Ok((ps, ls)) ==> ps.len() == count_lines(
            split_on(s, '\n'),
            "[proxy]"@,
        ) && ls.len() == count_lines(split_on(s, '\n'), "[load_balancer]"@),
{
    lemma_run_counts(split_on(s, '\n'));
}

/// Lines that read as nothing may be dropped from between others.
proof fn lemma_run_lines_skip(l1: Seq<Seq<char>>, w: Seq<char>, l2: Seq<Seq<char>>)
    requires
        trim(w, CharSet::White).len() == 0,
    ensures
        run_lines(l1 + seq![w] + l2) == run_lines(l1 + l2),
{
    let st = initial_state();
    lemma_run_from_append(st, l1 + seq![w], l2);
    lemma_run_from_append(st, l1, seq![w]);
    lemma_run_from_append(st, l1, l2);
    assert(seq![w].drop_last() =~= Seq::<Seq<char>>::empty());
    match run_from(st, l1) {
        Ok(s) => {
            assert(seq![w].last() == w);
            assert(run_from(s, seq![w].drop_last()) == Ok::<ReadState, Seq<char>>(s));
            assert(run_from(s, seq![w]) == Ok::<ReadState, Seq<char>>(s));
        },
        Err(e) => {},
    }
}

/// A blank line (without a newline in it) may stand between any two lines of
/// the input without changing what it reads as.
pub proof fn lemma_skipped_line(a: Seq<char>, w: Seq<char>, b: Seq<char>)
    requires
        !w.contains('\n'),
        trim(w, CharSet::White).len() == 0,
    ensures
        spec_parse_combined_config(a + seq!['\n'] + w + seq!['\n'] + b) == spec_parse_combined_config(a + seq!['\n'] + b),
{
    crate::chars::lemma_lines_around(a, w, b);
    lemma_run_lines_skip(split_on(a, '\n'), w, split_on(b, '\n'));
}

/// Lines none of which opens a section leave the state before the first
/// section as it is.
proof fn lemma_preamble_lines(lines: Seq<Seq<char>>)
    requires
        forall|i: int| 0 <= i < lines.len() ==> !is_section_line(trim(lines[i], CharSet::White)),
    ensures
        run_lines(lines) == Ok::<ReadState, Seq<char>>(initial_state()),
    decreases lines.len(),
{
    if lines.len() > 0 {
        lemma_preamble_lines(lines.drop_last());
        assert(!is_section_line(trim(lines[lines.len() - 1], CharSet::White)));
    }
}

/// Lines before the first section header are ignored: text in which no
/// line, trimmed, is `[proxy]` or `[load_balancer]` may stand before any
/// input without changing what it reads as.
pub proof fn lemma_preamble_ignored(p: Seq<char>, s: Seq<char>)
    requires
        forall|i: int|
            0 <= i < split_on(p, '\n').len() ==> !is_section_line(
                trim(#[trigger] split_on(p, '\n')[i], CharSet::White),
            ),
    ensures
        spec_parse_combined_config(p + seq!['\n'] + s) == spec_parse_combined_config(s),
{
    crate::chars::lemma_split_on_join(p, s, '\n');
    lemma_preamble_lines(split_on(p, '\n'));
    lemma_run_from_append(initial_state(), split_on(p, '\n'), split_on(s, '\n'));
}

/// A state reached from the start: the section being read exists.
pub open spec fn well_formed(st: ReadState) -> bool {
    &&& st.kind == Some(ConfigType::Proxy) ==> st.proxies.len() > 0
    &&& st.kind == Some(ConfigType::LoadBalancer) ==> st.lbs.len() > 0
}

/// `st` with the sections `ps` and `ls` read before all of its own.
pub open spec fn after(ps: Seq<ProxyView>, ls: Seq<LBView>, st: ReadState) -> ReadState {
    ReadState { proxies: ps + st.proxies, lbs: ls + st.lbs, ..st }
}

/// Changing the last item commutes with putting items before.
proof fn lemma_with_last_after<T>(ps: Seq<T>, v: Seq<T>, x: T)
    requires
        v.len() > 0,
    ensures
        with_last(ps + v, x) == ps + with_last(v, x),
        (ps + v).last() == v.last(),
{
    assert(with_last(ps + v, x) =~= ps + with_last(v, x));
}

/// Filing the open domain does not look at the sections before.
proof fn lemma_close_domain_after(ps: Seq<ProxyView>, ls: Seq<LBView>, st: ReadState)
    requires
        well_formed(st),
    ensures
        close_domain(after(ps, ls, st)) == after(ps, ls, close_domain(st)),
        well_formed(close_domain(st)),
{
    let c = close_route(st);
    if c.kind == Some(ConfigType::Proxy) {
        match (c.domain, c.host) {
            (Some(d), Some(h)) => {
                lemma_with_last_after(
                    ps,
                    c.proxies,
                    ProxyView { servers: c.proxies.last().servers.insert(d, h), ..c.proxies.last() },
                );
            },
            _ => {},
        }
    } else if c.kind == Some(ConfigType::LoadBalancer) {
        match (c.domain, c.lb_host) {
            (Some(d), Some(h)) => {
                lemma_with_last_after(
                    ls,
                    c.lbs,
                    LBView { servers: c.lbs.last().servers.insert(d, h), ..c.lbs.last() },
                );
            },
            _ => {},
        }
    }
    assert(close_domain(after(ps, ls, st)) =~= after(ps, ls, close_domain(st)));
}

/// A line is read alike whatever sections were read before.
proof fn lemma_step_after(ps: Seq<ProxyView>, ls: Seq<LBView>, st: ReadState, raw: Seq<char>)
    requires
        well_formed(st),
    ensures
        step(after(ps, ls, st), raw) == match step(st, raw) {
            Ok(s) => Ok(after(ps, ls, s)),
            Err(e) => Err(e),
        },
        step(st, raw) matches Ok(s) ==> well_formed(s),
{
    let line = trim(raw, CharSet::White);
    let a = after(ps, ls, st);
    lemma_close_domain_after(ps, ls, st);
    if line.len() == 0 {
    } else if line == "[proxy]"@ {
        let c = close_domain(st);
        assert((ps + c.proxies).push(proxy_default()) =~= ps + c.proxies.push(proxy_default()));
        assert(open_section(a, ConfigType::Proxy) =~= after(ps, ls, open_section(st, ConfigType::Proxy)));
    } else if line == "[load_balancer]"@ {
        let c = close_domain(st);
        assert((ls + c.lbs).push(lb_default()) =~= ls + c.lbs.push(lb_default()));
        assert(open_section(a, ConfigType::LoadBalancer) =~= after(
            ps,
            ls,
            open_section(st, ConfigType::LoadBalancer),
        ));
    } else if starts_with(line, "[[["@) && ends_with(line, "]]]"@) {
        assert(open_route(a, domain_name(line)) =~= after(ps, ls, open_route(st, domain_name(line))));
    } else if starts_with(line, "[["@) && ends_with(line, "]]"@) {
        assert(open_domain(a, domain_name(line)) =~= after(ps, ls, open_domain(st, domain_name(line))));
    } else {
        match split_once(line, '=') {
            Some((k, x)) => {
                let key = line_key(k);
                let value = line_value(x);
                if st.kind == Some(ConfigType::Proxy) && st.route is None && st.host is None {
                    lemma_with_last_after(
                        ps,
                        st.proxies,
                        set_proxy_key(st.proxies.last(), key, value),
                    );
                } else if st.kind == Some(ConfigType::LoadBalancer) && st.lb_host is None {
                    lemma_with_last_after(ls, st.lbs, set_lb_key(st.lbs.last(), key, value));
                }
                match set_key(st, key, value) {
                    Ok(s) => {
                        assert(set_key(a, key, value) == Ok::<ReadState, Seq<char>>(after(ps, ls, s)));
                    },
                    Err(e) => {},
                }
            },
            None => {},
        }
    }
}

/// Lines are read alike whatever sections were read before.
proof fn lemma_run_from_after(ps: Seq<ProxyView>, ls: Seq<LBView>, st: ReadState, lines: Seq<Seq<char>>)
    requires
        well_formed(st),
    ensures
        run_from(after(ps, ls, st), lines) == match run_from(st, lines) {
            Ok(s) => Ok(after(ps, ls, s)),
            Err(e) => Err(e),
        },
        run_from(st, lines) matches Ok(s) ==> well_formed(s),
    decreases lines.len(),
{
    if lines.len() > 0 {
        lemma_run_from_after(ps, ls, st, lines.drop_last());
        match run_from(st, lines.drop_last()) {
            Ok(s) => {
                lemma_step_after(ps, ls, s, lines.last());
            },
            Err(e) => {},
        }
    }
}

/// Blank lines leave any state as it is.
proof fn lemma_blank_lines(st: ReadState, lines: Seq<Seq<char>>)
    requires
        forall|i: int| 0 <= i < lines.len() ==> trim(#[trigger] lines[i], CharSet::White).len() == 0,
    ensures
        run_from(st, lines) == Ok::<ReadState, Seq<char>>(st),
    decreases lines.len(),
{
    if lines.len() > 0 {
        lemma_blank_lines(st, lines.drop_last());
        assert(trim(lines[lines.len() - 1], CharSet::White).len() == 0);
    }
}

/// Two texts joined where the second opens a section read as the first
/// and then the second: the first error of either, or the sections of
/// the first followed by those of the second. The second text's first
/// line that is not blank is its line `k`, and it is `[proxy]` or
/// `[load_balancer]`.
pub proof fn lemma_join_at_section(s1: Seq<char>, s2: Seq<char>, k: int)
    requires
        0 <= k < split_on(s2, '\n').len(),
        forall|i: int|
            0 <= i < k ==> trim(#[trigger] split_on(s2, '\n')[i], CharSet::White).len() == 0,
        is_section_line(trim(split_on(s2, '\n')[k], CharSet::White)),
    ensures
        spec_parse_combined_config(s1 + seq!['\n'] + s2) == match (
            spec_parse_combined_config(s1),
            spec_parse_combined_config(s2),
        ) {
            (Err(e), _) => Err(e),
            (Ok(_), Err(e)) => Err(e),
            (Ok((p1, l1)), Ok((p2, l2))) => Ok((p1 + p2, l1 + l2)),
        },
{
    let l1 = split_on(s1, '\n');
    let l2 = split_on(s2, '\n');
    let blank = l2.take(k);
    let rest = l2.skip(k + 1);
    let h = l2[k];
    let line = trim(h, CharSet::White);
    let i = initial_state();
    crate::chars::lemma_split_on_join(s1, s2, '\n');
    assert(l2 =~= blank + seq![h] + rest);
    lemma_run_from_append(i, l1, l2);
    lemma_blank_lines(i, blank);
    lemma_run_from_append(i, blank + seq![h], rest);
    lemma_run_from_append(i, blank, seq![h]);
    assert(seq![h].drop_last() =~= Seq::<Seq<char>>::empty());
    let kind = if line == "[proxy]"@ {
        ConfigType::Proxy
    } else {
        ConfigType::LoadBalancer
    };
    assert("[proxy]"@ != "[load_balancer]"@) by {
        reveal_strlit("[proxy]");
        reveal_strlit("[load_balancer]");
        assert("[proxy]"@.len() != "[load_balancer]"@.len());
    }
    reveal_strlit("[proxy]");
    reveal_strlit("[load_balancer]");
    let y0 = open_section(i, kind);
    assert(close_domain(i) == i);
    assert(y0.proxies =~= match kind {
        ConfigType::Proxy => seq![proxy_default()],
        ConfigType::LoadBalancer => Seq::<ProxyView>::empty(),
    });
    assert(y0.lbs =~= match kind {
        ConfigType::Proxy => Seq::<LBView>::empty(),
        ConfigType::LoadBalancer => seq![lb_default()],
    });
    assert(step(i, h) == Ok::<ReadState, Seq<char>>(y0));
    assert(seq![h].last() == h);
    assert forall|j: int| 0 <= j < blank.len() implies trim(#[trigger] blank[j], CharSet::White).len() == 0 by {
        assert(blank[j] == l2[j]);
    }
    lemma_blank_lines(i, blank);
    assert(run_from(i, seq![h].drop_last()) == Ok::<ReadState, Seq<char>>(i));
    assert(run_from(i, seq![h]) == Ok::<ReadState, Seq<char>>(y0));
    assert(run_from(i, blank + seq![h]) == Ok::<ReadState, Seq<char>>(y0));
    assert(run_lines(l2) == run_from(y0, rest));
    match run_from(i, l1) {
        Ok(a) => {
            lemma_blank_lines(a, blank);
            lemma_run_from_append(a, blank + seq![h], rest);
            lemma_run_from_append(a, blank, seq![h]);
            let c = close_domain(a);
            assert(step(a, h) == Ok::<ReadState, Seq<char>>(open_section(a, kind)));
            assert(open_section(a, kind).proxies =~= c.proxies + y0.proxies);
            assert(open_section(a, kind).lbs =~= c.lbs + y0.lbs);
            assert(open_section(a, kind) == after(c.proxies, c.lbs, y0));
            assert(run_from(a, seq![h].drop_last()) == Ok::<ReadState, Seq<char>>(a));
            assert(run_from(a, seq![h]) == Ok::<ReadState, Seq<char>>(open_section(a, kind)));
            assert(run_from(a, blank + seq![h]) == Ok::<ReadState, Seq<char>>(after(c.proxies, c.lbs, y0)));
            assert(run_lines(l1 + l2) == run_from(after(c.proxies, c.lbs, y0), rest));
            assert(spec_parse_combined_config(s1) == Ok::<(Seq<ProxyView>, Seq<LBView>), Seq<char>>((c.proxies, c.lbs)));
            lemma_run_from_after(c.proxies, c.lbs, y0, rest);
            match run_from(y0, rest) {
                Ok(y) => {
                    lemma_close_domain_after(c.proxies, c.lbs, y);
                },
                Err(e) => {},
            }
        },
        Err(e) => {},
    }
}

/// Reads a header list `[[key: value, key: value]]`; fails with
/// `Invalid header format: ` and the first entry without a colon.
pub fn parse_headers(input: &str) -> (r: Result<Vec<(String, String)>, String>)
    ensures
        headers_result(r) == spec_parse_headers(input@),
{
    headers_from(&chars_of(input))
}

/// Of two lines that set the same key of the same block, the later one
/// wins.
pub proof fn lemma_later_key_wins(
    st: ReadState,
    key: Seq<char>,
    v1: Seq<char>,
    v2: Seq<char>,
)
    requires
        set_key(st, key, v1) is Ok,
    ensures
        set_key(set_key(st, key, v1)->Ok_0, key, v2) == set_key(st, key, v2),
{
    match st.kind {
        Some(ConfigType::Proxy) => match st.route {
            Some((n, r)) => {
                let r1 = set_route_key(r, key, v1)->Ok_0;
                assert(set_route_key(r1, key, v2) == match set_route_key(r, key, v2) {
                    Ok(x) => Ok::<RouteView, Seq<char>>(x),
                    Err(e) => Err(e),
                });
            },
            None => match st.host {
                Some(h) => {
                    let h1 = set_host_key(h, key, v1)->Ok_0;
                    assert(set_host_key(h1, key, v2) == match set_host_key(h, key, v2) {
                        Ok(x) => Ok::<HostView, Seq<char>>(x),
                        Err(e) => Err(e),
                    });
                },
                None => {
                    let ps = st.proxies;
                    if ps.len() > 0 {
                        let p1 = with_last(ps, set_proxy_key(ps.last(), key, v1));
                        assert(p1.last() == set_proxy_key(ps.last(), key, v1));
                        assert(with_last(p1, set_proxy_key(p1.last(), key, v2)) =~= with_last(
                            ps,
                            set_proxy_key(ps.last(), key, v2),
                        ));
                    }
                },
            },
        },
        Some(ConfigType::LoadBalancer) => match st.lb_host {
            Some(h) => {
                let h1 = set_lb_host_key(h, key, v1)->Ok_0;
                assert(set_lb_host_key(h1, key, v2) == match set_lb_host_key(h, key, v2) {
                    Ok(x) => Ok::<LBHostView, Seq<char>>(x),
                    Err(e) => Err(e),
                });
            },
            None => {
                let ls = st.lbs;
                if ls.len() > 0 {
                    let l1 = with_last(ls, set_lb_key(ls.last(), key, v1));
                    assert(l1.last() == set_lb_key(ls.last(), key, v1));
                    assert(with_last(l1, set_lb_key(l1.last(), key, v2)) =~= with_last(
                        ls,
                        set_lb_key(ls.last(), key, v2),
                    ));
                }
            },
        },
        None => {},
    }
}

/// The keys that the line readers know are all different words.
pub proof fn lemma_key_names()
    ensures
        "proxy_addr"@ != "proxy_tls"@,
        "proxy_addr"@ != "proxy_headers"@,
        "proxy_addr"@ != "proxy_uds"@,
        "proxy_tls"@ != "proxy_headers"@,
        "proxy_tls"@ != "proxy_uds"@,
        "proxy_headers"@ != "proxy_uds"@,
        "listener"@ != "tls_certificate"@,
        "listener"@ != "tls_certificate_key"@,
        "tls_certificate"@ != "tls_certificate_key"@,
        "load_balancer_tls"@ != "load_balancer_headers"@,
        "listener"@ != "upstreams"@,
        "listener"@ != "health_check"@,
        "listener"@ != "health_check_frequency"@,
        "listener"@ != "parallel_health_check"@,
        "upstreams"@ != "health_check"@,
        "upstreams"@ != "health_check_frequency"@,
        "upstreams"@ != "parallel_health_check"@,
        "upstreams"@ != "tls_certificate"@,
        "upstreams"@ != "tls_certificate_key"@,
        "health_check"@ != "health_check_frequency"@,
        "health_check"@ != "parallel_health_check"@,
        "health_check"@ != "tls_certificate"@,
        "health_check"@ != "tls_certificate_key"@,
        "health_check_frequency"@ != "parallel_health_check"@,
        "health_check_frequency"@ != "tls_certificate"@,
        "health_check_frequency"@ != "tls_certificate_key"@,
        "parallel_health_check"@ != "tls_certificate"@,
        "parallel_health_check"@ != "tls_certificate_key"@,
{
    reveal_strlit("proxy_addr");
    reveal_strlit("proxy_tls");
    reveal_strlit("proxy_headers");
    reveal_strlit("proxy_uds");
    reveal_strlit("listener");
    reveal_strlit("tls_certificate");
    reveal_strlit("tls_certificate_key");
    reveal_strlit("load_balancer_tls");
    reveal_strlit("load_balancer_headers");
    reveal_strlit("upstreams");
    reveal_strlit("health_check");
    reveal_strlit("health_check_frequency");
    reveal_strlit("parallel_health_check");
    assert("proxy_addr"@.len() == 10);
    assert("proxy_tls"@.len() == 9);
    assert("proxy_headers"@.len() == 13);
    assert("proxy_uds"@.len() == 9);
    assert("listener"@.len() == 8);
    assert("tls_certificate"@.len() == 15);
    assert("tls_certificate_key"@.len() == 19);
    assert("load_balancer_tls"@.len() == 17);
    assert("load_balancer_headers"@.len() == 21);
    assert("upstreams"@.len() == 9);
    assert("health_check"@.len() == 12);
    assert("health_check_frequency"@.len() == 22);
    assert("parallel_health_check"@.len() == 21);
    assert("proxy_tls"@[6] != "proxy_uds"@[6]);
}

/// In a proxied domain with no open route, `proxy_addr` sets the domain's
/// address to the value, `proxy_tls` and `proxy_uds` set its flags to
/// whether the value is `true`, `proxy_headers` sets its headers to the
/// list read from the value (or fails as that list does), and any other
/// key changes nothing.
pub proof fn lemma_domain_keys(st: ReadState, h: HostView, v: Seq<char>, other: Seq<char>)
    requires
        st.kind == Some(ConfigType::Proxy),
        st.route is None,
        st.host == Some(h),
        other != "proxy_addr"@,
        other != "proxy_tls"@,
        other != "proxy_headers"@,
        other != "proxy_uds"@,
    ensures
        set_key(st, "proxy_addr"@, v) == Ok::<ReadState, Seq<char>>(
            ReadState { host: Some(HostView { proxy_addr: v, ..h }), ..st },
        ),
        set_key(st, "proxy_tls"@, v) == Ok::<ReadState, Seq<char>>(
            ReadState { host: Some(HostView { proxy_tls: v == "true"@, ..h }), ..st },
        ),
        set_key(st, "proxy_uds"@, v) == Ok::<ReadState, Seq<char>>(
            ReadState { host: Some(HostView { proxy_uds: v == "true"@, ..h }), ..st },
        ),
        set_key(st, "proxy_headers"@, v) == match spec_parse_headers(v) {
            Ok(hs) => Ok(ReadState { host: Some(HostView { proxy_headers: Some(hs), ..h }), ..st }),
            Err(e) => Err(e),
        },
        set_key(st, other, v) == Ok::<ReadState, Seq<char>>(st),
{
    lemma_key_names();
}

/// In an open route, `proxy_addr` sets the route's address to the value,
/// `proxy_tls` and `proxy_uds` set its flags to whether the value is
/// `true`, `proxy_headers` sets its headers to the list read from the
/// value (or fails as that list does), and any other key changes nothing.
pub proof fn lemma_route_keys(
    st: ReadState,
    n: Seq<char>,
    r: RouteView,
    v: Seq<char>,
    other: Seq<char>,
)
    requires
        st.kind == Some(ConfigType::Proxy),
        st.route == Some((n, r)),
        other != "proxy_addr"@,
        other != "proxy_tls"@,
        other != "proxy_headers"@,
        other != "proxy_uds"@,
    ensures
        set_key(st, "proxy_addr"@, v) == Ok::<ReadState, Seq<char>>(
            ReadState { route: Some((n, RouteView { proxy_addr: Some(v), ..r })), ..st },
        ),
        set_key(st, "proxy_tls"@, v) == Ok::<ReadState, Seq<char>>(
            ReadState { route: Some((n, RouteView { proxy_tls: v == "true"@, ..r })), ..st },
        ),
        set_key(st, "proxy_uds"@, v) == Ok::<ReadState, Seq<char>>(
            ReadState { route: Some((n, RouteView { proxy_uds: v == "true"@, ..r })), ..st },
        ),
        set_key(st, "proxy_headers"@, v) == match spec_parse_headers(v) {
            Ok(hs) => Ok(
                ReadState { route: Some((n, RouteView { proxy_headers: Some(hs), ..r })), ..st },
            ),
            Err(e) => Err(e),
        },
        set_key(st, other, v) == Ok::<ReadState, Seq<char>>(st),
{
    lemma_key_names();
}

/// In a proxy section with no open domain, `listener` sets the section's
/// listener to the value, `tls_certificate` and `tls_certificate_key` set
/// its certificate and key to the value, and any other key changes
/// nothing; earlier sections stay as they are.
pub proof fn lemma_proxy_section_keys(st: ReadState, v: Seq<char>, other: Seq<char>)
    requires
        st.kind == Some(ConfigType::Proxy),
        st.route is None,
        st.host is None,
        st.proxies.len() > 0,
        other != "listener"@,
        other != "tls_certificate"@,
        other != "tls_certificate_key"@,
    ensures
        ({
            let i = st.proxies.len() - 1;
            let p = st.proxies[i];
            &&& set_key(st, "listener"@, v) == Ok::<ReadState, Seq<char>>(
                ReadState { proxies: st.proxies.update(i, ProxyView { listener: v, ..p }), ..st },
            )
            &&& set_key(st, "tls_certificate"@, v) == Ok::<ReadState, Seq<char>>(
                ReadState {
                    proxies: st.proxies.update(i, ProxyView { tls_certificate: Some(v), ..p }),
                    ..st
                },
            )
            &&& set_key(st, "tls_certificate_key"@, v) == Ok::<ReadState, Seq<char>>(
                ReadState {
                    proxies: st.proxies.update(i, ProxyView { tls_certificate_key: Some(v), ..p }),
                    ..st
                },
            )
            &&& set_key(st, other, v) == Ok::<ReadState, Seq<char>>(st)
        }),
{
    lemma_key_names();
    let i = st.proxies.len() - 1;
    assert(st.proxies.update(i, st.proxies[i]) =~= st.proxies);
}

/// In a load balancer domain, `load_balancer_tls` sets its flag to whether
/// the value is `true`, `load_balancer_headers` sets its headers to the
/// list read from the value (or fails as that list does), and any other
/// key changes nothing.
pub proof fn lemma_lb_domain_keys(st: ReadState, h: LBHostView, v: Seq<char>, other: Seq<char>)
    requires
        st.kind == Some(ConfigType::LoadBalancer),
        st.lb_host == Some(h),
        other != "load_balancer_tls"@,
        other != "load_balancer_headers"@,
    ensures
        set_key(st, "load_balancer_tls"@, v) == Ok::<ReadState, Seq<char>>(
            ReadState { lb_host: Some(LBHostView { load_balancer_tls: v == "true"@, ..h }), ..st },
        ),
        set_key(st, "load_balancer_headers"@, v) == match spec_parse_headers(v) {
            Ok(hs) => Ok(
                ReadState {
                    lb_host: Some(LBHostView { load_balancer_headers: Some(hs), ..h }),
                    ..st
                },
            ),
            Err(e) => Err(e),
        },
        set_key(st, other, v) == Ok::<ReadState, Seq<char>>(st),
{
    lemma_key_names();
}

/// In a load balancer section with no open domain: `listener`,
/// `tls_certificate` and `tls_certificate_key` take the value;
/// `upstreams` takes the value's comma-separated items, trimmed;
/// `health_check` becomes whether the value is `true`; the two numeric
/// keys take the value read as a `u64`, or nothing where it is none; any
/// other key changes nothing. Earlier sections stay as they are.
pub proof fn lemma_lb_section_keys(st: ReadState, v: Seq<char>, other: Seq<char>)
    requires
        st.kind == Some(ConfigType::LoadBalancer),
        st.lb_host is None,
        st.lbs.len() > 0,
        other != "listener"@,
        other != "upstreams"@,
        other != "health_check"@,
        other != "health_check_frequency"@,
        other != "parallel_health_check"@,
        other != "tls_certificate"@,
        other != "tls_certificate_key"@,
    ensures
        ({
            let i = st.lbs.len() - 1;
            let l = st.lbs[i];
            &&& set_key(st, "listener"@, v) == Ok::<ReadState, Seq<char>>(
                ReadState { lbs: st.lbs.update(i, LBView { listener: v, ..l }), ..st },
            )
            &&& set_key(st, "upstreams"@, v) == Ok::<ReadState, Seq<char>>(
                ReadState {
                    lbs: st.lbs.update(
                        i,
                        LBView {
                            upstreams: split_on(v, ',').map_values(
                                |e: Seq<char>| trim(e, CharSet::White),
                            ),
                            ..l
                        },
                    ),
                    ..st
                },
            )
            &&& set_key(st, "health_check"@, v) == Ok::<ReadState, Seq<char>>(
                ReadState {
                    lbs: st.lbs.update(i, LBView { health_check: Some(v == "true"@), ..l }),
                    ..st
                },
            )
            &&& set_key(st, "health_check_frequency"@, v) == Ok::<ReadState, Seq<char>>(
                ReadState {
                    lbs: st.lbs.update(i, LBView { health_check_frequency: std_u64(v), ..l }),
                    ..st
                },
            )
            &&& set_key(st, "parallel_health_check"@, v) == Ok::<ReadState, Seq<char>>(
                ReadState {
                    lbs: st.lbs.update(i, LBView { parallel_health_check: std_u64(v), ..l }),
                    ..st
                },
            )
            &&& set_key(st, "tls_certificate"@, v) == Ok::<ReadState, Seq<char>>(
                ReadState {
                    lbs: st.lbs.update(i, LBView { tls_certificate: Some(v), ..l }),
                    ..st
                },
            )
            &&& set_key(st, "tls_certificate_key"@, v) == Ok::<ReadState, Seq<char>>(
                ReadState {
                    lbs: st.lbs.update(i, LBView { tls_certificate_key: Some(v), ..l }),
                    ..st
                },
            )
            &&& set_key(st, other, v) == Ok::<ReadState, Seq<char>>(st)
        }),
{
    lemma_key_names();
    let i = st.lbs.len() - 1;
    assert(st.lbs.update(i, st.lbs[i]) =~= st.lbs);
}

/// A line `k=v` is read as setting the key `k` to the value `v`, where
/// `k` holds no `=` and begins with no `[`, and neither `k` nor `v` has
/// white space at its ends, nor `v` a double quote.
pub proof fn lemma_key_line(st: ReadState, k: Seq<char>, v: Seq<char>)
    requires
        k.len() > 0,
        v.len() > 0,
        !k.contains('='),
        k[0] != '[',
        !crate::chars::is_white(k[0]),
        !crate::chars::is_white(k.last()),
        !crate::chars::is_white(v[0]),
        !crate::chars::is_white(v.last()),
        v[0] != '"',
        v.last() != '"',
    ensures
        step(st, k + seq!['='] + v) == set_key(st, k, v),
{
    reveal_strlit("[proxy]");
    reveal_strlit("[load_balancer]");
    reveal_strlit("[[[");
    reveal_strlit("[[");
    let line = k + seq!['='] + v;
    assert(line[0] == k[0]);
    assert(line.last() == v.last());
    crate::chars::lemma_trim_none(line, CharSet::White);
    assert(line != "[proxy]"@ && line != "[load_balancer]"@) by {
        assert("[proxy]"@[0] == '[');
        assert("[load_balancer]"@[0] == '[');
    }
    assert(!starts_with(line, "[[["@)) by {
        if starts_with(line, "[[["@) {
            assert(line.subrange(0, 3)[0] == line[0]);
        }
    }
    assert(!starts_with(line, "[["@)) by {
        if starts_with(line, "[["@) {
            assert(line.subrange(0, 2)[0] == line[0]);
        }
    }
    crate::chars::lemma_split_once_first(k, '=', v);
    crate::chars::lemma_trim_none(k, CharSet::White);
    crate::chars::lemma_trim_none(v, CharSet::White);
    crate::chars::lemma_trim_none(v, CharSet::One('"'));
}

/// The name in `o`, `d`, `c`, where `o` is all `[` and `c` all `]`, and
/// `d` neither begins nor ends with a bracket or white space, is `d`.
pub proof fn lemma_block_name(o: Seq<char>, d: Seq<char>, c: Seq<char>)
    requires
        o.len() > 0,
        c.len() > 0,
        forall|i: int| 0 <= i < o.len() ==> o[i] == '[',
        forall|i: int| 0 <= i < c.len() ==> c[i] == ']',
        d.len() > 0,
        d[0] != '[',
        d[0] != ']',
        d.last() != '[',
        d.last() != ']',
        !crate::chars::is_white(d[0]),
        !crate::chars::is_white(d.last()),
    ensures
        domain_name(o + d + c) == d,
{
    let line = o + d + c;
    assert(line =~= o + (d + c));
    assert forall|i: int| 0 <= i < o.len() implies crate::chars::in_set(
        CharSet::One('['),
        #[trigger] o[i],
    ) by {}
    assert forall|i: int| 0 <= i < c.len() implies crate::chars::in_set(
        CharSet::One(']'),
        #[trigger] c[i],
    ) by {}
    assert((d + c)[0] == d[0]);
    crate::chars::lemma_trim_start_prefix(o, d + c, CharSet::One('['));
    assert((d + c).last() == c.last());
    assert(crate::chars::trim_end(d + c, CharSet::One('[')) == d + c);
    assert(crate::chars::trim_start(d + c, CharSet::One(']')) == d + c);
    crate::chars::lemma_trim_end_suffix(d, c, CharSet::One(']'));
    crate::chars::lemma_trim_none(d, CharSet::White);
}

/// A line `[[d]]` opens the domain `d` and a line `[[[d]]]` the route
/// `d`, where `d` neither begins nor ends with a bracket or white space.
pub proof fn lemma_block_lines(st: ReadState, d: Seq<char>)
    requires
        d.len() > 0,
        d[0] != '[',
        d[0] != ']',
        d.last() != '[',
        d.last() != ']',
        !crate::chars::is_white(d[0]),
        !crate::chars::is_white(d.last()),
    ensures
        step(st, "[["@ + d + "]]"@) == Ok::<ReadState, Seq<char>>(open_domain(st, d)),
        step(st, "[[["@ + d + "]]]"@) == Ok::<ReadState, Seq<char>>(open_route(st, d)),
{
    reveal_strlit("[[");
    reveal_strlit("]]");
    reveal_strlit("[[[");
    reveal_strlit("]]]");
    reveal_strlit("[proxy]");
    reveal_strlit("[load_balancer]");
    let l2 = "[["@ + d + "]]"@;
    let l3 = "[[["@ + d + "]]]"@;
    assert(l2[0] == '[' && l2.last() == ']');
    assert(l3[0] == '[' && l3.last() == ']');
    crate::chars::lemma_trim_none(l2, CharSet::White);
    crate::chars::lemma_trim_none(l3, CharSet::White);
    assert(l2[1] == '[' && l3[1] == '[');
    assert("[proxy]"@[1] != '[' && "[load_balancer]"@[1] != '[');
    assert(l2.subrange(0, 2) =~= "[["@);
    assert(l2.subrange(l2.len() - 2, l2.len() as int) =~= "]]"@);
    assert(l2[2] == d[0]);
    assert(!starts_with(l2, "[[["@)) by {
        if starts_with(l2, "[[["@) {
            assert(l2.subrange(0, 3)[2] == l2[2]);
        }
    }
    assert(l3.subrange(0, 3) =~= "[[["@);
    assert(l3.subrange(l3.len() - 3, l3.len() as int) =~= "]]]"@);
    lemma_block_name("[["@, d, "]]"@);
    lemma_block_name("[[["@, d, "]]]"@);
}

} // verus!
