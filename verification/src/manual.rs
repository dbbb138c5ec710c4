//! A line-based reader of whole configurations.
//!
//! Lines are trimmed of white space; blank lines and lines that begin with
//! `#` are skipped. A line `[["name"]]` adds the domain `name` to the open
//! `proxy` or `load_balancer` section; any other line that begins with `[`
//! names the current section: the line without its brackets and double
//! quotes. `prometheus_addr` is read before any section, and the keys of
//! `proxy` and `load_balancer` sections in those sections.
use vstd::prelude::*;
use crate::chars::{
    begins_with, ends_with, in_set, finishes_with, is_text, parse_u64_text, split, split_once,
    split_once_at, split_on, starts_with, std_u64, trim, trimmed, vecs_view, to_string, CharSet,
};
use crate::lexer::{opt_pairs_view, opt_str_view, strings_view, HeadersView};
use crate::str_map::StrMap;
use crate::text::chars_of;

verus! {

broadcast use vstd::string::group_string_axioms;

/// One `proxy` section.
#[derive(Debug)]
pub struct ProxyConfig {
    pub listener: String,
    pub tls_certificate: Option<String>,
    pub tls_certificate_key: Option<String>,
    pub servers: StrMap<ProxyHostConfig>,
}

/// One `load_balancer` section.
#[derive(Debug)]
pub struct LoadBalancerConfig {
    pub listener: String,
    pub upstreams: Vec<String>,
    pub health_check: Option<bool>,
    pub health_check_frequency: Option<u64>,
    pub parallel_health_check: Option<bool>,
    pub tls_certificate: Option<String>,
    pub tls_certificate_key: Option<String>,
    pub servers: StrMap<LBHostConfig>,
}

/// The whole configuration.
#[derive(Debug)]
pub struct Config {
    pub prometheus_addr: Option<String>,
    pub proxy: Option<Vec<ProxyConfig>>,
    pub load_balancer: Option<Vec<LoadBalancerConfig>>,
}

/// The settings of one domain of a load balancer.
#[derive(Debug)]
pub struct LBHostConfig {
    pub load_balancer_tls: bool,
    pub load_balancer_headers: Option<Vec<(String, String)>>,
}

/// The settings of one proxied domain.
#[derive(Debug)]
pub struct ProxyHostConfig {
    pub proxy_addr: String,
    pub proxy_tls: bool,
    pub proxy_headers: Option<Vec<(String, String)>>,
    pub proxy_uds: Option<bool>,
}

/// A proxied domain's settings as values.
pub struct HostView {
    pub proxy_addr: Seq<char>,
    pub proxy_tls: bool,
    pub proxy_headers: Option<HeadersView>,
    pub proxy_uds: Option<bool>,
}

/// A load balancer's domain settings as values.
pub struct LBHostView {
    pub load_balancer_tls: bool,
    pub load_balancer_headers: Option<HeadersView>,
}

/// A proxy section as values.
pub struct ProxyView {
    pub listener: Seq<char>,
    pub tls_certificate: Option<Seq<char>>,
    pub tls_certificate_key: Option<Seq<char>>,
    pub servers: Map<Seq<char>, HostView>,
}

/// A load balancer section as values.
pub struct LBView {
    pub listener: Seq<char>,
    pub upstreams: Seq<Seq<char>>,
    pub health_check: Option<bool>,
    pub health_check_frequency: Option<u64>,
    pub parallel_health_check: Option<bool>,
    pub tls_certificate: Option<Seq<char>>,
    pub tls_certificate_key: Option<Seq<char>>,
    pub servers: Map<Seq<char>, LBHostView>,
}

/// The whole configuration as values.
pub struct ConfigView {
    pub prometheus_addr: Option<Seq<char>>,
    pub proxy: Option<Seq<ProxyView>>,
    pub load_balancer: Option<Seq<LBView>>,
}

impl View for ProxyHostConfig {
    type V = HostView;

    open spec fn view(&self) -> HostView {
        HostView {
            proxy_addr: self.proxy_addr@,
            proxy_tls: self.proxy_tls,
            proxy_headers: opt_pairs_view(self.proxy_headers),
            proxy_uds: self.proxy_uds,
        }
    }
}

impl View for LBHostConfig {
    type V = LBHostView;

    open spec fn view(&self) -> LBHostView {
        LBHostView {
            load_balancer_tls: self.load_balancer_tls,
            load_balancer_headers: opt_pairs_view(self.load_balancer_headers),
        }
    }
}

impl View for ProxyConfig {
    type V = ProxyView;

    open spec fn view(&self) -> ProxyView {
        ProxyView {
            listener: self.listener@,
            tls_certificate: opt_str_view(self.tls_certificate),
            tls_certificate_key: opt_str_view(self.tls_certificate_key),
            servers: self.servers@,
        }
    }
}

impl View for LoadBalancerConfig {
    type V = LBView;

    open spec fn view(&self) -> LBView {
        LBView {
            listener: self.listener@,
            upstreams: strings_view(self.upstreams@),
            health_check: self.health_check,
            health_check_frequency: self.health_check_frequency,
            parallel_health_check: self.parallel_health_check,
            tls_certificate: opt_str_view(self.tls_certificate),
            tls_certificate_key: opt_str_view(self.tls_certificate_key),
            servers: self.servers@,
        }
    }
}

/// Proxy sections taken by their views.
pub open spec fn proxies_view(v: Seq<ProxyConfig>) -> Seq<ProxyView> {
    v.map_values(|c: ProxyConfig| c@)
}

/// Load balancer sections taken by their views.
pub open spec fn lbs_view(v: Seq<LoadBalancerConfig>) -> Seq<LBView> {
    v.map_values(|c: LoadBalancerConfig| c@)
}

impl View for Config {
    type V = ConfigView;

    open spec fn view(&self) -> ConfigView {
        ConfigView {
            prometheus_addr: opt_str_view(self.prometheus_addr),
            proxy: match self.proxy {
                Some(v) => Some(proxies_view(v@)),
                None => None,
            },
            load_balancer: match self.load_balancer {
                Some(v) => Some(lbs_view(v@)),
                None => None,
            },
        }
    }
}

/// A proxy section with nothing set.
pub open spec fn proxy_default() -> ProxyView {
    ProxyView {
        listener: Seq::empty(),
        tls_certificate: None,
        tls_certificate_key: None,
        servers: Map::empty(),
    }
}

/// A load balancer section with nothing set.
pub open spec fn lb_default() -> LBView {
    LBView {
        listener: Seq::empty(),
        upstreams: Seq::empty(),
        health_check: None,
        health_check_frequency: None,
        parallel_health_check: None,
        tls_certificate: None,
        tls_certificate_key: None,
        servers: Map::empty(),
    }
}

/// A proxied domain with nothing set.
pub open spec fn host_default() -> HostView {
    HostView { proxy_addr: Seq::empty(), proxy_tls: false, proxy_headers: None, proxy_uds: None }
}

/// A load balancer domain with nothing set.
pub open spec fn lb_host_default() -> LBHostView {
    LBHostView { load_balancer_tls: false, load_balancer_headers: None }
}

/// `key = value`: the text before the first `=` and the text after it,
/// both trimmed of white space.
pub open spec fn spec_parse_key_value(line: Seq<char>) -> Option<(Seq<char>, Seq<char>)> {
    match split_once(line, '=') {
        Some((k, x)) => Some((trim(k, CharSet::White), trim(x, CharSet::White))),
        None => None,
    }
}

/// A domain block header `[["name"]]`: the name is the line stripped of
/// brackets and double quotes at both ends.
pub open spec fn spec_server_block(line: Seq<char>) -> Option<Seq<char>> {
    if starts_with(line, "[[\""@) && ends_with(line, "\"]]"@) {
        Some(trim(line, CharSet::BracketsAndQuote))
    } else {
        None
    }
}

/// The items of a list value `["a", "b"]`: the text between the brackets
/// split at commas, each item trimmed of white space and then of double
/// quotes; no items where nothing stands between the brackets.
pub open spec fn list_items(value: Seq<char>) -> Seq<Seq<char>> {
    let inner = trim(trim(trim(value, CharSet::One('[')), CharSet::One(']')), CharSet::White);
    if inner.len() == 0 {
        Seq::empty()
    } else {
        split_on(inner, ',').map_values(|e: Seq<char>| trim(trim(e, CharSet::White), CharSet::One('"')))
    }
}

/// A proxy section with one key set.
pub open spec fn set_proxy_key(p: ProxyView, key: Seq<char>, value: Seq<char>) -> ProxyView {
    if key == "listener"@ {
        ProxyView { listener: value, ..p }
    } else if key == "tls_certificate"@ {
        ProxyView { tls_certificate: Some(value), ..p }
    } else if key == "tls_certificate_key"@ {
        ProxyView { tls_certificate_key: Some(value), ..p }
    } else {
        p
    }
}

/// A load balancer section with one key set; flags are true only for the
/// text `true`.
pub open spec fn set_lb_key(l: LBView, key: Seq<char>, value: Seq<char>) -> LBView {
    if key == "listener"@ {
        LBView { listener: value, ..l }
    } else if key == "upstreams"@ {
        LBView { upstreams: list_items(value), ..l }
    } else if key == "health_check"@ {
        LBView { health_check: Some(value == "true"@), ..l }
    } else if key == "health_check_frequency"@ {
        LBView { health_check_frequency: std_u64(value), ..l }
    } else if key == "parallel_health_check"@ {
        LBView { parallel_health_check: Some(value == "true"@), ..l }
    } else if key == "tls_certificate"@ {
        LBView { tls_certificate: Some(value), ..l }
    } else if key == "tls_certificate_key"@ {
        LBView { tls_certificate_key: Some(value), ..l }
    } else {
        l
    }
}

/// What the reader holds between two lines.
pub struct ReadState {
    pub prometheus_addr: Option<Seq<char>>,
    pub proxies: Seq<ProxyView>,
    pub lbs: Seq<LBView>,
    pub section: Seq<char>,
    pub proxy: Option<ProxyView>,
    pub lb: Option<LBView>,
}

/// The state before the first line.
pub open spec fn initial_state() -> ReadState {
    ReadState {
        prometheus_addr: None,
        proxies: Seq::empty(),
        lbs: Seq::empty(),
        section: Seq::empty(),
        proxy: None,
        lb: None,
    }
}

/// `v` with `o` appended where there is one.
pub open spec fn push_opt<T>(v: Seq<T>, o: Option<T>) -> Seq<T> {
    match o {
        Some(x) => v.push(x),
        None => v,
    }
}

/// A section header line: the open sections close, and the one it names
/// opens if it is `proxy` or `load_balancer`.
pub open spec fn open_section(st: ReadState, line: Seq<char>) -> ReadState {
    let name = trim(line, CharSet::BracketsAndQuote);
    ReadState {
        proxies: push_opt(st.proxies, st.proxy),
        lbs: push_opt(st.lbs, st.lb),
        section: name,
        proxy: if name == "proxy"@ {
            Some(proxy_default())
        } else {
            None
        },
        lb: if name == "load_balancer"@ {
            Some(lb_default())
        } else {
            None
        },
        ..st
    }
}

/// A line of the open proxy section.
pub open spec fn proxy_line(p: ProxyView, line: Seq<char>) -> ProxyView {
    match spec_parse_key_value(line) {
        Some((k, x)) => set_proxy_key(p, k, x),
        None => match spec_server_block(line) {
            Some(d) => ProxyView { servers: p.servers.insert(d, host_default()), ..p },
            None => p,
        },
    }
}

/// A line of the open load balancer section.
pub open spec fn lb_line(l: LBView, line: Seq<char>) -> LBView {
    match spec_parse_key_value(line) {
        Some((k, x)) => set_lb_key(l, k, x),
        None => match spec_server_block(line) {
            Some(d) => LBView { servers: l.servers.insert(d, lb_host_default()), ..l },
            None => l,
        },
    }
}

/// One line read.
pub open spec fn step(st: ReadState, raw: Seq<char>) -> ReadState {
    let line = trim(raw, CharSet::White);
    if line.len() == 0 || line[0] == '#' {
        st
    } else if line[0] == '[' && spec_server_block(line) is None {
        open_section(st, line)
    } else if st.section.len() == 0 {
        match spec_parse_key_value(line) {
            Some((k, x)) => if k == "prometheus_addr"@ {
                ReadState { prometheus_addr: Some(x), ..st }
            } else {
                st
            },
            None => st,
        }
    } else if st.section == "proxy"@ {
        match st.proxy {
            Some(p) => ReadState { proxy: Some(proxy_line(p, line)), ..st },
            None => st,
        }
    } else if st.section == "load_balancer"@ {
        match st.lb {
            Some(l) => ReadState { lb: Some(lb_line(l, line)), ..st },
            None => st,
        }
    } else {
        st
    }
}

/// The state after the given lines.
pub open spec fn run_lines(lines: Seq<Seq<char>>) -> ReadState
    decreases lines.len(),
{
    if lines.len() == 0 {
        initial_state()
    } else {
        step(run_lines(lines.drop_last()), lines.last())
    }
}

/// The configuration that the text `s` gives.
pub open spec fn spec_from_str(s: Seq<char>) -> ConfigView {
    let st = run_lines(split_on(s, '\n'));
    ConfigView {
        prometheus_addr: st.prometheus_addr,
        proxy: Some(push_opt(st.proxies, st.proxy)),
        load_balancer: Some(push_opt(st.lbs, st.lb)),
    }
}

/// Splits a line at its first `=` into a trimmed key and value.
fn key_value_of(line: &Vec<char>) -> (r: Option<(Vec<char>, Vec<char>)>)
    ensures
        match r {
            Some((k, x)) => spec_parse_key_value(line@) == Some((k@, x@)),
            None => spec_parse_key_value(line@) is None,
        },
{
    match split_once_at(line, '=') {
        Some((k, x)) => Some((trimmed(&k, CharSet::White), trimmed(&x, CharSet::White))),
        None => None,
    }
}

/// Reads `key = value` from a line: the text before the first `=` and the
/// text after it, both trimmed.
pub fn parse_key_value(line: &str) -> (r: Option<(String, String)>)
    ensures
        match r {
            Some((k, x)) => spec_parse_key_value(line@) == Some((k@, x@)),
            None => spec_parse_key_value(line@) is None,
        },
{
    match key_value_of(&chars_of(line)) {
        Some((k, x)) => Some((to_string(&k), to_string(&x))),
        None => None,
    }
}

/// The domain name of a `[["name"]]` line.
fn server_block_of(line: &Vec<char>) -> (r: Option<Vec<char>>)
    ensures
        match r {
            Some(d) => spec_server_block(line@) == Some(d@),
            None => spec_server_block(line@) is None,
        },
{
    if begins_with(line, "[[\"") && finishes_with(line, "\"]]") {
        Some(trimmed(line, CharSet::BracketsAndQuote))
    } else {
        None
    }
}

/// Reads a `[["name"]]` line as a proxied domain with nothing set.
pub fn parse_proxy_server_block(line: &str) -> (r: Option<(String, ProxyHostConfig)>)
    ensures
        match r {
            Some((d, h)) => spec_server_block(line@) == Some(d@) && h@ == host_default(),
            None => spec_server_block(line@) is None,
        },
{
    match server_block_of(&chars_of(line)) {
        Some(d) => Some(
            (
                to_string(&d),
                ProxyHostConfig {
                    proxy_addr: String::new(),
                    proxy_tls: false,
                    proxy_headers: None,
                    proxy_uds: None,
                },
            ),
        ),
        None => None,
    }
}

/// Reads a `[["name"]]` line as a load balancer domain with nothing set.
pub fn parse_lb_server_block(line: &str) -> (r: Option<(String, LBHostConfig)>)
    ensures
        match r {
            Some((d, h)) => spec_server_block(line@) == Some(d@) && h@ == lb_host_default(),
            None => spec_server_block(line@) is None,
        },
{
    match server_block_of(&chars_of(line)) {
        Some(d) => Some((to_string(&d), LBHostConfig { load_balancer_tls: false, load_balancer_headers: None })),
        None => None,
    }
}

fn new_proxy() -> (r: ProxyConfig)
    ensures
        r@ == proxy_default(),
{
    ProxyConfig {
        listener: String::new(),
        tls_certificate: None,
        tls_certificate_key: None,
        servers: StrMap::new(),
    }
}

fn new_lb() -> (r: LoadBalancerConfig)
    ensures
        r@ == lb_default(),
{
    let r = LoadBalancerConfig {
        listener: String::new(),
        upstreams: Vec::new(),
        health_check: None,
        health_check_frequency: None,
        parallel_health_check: None,
        tls_certificate: None,
        tls_certificate_key: None,
        servers: StrMap::new(),
    };
    assert(strings_view(r.upstreams@) =~= Seq::<Seq<char>>::empty());
    r
}

/// The items of a list value `["a", "b"]`.
fn list_items_of(value: &Vec<char>) -> (r: Vec<String>)
    ensures
        strings_view(r@) == list_items(value@),
{
    let inner = trimmed(
        &trimmed(&trimmed(value, CharSet::One('[')), CharSet::One(']')),
        CharSet::White,
    );
    let mut r: Vec<String> = Vec::new();
    if inner.len() == 0 {
        assert(strings_view(r@) =~= Seq::<Seq<char>>::empty());
        return r;
    }
    let parts = split(&inner, ',');
    let ghost items = list_items(value@);
    let mut i: usize = 0;
    while i < parts.len()
        invariant
            i <= parts@.len(),
            vecs_view(parts@) == split_on(inner@, ','),
            inner@.len() > 0,
            inner@ == trim(trim(trim(value@, CharSet::One('[')), CharSet::One(']')), CharSet::White),
            items == list_items(value@),
            items.len() == parts@.len(),
            strings_view(r@) == items.take(i as int),
        decreases parts@.len() - i,
    {
        let ghost old_r = strings_view(r@);
        let piece = to_string(&trimmed(&trimmed(&parts[i], CharSet::White), CharSet::One('"')));
        let ghost pv = piece@;
        r.push(piece);
        assert(strings_view(r@) =~= old_r.push(pv));
        assert(items.take(i + 1) =~= items.take(i as int).push(pv));
        i = i + 1;
    }
    assert(items.take(i as int) =~= items);
    r
}

/// Applies a line of the open proxy section.
fn proxy_line_in(proxy: &mut ProxyConfig, line: &Vec<char>)
    ensures
        final(proxy)@ == proxy_line(old(proxy)@, line@),
{
    if let Some((key, value)) = key_value_of(line) {
        if is_text(&key, "listener") {
            proxy.listener = to_string(&value);
        } else if is_text(&key, "tls_certificate") {
            proxy.tls_certificate = Some(to_string(&value));
        } else if is_text(&key, "tls_certificate_key") {
            proxy.tls_certificate_key = Some(to_string(&value));
        }
    } else if let Some(domain) = server_block_of(line) {
        let server_config = ProxyHostConfig {
            proxy_addr: String::new(),
            proxy_tls: false,
            proxy_headers: None,
            proxy_uds: None,
        };
        proxy.servers.insert(to_string(&domain), server_config);
    }
}

/// Applies a line of the open load balancer section.
fn lb_line_in(lb: &mut LoadBalancerConfig, line: &Vec<char>)
    ensures
        final(lb)@ == lb_line(old(lb)@, line@),
{
    if let Some((key, value)) = key_value_of(line) {
        if is_text(&key, "listener") {
            lb.listener = to_string(&value);
        } else if is_text(&key, "upstreams") {
            lb.upstreams = list_items_of(&value);
        } else if is_text(&key, "health_check") {
            lb.health_check = Some(is_text(&value, "true"));
        } else if is_text(&key, "health_check_frequency") {
            lb.health_check_frequency = parse_u64_text(&value);
        } else if is_text(&key, "parallel_health_check") {
            lb.parallel_health_check = Some(is_text(&value, "true"));
        } else if is_text(&key, "tls_certificate") {
            lb.tls_certificate = Some(to_string(&value));
        } else if is_text(&key, "tls_certificate_key") {
            lb.tls_certificate_key = Some(to_string(&value));
        }
    } else if let Some(domain) = server_block_of(line) {
        let server_config = LBHostConfig { load_balancer_tls: false, load_balancer_headers: None };
        lb.servers.insert(to_string(&domain), server_config);
    }
}

/// An optional proxy section taken by its view.
pub open spec fn opt_proxy_view(o: Option<ProxyConfig>) -> Option<ProxyView> {
    match o {
        Some(x) => Some(x@),
        None => None,
    }
}

/// An optional load balancer section taken by its view.
pub open spec fn opt_lb_view(o: Option<LoadBalancerConfig>) -> Option<LBView> {
    match o {
        Some(x) => Some(x@),
        None => None,
    }
}

/// The reader's state between two lines.
struct Reader {
    prometheus_addr: Option<String>,
    proxies: Vec<ProxyConfig>,
    lbs: Vec<LoadBalancerConfig>,
    current_section: Vec<char>,
    current_proxy: Option<ProxyConfig>,
    current_lb: Option<LoadBalancerConfig>,
}

impl View for Reader {
    type V = ReadState;

    closed spec fn view(&self) -> ReadState {
        ReadState {
            prometheus_addr: opt_str_view(self.prometheus_addr),
            proxies: proxies_view(self.proxies@),
            lbs: lbs_view(self.lbs@),
            section: self.current_section@,
            proxy: opt_proxy_view(self.current_proxy),
            lb: opt_lb_view(self.current_lb),
        }
    }
}

impl Reader {
    fn new() -> (r: Reader)
        ensures
            r@ == initial_state(),
    {
        let r = Reader {
            prometheus_addr: None,
            proxies: Vec::new(),
            lbs: Vec::new(),
            current_section: Vec::new(),
            current_proxy: None,
            current_lb: None,
        };
        assert(proxies_view(r.proxies@) =~= Seq::<ProxyView>::empty());
        assert(lbs_view(r.lbs@) =~= Seq::<LBView>::empty());
        r
    }

    /// Closes the open sections.
    fn close(&mut self)
        ensures
            final(self)@ == (ReadState {
                proxies: push_opt(old(self)@.proxies, old(self)@.proxy),
                lbs: push_opt(old(self)@.lbs, old(self)@.lb),
                proxy: None,
                lb: None,
                ..old(self)@
            }),
    {
        if let Some(proxy) = self.current_proxy.take() {
            let ghost pv = proxy@;
            let ghost before = proxies_view(self.proxies@);
            self.proxies.push(proxy);
            assert(proxies_view(self.proxies@) =~= before.push(pv));
        }
        if let Some(lb) = self.current_lb.take() {
            let ghost lv = lb@;
            let ghost before = lbs_view(self.lbs@);
            self.lbs.push(lb);
            assert(lbs_view(self.lbs@) =~= before.push(lv));
        }
    }

    /// Reads one line.
    fn step(&mut self, raw: &Vec<char>)
        ensures
            final(self)@ == step(old(self)@, raw@),
    {
        let line = trimmed(raw, CharSet::White);
        if line.len() == 0 || line[0] == '#' {
            return ;
        }
        if line[0] == '[' && server_block_of(&line).is_none() {
            self.close();
            self.current_section = trimmed(&line, CharSet::BracketsAndQuote);
            if is_text(&self.current_section, "proxy") {
                self.current_proxy = Some(new_proxy());
            } else if is_text(&self.current_section, "load_balancer") {
                self.current_lb = Some(new_lb());
            }
            proof {
                reveal_strlit("proxy");
                reveal_strlit("load_balancer");
                assert("proxy"@.len() == 5);
                assert("load_balancer"@.len() == 13);
                assert("proxy"@ != "load_balancer"@);
            }
            return ;
        }
        if self.current_section.len() == 0 {
            if let Some((key, value)) = key_value_of(&line) {
                if is_text(&key, "prometheus_addr") {
                    self.prometheus_addr = Some(to_string(&value));
                }
            }
        } else if is_text(&self.current_section, "proxy") {
            if let Some(mut proxy) = self.current_proxy.take() {
                proxy_line_in(&mut proxy, &line);
                self.current_proxy = Some(proxy);
            }
        } else if is_text(&self.current_section, "load_balancer") {
            if let Some(mut lb) = self.current_lb.take() {
                lb_line_in(&mut lb, &line);
                self.current_lb = Some(lb);
            }
        }
    }
}

impl Config {
    /// Reads a whole configuration. It never fails: lines that fit no rule
    /// are skipped.
    pub fn from_str(input: &str) -> (r: Result<Self, String>)
        ensures
            r matches Ok(c) && c@ == spec_from_str(input@),
    {
        let v = chars_of(input);
        let lines = split(&v, '\n');
        let ghost ls = split_on(v@, '\n');
        let mut reader = Reader::new();
        let mut i: usize = 0;
        assert(ls.take(0) =~= Seq::<Seq<char>>::empty());
        while i < lines.len()
            invariant
                i <= lines@.len(),
                vecs_view(lines@) == ls,
                ls == split_on(input@, '\n'),
                run_lines(ls.take(i as int)) == reader@,
            decreases lines@.len() - i,
        {
            assert(ls.take(i + 1).drop_last() =~= ls.take(i as int));
            assert(ls.take(i + 1).last() == lines@[i as int]@);
            reader.step(&lines[i]);
            i = i + 1;
        }
        assert(ls.take(i as int) =~= ls);
        reader.close();
        Ok(
            Config {
                prometheus_addr: reader.prometheus_addr,
                proxy: Some(reader.proxies),
                load_balancer: Some(reader.lbs),
            },
        )
    }
}

/// Whether a line is a section header naming `name`.
pub open spec fn names_section(raw: Seq<char>, name: Seq<char>) -> bool {
    let line = trim(raw, CharSet::White);
    line.len() > 0 && line[0] == '[' && spec_server_block(line) is None && trim(
        line,
        CharSet::BracketsAndQuote,
    ) == name
}

/// How many of the lines are section headers naming `name`.
pub open spec fn count_sections(lines: Seq<Seq<char>>, name: Seq<char>) -> nat
    decreases lines.len(),
{
    if lines.len() == 0 {
        0
    } else {
        count_sections(lines.drop_last(), name) + if names_section(lines.last(), name) {
            1nat
        } else {
            0nat
        }
    }
}

/// One where there is a value, none where there is not.
pub open spec fn opt_count<T>(o: Option<T>) -> nat {
    match o {
        Some(_) => 1,
        None => 0,
    }
}

/// Every header naming `proxy` or `load_balancer` opens one section.
proof fn lemma_run_counts(lines: Seq<Seq<char>>)
    ensures
        run_lines(lines).proxies.len() + opt_count(run_lines(lines).proxy) == count_sections(
            lines,
            "proxy"@,
        ),
        run_lines(lines).lbs.len() + opt_count(run_lines(lines).lb) == count_sections(
            lines,
            "load_balancer"@,
        ),
    decreases lines.len(),
{
    if lines.len() > 0 {
        lemma_run_counts(lines.drop_last());
        reveal_strlit("proxy");
        reveal_strlit("load_balancer");
        assert("proxy"@ != "load_balancer"@) by {
            assert("proxy"@.len() != "load_balancer"@.len());
        }
    }
}

/// Reading never fails, and each section header naming `proxy` (or
/// `load_balancer`) gives one section of that kind.
pub proof fn lemma_section_counts(s: Seq<char>)
    ensures
        spec_from_str(s).proxy == Some(spec_from_str(s).proxy->0),
        spec_from_str(s).proxy->0.len() == count_sections(split_on(s, '\n'), "proxy"@),
        spec_from_str(s).load_balancer->0.len() == count_sections(
            split_on(s, '\n'),
            "load_balancer"@,
        ),
{
    lemma_run_counts(split_on(s, '\n'));
}

/// A comment line, and a blank line, leave the reader's state as it is.
pub proof fn lemma_comment_line_skipped(st: ReadState, raw: Seq<char>)
    requires
        trim(raw, CharSet::White).len() == 0 || trim(raw, CharSet::White)[0] == '#',
    ensures
        step(st, raw) == st,
{
}

/// Lines that read as nothing may be dropped from between others.
proof fn lemma_run_lines_skip(l1: Seq<Seq<char>>, w: Seq<char>, l2: Seq<Seq<char>>)
    requires
        trim(w, CharSet::White).len() == 0 || trim(w, CharSet::White)[0] == '#',
    ensures
        run_lines(l1 + seq![w] + l2) == run_lines(l1 + l2),
    decreases l2.len(),
{
    if l2.len() == 0 {
        assert((l1 + seq![w] + l2).drop_last() =~= l1);
        assert(l1 + l2 =~= l1);
    } else {
        lemma_run_lines_skip(l1, w, l2.drop_last());
        assert((l1 + seq![w] + l2).drop_last() =~= l1 + seq![w] + l2.drop_last());
        assert((l1 + l2).drop_last() =~= l1 + l2.drop_last());
    }
}

/// A blank line or a comment line (without a newline in it) may stand between any two lines of
/// the input without changing what it reads as.
pub proof fn lemma_skipped_line(a: Seq<char>, w: Seq<char>, b: Seq<char>)
    requires
        !w.contains('\n'),
        trim(w, CharSet::White).len() == 0 || trim(w, CharSet::White)[0] == '#',
    ensures
        spec_from_str(a + seq!['\n'] + w + seq!['\n'] + b) == spec_from_str(a + seq!['\n'] + b),
{
    crate::chars::lemma_lines_around(a, w, b);
    lemma_run_lines_skip(split_on(a, '\n'), w, split_on(b, '\n'));
}

/// Whether a line reads as nothing: blank, or a comment.
pub open spec fn skipped(raw: Seq<char>) -> bool {
    trim(raw, CharSet::White).len() == 0 || trim(raw, CharSet::White)[0] == '#'
}

/// The lines that are neither blank nor comments, in their order.
pub open spec fn kept_lines(lines: Seq<Seq<char>>) -> Seq<Seq<char>>
    decreases lines.len(),
{
    if lines.len() == 0 {
        Seq::empty()
    } else if skipped(lines.last()) {
        kept_lines(lines.drop_last())
    } else {
        kept_lines(lines.drop_last()).push(lines.last())
    }
}

/// Reading the lines is reading those of them that are kept.
proof fn lemma_run_kept(lines: Seq<Seq<char>>)
    ensures
        run_lines(kept_lines(lines)) == run_lines(lines),
    decreases lines.len(),
{
    if lines.len() > 0 {
        lemma_run_kept(lines.drop_last());
        let k = kept_lines(lines.drop_last());
        if !skipped(lines.last()) {
            assert(k.push(lines.last()).drop_last() =~= k);
        }
    }
}

/// Blank lines and comment lines, wherever they stand and however many of
/// them there are, do not change what a text reads as: two texts whose
/// other lines are the same, in the same order, read alike.
pub proof fn lemma_skipped_lines_ignored(s: Seq<char>, t: Seq<char>)
    requires
        kept_lines(split_on(s, '\n')) == kept_lines(split_on(t, '\n')),
    ensures
        spec_from_str(s) == spec_from_str(t),
{
    lemma_run_kept(split_on(s, '\n'));
    lemma_run_kept(split_on(t, '\n'));
}

/// In a proxy section, `listener`, `tls_certificate` and
/// `tls_certificate_key` take the value, and any other key changes
/// nothing.
pub proof fn lemma_proxy_keys(p: ProxyView, v: Seq<char>, other: Seq<char>)
    requires
        other != "listener"@,
        other != "tls_certificate"@,
        other != "tls_certificate_key"@,
    ensures
        set_proxy_key(p, "listener"@, v) == (ProxyView { listener: v, ..p }),
        set_proxy_key(p, "tls_certificate"@, v) == (ProxyView { tls_certificate: Some(v), ..p }),
        set_proxy_key(p, "tls_certificate_key"@, v) == (ProxyView {
            tls_certificate_key: Some(v),
            ..p
        }),
        set_proxy_key(p, other, v) == p,
{
    crate::combined_parser::lemma_key_names();
}

/// In a load balancer section: `listener`, `tls_certificate` and
/// `tls_certificate_key` take the value; `upstreams` takes the items of
/// the list value; the two flags become whether the value is `true`;
/// `health_check_frequency` takes the value read as a `u64`, or nothing
/// where it is none; any other key changes nothing.
pub proof fn lemma_lb_keys(l: LBView, v: Seq<char>, other: Seq<char>)
    requires
        other != "listener"@,
        other != "upstreams"@,
        other != "health_check"@,
        other != "health_check_frequency"@,
        other != "parallel_health_check"@,
        other != "tls_certificate"@,
        other != "tls_certificate_key"@,
    ensures
        set_lb_key(l, "listener"@, v) == (LBView { listener: v, ..l }),
        set_lb_key(l, "upstreams"@, v) == (LBView { upstreams: list_items(v), ..l }),
        set_lb_key(l, "health_check"@, v) == (LBView { health_check: Some(v == "true"@), ..l }),
        set_lb_key(l, "health_check_frequency"@, v) == (LBView {
            health_check_frequency: std_u64(v),
            ..l
        }),
        set_lb_key(l, "parallel_health_check"@, v) == (LBView {
            parallel_health_check: Some(v == "true"@),
            ..l
        }),
        set_lb_key(l, "tls_certificate"@, v) == (LBView { tls_certificate: Some(v), ..l }),
        set_lb_key(l, "tls_certificate_key"@, v) == (LBView { tls_certificate_key: Some(v), ..l }),
        set_lb_key(l, other, v) == l,
{
    crate::combined_parser::lemma_key_names();
}

/// A line `k=v`, where `k` holds no `=` and begins with neither `[` nor
/// `#`, and neither `k` nor `v` has white space at its ends: before any
/// section it sets `prometheus_addr` to `v` where `k` is that key; in an
/// open `proxy` or `load_balancer` section it sets that section's key `k`
/// to `v`.
pub proof fn lemma_key_line(st: ReadState, k: Seq<char>, v: Seq<char>)
    requires
        k.len() > 0,
        v.len() > 0,
        !k.contains('='),
        k[0] != '[',
        k[0] != '#',
        !crate::chars::is_white(k[0]),
        !crate::chars::is_white(k.last()),
        !crate::chars::is_white(v[0]),
        !crate::chars::is_white(v.last()),
    ensures
        st.section.len() == 0 ==> step(st, k + seq!['='] + v) == if k == "prometheus_addr"@ {
            ReadState { prometheus_addr: Some(v), ..st }
        } else {
            st
        },
        st.section == "proxy"@ ==> step(st, k + seq!['='] + v) == match st.proxy {
            Some(p) => ReadState { proxy: Some(set_proxy_key(p, k, v)), ..st },
            None => st,
        },
        st.section == "load_balancer"@ ==> step(st, k + seq!['='] + v) == match st.lb {
            Some(l) => ReadState { lb: Some(set_lb_key(l, k, v)), ..st },
            None => st,
        },
{
    reveal_strlit("proxy");
    reveal_strlit("load_balancer");
    assert("proxy"@ != "load_balancer"@) by {
        assert("proxy"@.len() != "load_balancer"@.len());
    }
    let line = k + seq!['='] + v;
    assert(line[0] == k[0]);
    assert(line.last() == v.last());
    crate::chars::lemma_trim_none(line, CharSet::White);
    crate::chars::lemma_split_once_first(k, '=', v);
    crate::chars::lemma_trim_none(k, CharSet::White);
    crate::chars::lemma_trim_none(v, CharSet::White);
}

/// A line `[["d"]]`, where `d` holds no `=` and neither begins nor ends
/// with a bracket or a double quote, adds the domain `d`, with nothing
/// set, to the open `proxy` or `load_balancer` section, and leaves the
/// current section open.
pub proof fn lemma_domain_line(st: ReadState, d: Seq<char>)
    requires
        d.len() > 0,
        !d.contains('='),
        !in_set(CharSet::BracketsAndQuote, d[0]),
        !in_set(CharSet::BracketsAndQuote, d.last()),
    ensures
        ({
            let line = "[[\""@ + d + "\"]]"@;
            &&& step(st, line).section == st.section
            &&& (st.section == "proxy"@ ==> step(st, line) == match st.proxy {
                Some(p) => ReadState {
                    proxy: Some(ProxyView { servers: p.servers.insert(d, host_default()), ..p }),
                    ..st
                },
                None => st,
            })
            &&& (st.section == "load_balancer"@ ==> step(st, line) == match st.lb {
                Some(l) => ReadState {
                    lb: Some(LBView { servers: l.servers.insert(d, lb_host_default()), ..l }),
                    ..st
                },
                None => st,
            })
        }),
{
    reveal_strlit("[[\"");
    reveal_strlit("\"]]");
    reveal_strlit("proxy");
    reveal_strlit("load_balancer");
    let o = "[[\""@;
    let c = "\"]]"@;
    let line = o + d + c;
    assert(line[0] == '[');
    assert(line.last() == ']');
    crate::chars::lemma_trim_none(line, CharSet::White);
    assert(line.subrange(0, 3) =~= o);
    assert(line.subrange(line.len() - 3, line.len() as int) =~= c);
    assert(line =~= o + (d + c));
    crate::chars::lemma_trim_start_prefix(o, d + c, CharSet::BracketsAndQuote);
    assert((d + c)[0] == d[0]);
    crate::chars::lemma_trim_end_suffix(d, c, CharSet::BracketsAndQuote);
    assert(spec_server_block(line) == Some(d));
    assert(!line.contains('=')) by {
        if line.contains('=') {
            let i = choose|i: int| 0 <= i < line.len() && line[i] == '=';
            if 3 <= i < 3 + d.len() {
                assert(d[i - 3] == '=');
            }
        }
    }
    crate::chars::lemma_find_first_none(line, '=');
}

} // verus!
