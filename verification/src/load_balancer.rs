//! The line-based reader of load balancer sections.
//!
//! Lines are trimmed of white space and blank lines skipped.
//! `[load_balancer]` opens a section, a line that begins with `[[` and ends
//! with `]]` opens a domain block, and `key = value` sets a key of the open
//! domain, or of the section where no domain is open. A domain is filed
//! into its section when the next domain or section opens and at the end
//! of the input.
use vstd::prelude::*;
use crate::chars::{
    begins_with, ends_with, finishes_with, is_text, parse_bool_text, parse_u64_text, split,
    split_once, split_once_at, split_on, split_trimmed, starts_with, std_bool, std_u64, trim,
    trimmed, trimmed_pieces, vecs_view, to_string, CharSet,
};
use crate::headers::{headers_from, headers_result, spec_parse_headers};
use crate::lexer::{opt_pairs_view, opt_str_view, strings_view, HeadersView};
use crate::str_map::StrMap;
use crate::text::chars_of;

verus! {

broadcast use vstd::string::group_string_axioms;

/// One proxy section.
#[derive(Debug)]
pub struct ProxyConfig {
    pub listener: String,
    pub tls_certificate: Option<String>,
    pub tls_certificate_key: Option<String>,
    pub servers: StrMap<ProxyHostConfig>,
}

/// The settings of one proxied domain.
#[derive(Debug)]
pub struct ProxyHostConfig {
    pub proxy_addr: String,
    pub proxy_tls: bool,
    pub proxy_headers: Option<Vec<(String, String)>>,
    pub proxy_uds: bool,
    pub routes: StrMap<ProxyPathBaseHostConfig>,
}

/// The settings of one route of a proxied domain.
#[derive(Debug)]
pub struct ProxyPathBaseHostConfig {
    pub proxy_addr: Option<String>,
    pub proxy_tls: bool,
    pub proxy_headers: Option<Vec<(String, String)>>,
    pub proxy_uds: bool,
}

/// One `[load_balancer]` section.
#[derive(Debug)]
pub struct LoadBalancerConfig {
    pub listener: String,
    pub upstreams: Vec<String>,
    pub health_check: Option<bool>,
    pub health_check_frequency: Option<u64>,
    pub parallel_health_check: Option<bool>,
    pub tls_certificate: Option<String>,
    pub tls_certificate_key: Option<String>,
    pub servers: StrMap<LBHostConfig>,
}

/// The settings of one domain of a load balancer.
#[derive(Debug)]
pub struct LBHostConfig {
    pub load_balancer_tls: bool,
    pub load_balancer_headers: Option<Vec<(String, String)>>,
}

/// A route's settings as values.
pub struct RouteView {
    pub proxy_addr: Option<Seq<char>>,
    pub proxy_tls: bool,
    pub proxy_headers: Option<HeadersView>,
    pub proxy_uds: bool,
}

/// A proxied domain's settings as values.
pub struct HostView {
    pub proxy_addr: Seq<char>,
    pub proxy_tls: bool,
    pub proxy_headers: Option<HeadersView>,
    pub proxy_uds: bool,
    pub routes: Map<Seq<char>, RouteView>,
}

/// A proxy section as values.
pub struct ProxyView {
    pub listener: Seq<char>,
    pub tls_certificate: Option<Seq<char>>,
    pub tls_certificate_key: Option<Seq<char>>,
    pub servers: Map<Seq<char>, HostView>,
}

/// A load balancer's domain settings as values.
pub struct LBHostView {
    pub load_balancer_tls: bool,
    pub load_balancer_headers: Option<HeadersView>,
}

/// A load balancer section as values.
pub struct LBView {
    pub listener: Seq<char>,
    pub upstreams: Seq<Seq<char>>,
    pub health_check: Option<bool>,
    pub health_check_frequency: Option<u64>,
    pub parallel_health_check: Option<bool>,
    pub tls_certificate: Option<Seq<char>>,
    pub tls_certificate_key: Option<Seq<char>>,
    pub servers: Map<Seq<char>, LBHostView>,
}

impl View for ProxyPathBaseHostConfig {
    type V = RouteView;

    open spec fn view(&self) -> RouteView {
        RouteView {
            proxy_addr: opt_str_view(self.proxy_addr),
            proxy_tls: self.proxy_tls,
            proxy_headers: opt_pairs_view(self.proxy_headers),
            proxy_uds: self.proxy_uds,
        }
    }
}

impl View for ProxyHostConfig {
    type V = HostView;

    open spec fn view(&self) -> HostView {
        HostView {
            proxy_addr: self.proxy_addr@,
            proxy_tls: self.proxy_tls,
            proxy_headers: opt_pairs_view(self.proxy_headers),
            proxy_uds: self.proxy_uds,
            routes: self.routes@,
        }
    }
}

impl View for ProxyConfig {
    type V = ProxyView;

    open spec fn view(&self) -> ProxyView {
        ProxyView {
            listener: self.listener@,
            tls_certificate: opt_str_view(self.tls_certificate),
            tls_certificate_key: opt_str_view(self.tls_certificate_key),
            servers: self.servers@,
        }
    }
}

impl View for LBHostConfig {
    type V = LBHostView;

    open spec fn view(&self) -> LBHostView {
        LBHostView {
            load_balancer_tls: self.load_balancer_tls,
            load_balancer_headers: opt_pairs_view(self.load_balancer_headers),
        }
    }
}

impl View for LoadBalancerConfig {
    type V = LBView;

    open spec fn view(&self) -> LBView {
        LBView {
            listener: self.listener@,
            upstreams: strings_view(self.upstreams@),
            health_check: self.health_check,
            health_check_frequency: self.health_check_frequency,
            parallel_health_check: self.parallel_health_check,
            tls_certificate: opt_str_view(self.tls_certificate),
            tls_certificate_key: opt_str_view(self.tls_certificate_key),
            servers: self.servers@,
        }
    }
}

/// Load balancer sections taken by their views.
pub open spec fn lbs_view(v: Seq<LoadBalancerConfig>) -> Seq<LBView> {
    v.map_values(|c: LoadBalancerConfig| c@)
}

/// A load balancer domain with nothing set.
pub open spec fn lb_host_default() -> LBHostView {
    LBHostView { load_balancer_tls: false, load_balancer_headers: None }
}

/// A load balancer section with nothing set.
pub open spec fn lb_default() -> LBView {
    LBView {
        listener: Seq::empty(),
        upstreams: Seq::empty(),
        health_check: None,
        health_check_frequency: None,
        parallel_health_check: None,
        tls_certificate: None,
        tls_certificate_key: None,
        servers: Map::empty(),
    }
}

impl Default for LBHostConfig {
    fn default() -> (r: Self)
        ensures
            r@ == lb_host_default(),
    {
        LBHostConfig { load_balancer_tls: false, load_balancer_headers: None }
    }
}

impl Default for LoadBalancerConfig {
    fn default() -> (r: Self)
        ensures
            r@ == lb_default(),
    {
        let r = LoadBalancerConfig {
            listener: String::new(),
            upstreams: Vec::new(),
            health_check: None,
            health_check_frequency: None,
            parallel_health_check: None,
            tls_certificate: None,
            tls_certificate_key: None,
            servers: StrMap::new(),
        };
        assert(strings_view(r.upstreams@) =~= Seq::<Seq<char>>::empty());
        r
    }
}

/// A load balancer domain with one key set; the flag is true only for the
/// text `true`.
pub open spec fn set_host_key(h: LBHostView, key: Seq<char>, value: Seq<char>) -> Result<LBHostView, Seq<char>> {
    if key == "load_balancer_tls"@ {
        Ok(LBHostView { load_balancer_tls: value == "true"@, ..h })
    } else if key == "load_balancer_headers"@ {
        match spec_parse_headers(value) {
            Ok(hs) => Ok(LBHostView { load_balancer_headers: Some(hs), ..h }),
            Err(e) => Err(e),
        }
    } else {
        Ok(h)
    }
}

/// A load balancer section with one key set.
pub open spec fn set_lb_key(l: LBView, key: Seq<char>, value: Seq<char>) -> LBView {
    if key == "listener"@ {
        LBView { listener: value, ..l }
    } else if key == "upstreams"@ {
        LBView { upstreams: trimmed_pieces(value, ','), ..l }
    } else if key == "health_check"@ {
        LBView { health_check: Some(value == "true"@), ..l }
    } else if key == "health_check_frequency"@ {
        LBView { health_check_frequency: std_u64(value), ..l }
    } else if key == "parallel_health_check"@ {
        LBView { parallel_health_check: std_bool(value), ..l }
    } else if key == "tls_certificate"@ {
        LBView { tls_certificate: Some(value), ..l }
    } else if key == "tls_certificate_key"@ {
        LBView { tls_certificate_key: Some(value), ..l }
    } else {
        l
    }
}

/// What the reader holds between two lines.
pub struct ReadState {
    pub lbs: Seq<LBView>,
    pub lb: Option<LBView>,
    pub host: Option<LBHostView>,
    pub domain: Option<Seq<char>>,
}

/// The state before the first line.
pub open spec fn initial_state() -> ReadState {
    ReadState { lbs: Seq::empty(), lb: None, host: None, domain: None }
}

/// The open domain filed into the open section, where a domain name, a
/// domain and a section are all open; the domain name and domain close.
pub open spec fn file_domain(st: ReadState) -> ReadState {
    match st.domain {
        Some(d) => match st.host {
            Some(h) => ReadState {
                lb: match st.lb {
                    Some(l) => Some(LBView { servers: l.servers.insert(d, h), ..l }),
                    None => None,
                },
                host: None,
                domain: None,
                ..st
            },
            None => ReadState { domain: None, ..st },
        },
        None => st,
    }
}

/// One line read.
pub open spec fn step(st: ReadState, raw: Seq<char>) -> Result<ReadState, Seq<char>> {
    let line = trim(raw, CharSet::White);
    if line.len() == 0 {
        Ok(st)
    } else if line == "[load_balancer]"@ {
        let f = file_domain(st);
        Ok(
            ReadState {
                lbs: match f.lb {
                    Some(l) => f.lbs.push(l),
                    None => f.lbs,
                },
                lb: Some(lb_default()),
                host: None,
                domain: None,
            },
        )
    } else if starts_with(line, "[["@) && ends_with(line, "]]"@) {
        Ok(
            ReadState {
                domain: Some(
                    trim(trim(trim(line, CharSet::One('[')), CharSet::One(']')), CharSet::White),
                ),
                host: Some(lb_host_default()),
                ..file_domain(st)
            },
        )
    } else {
        match split_once(line, '=') {
            Some((k, x)) => {
                let key = trim(k, CharSet::White);
                let value = trim(trim(x, CharSet::White), CharSet::One('"'));
                match st.host {
                    Some(h) => match set_host_key(h, key, value) {
                        Ok(h2) => Ok(ReadState { host: Some(h2), ..st }),
                        Err(e) => Err(e),
                    },
                    None => match st.lb {
                        Some(l) => Ok(ReadState { lb: Some(set_lb_key(l, key, value)), ..st }),
                        None => Ok(st),
                    },
                }
            },
            None => Ok(st),
        }
    }
}

/// The state after the given lines are read from `st`, or the first
/// error.
pub open spec fn run_from(st: ReadState, lines: Seq<Seq<char>>) -> Result<ReadState, Seq<char>>
    decreases lines.len(),
{
    if lines.len() == 0 {
        Ok(st)
    } else {
        match run_from(st, lines.drop_last()) {
            Ok(s) => step(s, lines.last()),
            Err(e) => Err(e),
        }
    }
}

/// The state after the given lines, or the first error.
pub open spec fn run_lines(lines: Seq<Seq<char>>) -> Result<ReadState, Seq<char>> {
    run_from(initial_state(), lines)
}

/// The load balancer sections that the text `s` gives, in order, or the
/// message of the first malformed header list.
pub open spec fn spec_parse_load_balancer_config(s: Seq<char>) -> Result<Seq<LBView>, Seq<char>> {
    match run_lines(split_on(s, '\n')) {
        Ok(st) => {
            let last = file_domain(st);
            Ok(
                match last.lb {
                    Some(l) => last.lbs.push(l),
                    None => last.lbs,
                },
            )
        },
        Err(e) => Err(e),
    }
}

/// Sets a key of a load balancer domain.
fn set_host_key_in(h: &mut LBHostConfig, key: &Vec<char>, value: &Vec<char>) -> (r: Result<(), String>)
    ensures
        match r {
            Ok(()) => set_host_key(old(h)@, key@, value@) == Ok::<LBHostView, Seq<char>>(final(h)@),
            Err(e) => set_host_key(old(h)@, key@, value@) == Err::<LBHostView, Seq<char>>(e@),
        },
{
    if is_text(key, "load_balancer_tls") {
        h.load_balancer_tls = is_text(value, "true");
    } else if is_text(key, "load_balancer_headers") {
        match headers_from(value) {
            Ok(hs) => {
                h.load_balancer_headers = Some(hs);
            },
            Err(e) => {
                return Err(e);
            },
        }
    }
    Ok(())
}

/// Sets a key of a load balancer section.
fn set_lb_key_in(l: &mut LoadBalancerConfig, key: &Vec<char>, value: &Vec<char>)
    ensures
        final(l)@ == set_lb_key(old(l)@, key@, value@),
{
    if is_text(key, "listener") {
        l.listener = to_string(value);
    } else if is_text(key, "upstreams") {
        l.upstreams = split_trimmed(value, ',');
    } else if is_text(key, "health_check") {
        l.health_check = Some(is_text(value, "true"));
    } else if is_text(key, "health_check_frequency") {
        l.health_check_frequency = parse_u64_text(value);
    } else if is_text(key, "parallel_health_check") {
        l.parallel_health_check = parse_bool_text(value);
    } else if is_text(key, "tls_certificate") {
        l.tls_certificate = Some(to_string(value));
    } else if is_text(key, "tls_certificate_key") {
        l.tls_certificate_key = Some(to_string(value));
    }
}

/// An optional load balancer section taken by its view.
pub open spec fn opt_lb_view(o: Option<LoadBalancerConfig>) -> Option<LBView> {
    match o {
        Some(x) => Some(x@),
        None => None,
    }
}

/// An optional load balancer domain taken by its view.
pub open spec fn opt_host_view(o: Option<LBHostConfig>) -> Option<LBHostView> {
    match o {
        Some(x) => Some(x@),
        None => None,
    }
}

/// The reader's state between two lines.
struct Reader {
    lb_configs: Vec<LoadBalancerConfig>,
    current_lb_config: Option<LoadBalancerConfig>,
    current_host_config: Option<LBHostConfig>,
    current_domain: Option<String>,
}

impl View for Reader {
    type V = ReadState;

    closed spec fn view(&self) -> ReadState {
        ReadState {
            lbs: lbs_view(self.lb_configs@),
            lb: opt_lb_view(self.current_lb_config),
            host: opt_host_view(self.current_host_config),
            domain: opt_str_view(self.current_domain),
        }
    }
}

impl Reader {
    fn new() -> (r: Reader)
        ensures
            r@ == initial_state(),
    {
        let r = Reader {
            lb_configs: Vec::new(),
            current_lb_config: None,
            current_host_config: None,
            current_domain: None,
        };
        assert(lbs_view(r.lb_configs@) =~= Seq::<LBView>::empty());
        r
    }

    /// Files the open domain into the open section.
    fn file_domain(&mut self)
        ensures
            final(self)@ == file_domain(old(self)@),
    {
        if let Some(domain) = self.current_domain.take() {
            if let Some(host_config) = self.current_host_config.take() {
                if let Some(mut lb_config) = self.current_lb_config.take() {
                    lb_config.servers.insert(domain, host_config);
                    self.current_lb_config = Some(lb_config);
                }
            }
        }
    }

    /// Closes the open section.
    fn close(&mut self)
        ensures
            final(self)@.lbs == (match old(self)@.lb {
                Some(l) => old(self)@.lbs.push(l),
                None => old(self)@.lbs,
            }),
            final(self)@.lb is None,
            final(self)@.host == old(self)@.host,
            final(self)@.domain == old(self)@.domain,
    {
        if let Some(config) = self.current_lb_config.take() {
            let ghost cv = config@;
            let ghost before = lbs_view(self.lb_configs@);
            self.lb_configs.push(config);
            assert(lbs_view(self.lb_configs@) =~= before.push(cv));
        }
    }

    /// Reads one line.
    fn step(&mut self, raw: &Vec<char>) -> (r: Result<(), String>)
        ensures
            match r {
                Ok(()) => step(old(self)@, raw@) == Ok::<ReadState, Seq<char>>(final(self)@),
                Err(e) => step(old(self)@, raw@) == Err::<ReadState, Seq<char>>(e@),
            },
    {
        let line = trimmed(raw, CharSet::White);
        if line.len() == 0 {
            return Ok(());
        }
        if is_text(&line, "[load_balancer]") {
            self.file_domain();
            self.close();
            self.current_lb_config = Some(LoadBalancerConfig::default());
            self.current_host_config = None;
            self.current_domain = None;
        } else if begins_with(&line, "[[") && finishes_with(&line, "]]") {
            self.file_domain();
            let name = trimmed(
                &trimmed(&trimmed(&line, CharSet::One('[')), CharSet::One(']')),
                CharSet::White,
            );
            self.current_domain = Some(to_string(&name));
            self.current_host_config = Some(LBHostConfig::default());
        } else if let Some((k, x)) = split_once_at(&line, '=') {
            let key = trimmed(&k, CharSet::White);
            let value = trimmed(&trimmed(&x, CharSet::White), CharSet::One('"'));
            if let Some(mut host_config) = self.current_host_config.take() {
                let r = set_host_key_in(&mut host_config, &key, &value);
                self.current_host_config = Some(host_config);
                return r;
            } else if let Some(mut lb_config) = self.current_lb_config.take() {
                set_lb_key_in(&mut lb_config, &key, &value);
                self.current_lb_config = Some(lb_config);
            }
        }
        Ok(())
    }
}

/// Reads the load balancer sections of `input`, in order; fails with the
/// message of the first malformed header list.
pub fn parse_load_balancer_config(input: &str) -> (r: Result<Vec<LoadBalancerConfig>, String>)
    ensures
        match r {
            Ok(ls) => spec_parse_load_balancer_config(input@) == Ok::<Seq<LBView>, Seq<char>>(
                lbs_view(ls@),
            ),
            Err(e) => spec_parse_load_balancer_config(input@) == Err::<Seq<LBView>, Seq<char>>(
                e@,
            ),
        },
{
    let v = chars_of(input);
    let lines = split(&v, '\n');
    let ghost ls = split_on(v@, '\n');
    let mut reader = Reader::new();
    let mut i: usize = 0;
    assert(ls.take(0) =~= Seq::<Seq<char>>::empty());
    while i < lines.len()
        invariant
            i <= lines@.len(),
            vecs_view(lines@) == ls,
            ls == split_on(input@, '\n'),
            run_lines(ls.take(i as int)) == Ok::<ReadState, Seq<char>>(reader@),
        decreases lines@.len() - i,
    {
        assert(ls.take(i + 1).drop_last() =~= ls.take(i as int));
        assert(ls.take(i + 1).last() == lines@[i as int]@);
        match reader.step(&lines[i]) {
            Ok(()) => {},
            Err(e) => {
                proof {
                    lemma_run_lines_err(ls, i as int + 1);
                }
                return Err(e);
            },
        }
        i = i + 1;
    }
    assert(ls.take(i as int) =~= ls);
    reader.file_domain();
    reader.close();
    Ok(reader.lb_configs)
}

/// Reading two runs of lines from `st` is reading the first, then the
/// second from where the first ended.
pub proof fn lemma_run_from_append(st: ReadState, l1: Seq<Seq<char>>, l2: Seq<Seq<char>>)
    ensures
        run_from(st, l1 + l2) == match run_from(st, l1) {
            Ok(s) => run_from(s, l2),
            Err(e) => Err(e),
        },
    decreases l2.len(),
{
    if l2.len() == 0 {
        assert(l1 + l2 =~= l1);
    } else {
        lemma_run_from_append(st, l1, l2.drop_last());
        assert((l1 + l2).drop_last() =~= l1 + l2.drop_last());
        assert((l1 + l2).last() == l2.last());
    }
}

/// An error in a prefix of the lines is the error of them all.
pub proof fn lemma_run_lines_err(lines: Seq<Seq<char>>, n: int)
    requires
        0 <= n <= lines.len(),
        run_lines(lines.take(n)) is Err,
    ensures
        run_lines(lines) == run_lines(lines.take(n)),
{
    lemma_run_from_append(initial_state(), lines.take(n), lines.skip(n));
    assert(lines.take(n) + lines.skip(n) =~= lines);
}

/// How many of the lines are `t` once trimmed of white space.
pub open spec fn count_lines(lines: Seq<Seq<char>>, t: Seq<char>) -> nat
    decreases lines.len(),
{
    if lines.len() == 0 {
        0
    } else {
        count_lines(lines.drop_last(), t) + if trim(lines.last(), CharSet::White) == t {
            1nat
        } else {
            0nat
        }
    }
}

/// Every `[load_balancer]` line opens one section.
proof fn lemma_run_counts(lines: Seq<Seq<char>>)
    ensures
        run_lines(lines) matches Ok(st) ==> st.lbs.len() + (if st.lb is Some {
            1nat
        } else {
            0nat
        }) == count_lines(lines, "[load_balancer]"@),
    decreases lines.len(),
{
    reveal_strlit("[load_balancer]");
    if lines.len() > 0 {
        lemma_run_counts(lines.drop_last());
    }
}

/// Each `[load_balancer]` line opens one section: where the input reads,
/// it gives as many sections as it has such lines.
pub proof fn lemma_section_count(s: Seq<char>)
    ensures
        spec_parse_load_balancer_config(s) matches Ok(ls) ==> ls.len() == count_lines(
            split_on(s, '\n'),
            "[load_balancer]"@,
        ),
{
    lemma_run_counts(split_on(s, '\n'));
}

/// Lines that read as nothing may be dropped from between others.
proof fn lemma_run_lines_skip(l1: Seq<Seq<char>>, w: Seq<char>, l2: Seq<Seq<char>>)
    requires
        trim(w, CharSet::White).len() == 0,
    ensures
        run_lines(l1 + seq![w] + l2) == run_lines(l1 + l2),
{
    let st = initial_state();
    lemma_run_from_append(st, l1 + seq![w], l2);
    lemma_run_from_append(st, l1, seq![w]);
    lemma_run_from_append(st, l1, l2);
    match run_from(st, l1) {
        Ok(s) => {
            assert(seq![w].last() == w);
            assert(seq![w].drop_last() =~= Seq::<Seq<char>>::empty());
            assert(run_from(s, seq![w].drop_last()) == Ok::<ReadState, Seq<char>>(s));
            assert(run_from(s, seq![w]) == Ok::<ReadState, Seq<char>>(s));
        },
        Err(e) => {},
    }
}

/// A blank line (without a newline in it) may stand between any two lines of
/// the input without changing what it reads as.
pub proof fn lemma_skipped_line(a: Seq<char>, w: Seq<char>, b: Seq<char>)
    requires
        !w.contains('\n'),
        trim(w, CharSet::White).len() == 0,
    ensures
        spec_parse_load_balancer_config(a + seq!['\n'] + w + seq!['\n'] + b) == spec_parse_load_balancer_config(a + seq!['\n'] + b),
{
    crate::chars::lemma_lines_around(a, w, b);
    lemma_run_lines_skip(split_on(a, '\n'), w, split_on(b, '\n'));
}

/// Reads a header list `[[key: value, key: value]]`; fails with
/// `Invalid header format: ` and the first entry without a colon.
pub fn parse_headers(input: &str) -> (r: Result<Vec<(String, String)>, String>)
    ensures
        headers_result(r) == spec_parse_headers(input@),
{
    headers_from(&chars_of(input))
}

/// Lines none of which is `[load_balancer]` leave no section open or
/// closed.
proof fn lemma_preamble_lines(lines: Seq<Seq<char>>)
    requires
        forall|i: int|
            0 <= i < lines.len() ==> trim(#[trigger] lines[i], CharSet::White) != "[load_balancer]"@,
    ensures
        run_lines(lines) matches Ok(st) ==> st.lbs.len() == 0 && st.lb is None,
    decreases lines.len(),
{
    if lines.len() > 0 {
        let d = lines.drop_last();
        assert forall|i: int| 0 <= i < d.len() implies trim(#[trigger] d[i], CharSet::White)
            != "[load_balancer]"@ by {
            assert(d[i] == lines[i]);
        }
        lemma_preamble_lines(d);
        assert(trim(lines[lines.len() - 1], CharSet::White) != "[load_balancer]"@);
    }
}

/// Blank lines leave any state as it is.
proof fn lemma_blank_lines(st: ReadState, lines: Seq<Seq<char>>)
    requires
        forall|i: int| 0 <= i < lines.len() ==> trim(#[trigger] lines[i], CharSet::White).len() == 0,
    ensures
        run_from(st, lines) == Ok::<ReadState, Seq<char>>(st),
    decreases lines.len(),
{
    if lines.len() > 0 {
        let d = lines.drop_last();
        assert forall|i: int| 0 <= i < d.len() implies trim(#[trigger] d[i], CharSet::White).len()
            == 0 by {
            assert(d[i] == lines[i]);
        }
        lemma_blank_lines(st, d);
        assert(trim(lines[lines.len() - 1], CharSet::White).len() == 0);
    }
}

/// Text that reads without error and has no `[load_balancer]` line, put
/// before input whose first line that is not blank (its line `k`) is
/// `[load_balancer]`, changes nothing of what that input reads as.
pub proof fn lemma_preamble_ignored(p: Seq<char>, s: Seq<char>, k: int)
    requires
        forall|i: int|
            0 <= i < split_on(p, '\n').len() ==> trim(#[trigger] split_on(p, '\n')[i], CharSet::White)
                != "[load_balancer]"@,
        spec_parse_load_balancer_config(p) is Ok,
        0 <= k < split_on(s, '\n').len(),
        forall|i: int|
            0 <= i < k ==> trim(#[trigger] split_on(s, '\n')[i], CharSet::White).len() == 0,
        trim(split_on(s, '\n')[k], CharSet::White) == "[load_balancer]"@,
    ensures
        spec_parse_load_balancer_config(p + seq!['\n'] + s) == spec_parse_load_balancer_config(s),
{
    reveal_strlit("[load_balancer]");
    let lp = split_on(p, '\n');
    let ls = split_on(s, '\n');
    let blank = ls.take(k);
    let h = ls[k];
    let rest = ls.skip(k + 1);
    let i = initial_state();
    crate::chars::lemma_split_on_join(p, s, '\n');
    lemma_preamble_lines(lp);
    assert(ls =~= blank + seq![h] + rest);
    assert forall|j: int| 0 <= j < blank.len() implies trim(#[trigger] blank[j], CharSet::White).len()
        == 0 by {
        assert(blank[j] == ls[j]);
    }
    assert(seq![h].last() == h);
    assert(seq![h].drop_last() =~= Seq::<Seq<char>>::empty());
    let a = run_lines(lp)->Ok_0;
    lemma_run_from_append(i, lp, ls);
    lemma_blank_lines(i, blank);
    lemma_blank_lines(a, blank);
    lemma_run_from_append(i, blank + seq![h], rest);
    lemma_run_from_append(i, blank, seq![h]);
    lemma_run_from_append(a, blank + seq![h], rest);
    lemma_run_from_append(a, blank, seq![h]);
    assert(run_from(i, seq![h].drop_last()) == Ok::<ReadState, Seq<char>>(i));
    assert(run_from(a, seq![h].drop_last()) == Ok::<ReadState, Seq<char>>(a));
    assert(a.lbs =~= i.lbs);
    assert(file_domain(a).lbs == a.lbs && file_domain(a).lb is None);
    assert(step(a, h) == step(i, h));
    assert(run_from(a, blank + seq![h]) == run_from(i, blank + seq![h]));
}

/// In a load balancer domain, `load_balancer_tls` sets its flag to whether
/// the value is `true`, `load_balancer_headers` sets its headers to the
/// list read from the value (or fails as that list does), and any other
/// key changes nothing.
pub proof fn lemma_domain_keys(h: LBHostView, v: Seq<char>, other: Seq<char>)
    requires
        other != "load_balancer_tls"@,
        other != "load_balancer_headers"@,
    ensures
        set_host_key(h, "load_balancer_tls"@, v) == Ok::<LBHostView, Seq<char>>(
            LBHostView { load_balancer_tls: v == "true"@, ..h },
        ),
        set_host_key(h, "load_balancer_headers"@, v) == match spec_parse_headers(v) {
            Ok(hs) => Ok(LBHostView { load_balancer_headers: Some(hs), ..h }),
            Err(e) => Err(e),
        },
        set_host_key(h, other, v) == Ok::<LBHostView, Seq<char>>(h),
{
    crate::combined_parser::lemma_key_names();
}

/// In a load balancer section: `listener`, `tls_certificate` and
/// `tls_certificate_key` take the value; `upstreams` takes the value's
/// comma-separated items, trimmed; `health_check` becomes whether the
/// value is `true`; `health_check_frequency` takes the value read as a
/// `u64` and `parallel_health_check` the value read as a boolean, or
/// nothing where it is none; any other key changes nothing.
pub proof fn lemma_section_keys(l: LBView, v: Seq<char>, other: Seq<char>)
    requires
        other != "listener"@,
        other != "upstreams"@,
        other != "health_check"@,
        other != "health_check_frequency"@,
        other != "parallel_health_check"@,
        other != "tls_certificate"@,
        other != "tls_certificate_key"@,
    ensures
        set_lb_key(l, "listener"@, v) == (LBView { listener: v, ..l }),
        set_lb_key(l, "upstreams"@, v) == (LBView {
            upstreams: split_on(v, ',').map_values(|e: Seq<char>| trim(e, CharSet::White)),
            ..l
        }),
        set_lb_key(l, "health_check"@, v) == (LBView { health_check: Some(v == "true"@), ..l }),
        set_lb_key(l, "health_check_frequency"@, v) == (LBView {
            health_check_frequency: std_u64(v),
            ..l
        }),
        set_lb_key(l, "parallel_health_check"@, v) == (LBView {
            parallel_health_check: if v == "true"@ {
                Some(true)
            } else if v == "false"@ {
                Some(false)
            } else {
                None
            },
            ..l
        }),
        set_lb_key(l, "tls_certificate"@, v) == (LBView { tls_certificate: Some(v), ..l }),
        set_lb_key(l, "tls_certificate_key"@, v) == (LBView { tls_certificate_key: Some(v), ..l }),
        set_lb_key(l, other, v) == l,
{
    crate::combined_parser::lemma_key_names();
}

/// A line `k=v`, where `k` holds no `=` and begins with no `[`, and
/// neither `k` nor `v` has white space at its ends, nor `v` a double
/// quote, sets the key `k` of the open domain to `v`, or of the open
/// section where no domain is open; outside any section and domain it
/// changes nothing.
pub proof fn lemma_key_line(st: ReadState, k: Seq<char>, v: Seq<char>)
    requires
        k.len() > 0,
        v.len() > 0,
        !k.contains('='),
        k[0] != '[',
        !crate::chars::is_white(k[0]),
        !crate::chars::is_white(k.last()),
        !crate::chars::is_white(v[0]),
        !crate::chars::is_white(v.last()),
        v[0] != '"',
        v.last() != '"',
    ensures
        step(st, k + seq!['='] + v) == match st.host {
            Some(h) => match set_host_key(h, k, v) {
                Ok(h2) => Ok(ReadState { host: Some(h2), ..st }),
                Err(e) => Err(e),
            },
            None => match st.lb {
                Some(l) => Ok(ReadState { lb: Some(set_lb_key(l, k, v)), ..st }),
                None => Ok(st),
            },
        },
{
    reveal_strlit("[load_balancer]");
    reveal_strlit("[[");
    let line = k + seq!['='] + v;
    assert(line[0] == k[0]);
    assert(line.last() == v.last());
    crate::chars::lemma_trim_none(line, CharSet::White);
    assert(line != "[load_balancer]"@) by {
        assert("[load_balancer]"@[0] == '[');
    }
    assert(!starts_with(line, "[["@)) by {
        if starts_with(line, "[["@) {
            assert(line.subrange(0, 2)[0] == line[0]);
        }
    }
    crate::chars::lemma_split_once_first(k, '=', v);
    crate::chars::lemma_trim_none(k, CharSet::White);
    crate::chars::lemma_trim_none(v, CharSet::White);
    crate::chars::lemma_trim_none(v, CharSet::One('"'));
}

/// A line `[[d]]`, where `d` neither begins nor ends with a bracket or
/// white space, files the open domain and opens the domain `d`.
pub proof fn lemma_domain_line(st: ReadState, d: Seq<char>)
    requires
        d.len() > 0,
        d[0] != '[',
        d[0] != ']',
        d.last() != '[',
        d.last() != ']',
        !crate::chars::is_white(d[0]),
        !crate::chars::is_white(d.last()),
    ensures
        step(st, "[["@ + d + "]]"@) == Ok::<ReadState, Seq<char>>(
            ReadState { domain: Some(d), host: Some(lb_host_default()), ..file_domain(st) },
        ),
{
    reveal_strlit("[[");
    reveal_strlit("]]");
    reveal_strlit("[load_balancer]");
    let l2 = "[["@ + d + "]]"@;
    assert(l2[0] == '[' && l2.last() == ']');
    crate::chars::lemma_trim_none(l2, CharSet::White);
    assert(l2[1] == '[');
    assert("[load_balancer]"@[1] != '[');
    assert(l2.subrange(0, 2) =~= "[["@);
    assert(l2.subrange(l2.len() - 2, l2.len() as int) =~= "]]"@);
    assert(crate::combined_parser::domain_name(l2) == d) by {
        crate::combined_parser::lemma_block_name("[["@, d, "]]"@);
    }
}

} // verus!
