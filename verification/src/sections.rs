//! Proxy sections gathered from the records of a parsed document: each
//! `proxy` record carries its `key = value` lines and domain blocks.
//!
//! A section is kept only once it has a listener; the keys of a section
//! without one flow into the next.
use vstd::prelude::*;
use crate::lexer::{opt_pairs_view, opt_str_view, HeadersView};
use crate::str_map::StrMap;
use crate::text::same_text;

verus! {

/// One item of a proxy record.
#[derive(Debug)]
pub enum SectionItem {
    /// A `key = value` line.
    KeyValue(String, String),
    /// A domain block; its contents are not read.
    DomainSection,
    /// Anything else.
    Other,
}

/// One record of a parsed document.
#[derive(Debug)]
pub enum Record {
    /// A `proxy` section with its items.
    ProxySection(Vec<SectionItem>),
    /// Anything else.
    Other,
}

/// One proxy section.
#[derive(Debug)]
pub struct ProxyConfig {
    pub listener: String,
    pub tls_certificate: Option<String>,
    pub tls_certificate_key: Option<String>,
    pub servers: StrMap<ProxyHostConfig>,
}

/// The settings of one proxied domain.
#[derive(Debug)]
pub struct ProxyHostConfig {
    pub proxy_addr: String,
    pub proxy_tls: bool,
    pub proxy_headers: Option<Vec<(String, String)>>,
    pub proxy_uds: bool,
    pub routes: StrMap<ProxyPathBaseHostConfig>,
}

/// The settings of one route of a proxied domain.
#[derive(Debug)]
pub struct ProxyPathBaseHostConfig {
    pub proxy_addr: Option<String>,
    pub proxy_tls: bool,
    pub proxy_headers: Option<Vec<(String, String)>>,
    pub proxy_uds: bool,
}

/// A route's settings as values.
pub struct RouteView {
    pub proxy_addr: Option<Seq<char>>,
    pub proxy_tls: bool,
    pub proxy_headers: Option<HeadersView>,
    pub proxy_uds: bool,
}

/// A proxied domain's settings as values.
pub struct HostView {
    pub proxy_addr: Seq<char>,
    pub proxy_tls: bool,
    pub proxy_headers: Option<HeadersView>,
    pub proxy_uds: bool,
    pub routes: Map<Seq<char>, RouteView>,
}

/// A proxy section as values.
pub struct ProxyView {
    pub listener: Seq<char>,
    pub tls_certificate: Option<Seq<char>>,
    pub tls_certificate_key: Option<Seq<char>>,
    pub servers: Map<Seq<char>, HostView>,
}

/// An item as values.
pub enum ItemView {
    KeyValue(Seq<char>, Seq<char>),
    DomainSection,
    Other,
}

/// A record as values.
pub enum RecordView {
    ProxySection(Seq<ItemView>),
    Other,
}

impl View for ProxyPathBaseHostConfig {
    type V = RouteView;

    open spec fn view(&self) -> RouteView {
        RouteView {
            proxy_addr: opt_str_view(self.proxy_addr),
            proxy_tls: self.proxy_tls,
            proxy_headers: opt_pairs_view(self.proxy_headers),
            proxy_uds: self.proxy_uds,
        }
    }
}

impl View for ProxyHostConfig {
    type V = HostView;

    open spec fn view(&self) -> HostView {
        HostView {
            proxy_addr: self.proxy_addr@,
            proxy_tls: self.proxy_tls,
            proxy_headers: opt_pairs_view(self.proxy_headers),
            proxy_uds: self.proxy_uds,
            routes: self.routes@,
        }
    }
}

impl View for ProxyConfig {
    type V = ProxyView;

    open spec fn view(&self) -> ProxyView {
        ProxyView {
            listener: self.listener@,
            tls_certificate: opt_str_view(self.tls_certificate),
            tls_certificate_key: opt_str_view(self.tls_certificate_key),
            servers: self.servers@,
        }
    }
}

impl View for SectionItem {
    type V = ItemView;

    open spec fn view(&self) -> ItemView {
        match self {
            SectionItem::KeyValue(k, x) => ItemView::KeyValue(k@, x@),
            SectionItem::DomainSection => ItemView::DomainSection,
            SectionItem::Other => ItemView::Other,
        }
    }
}

/// Items taken by their views.
pub open spec fn items_view(v: Seq<SectionItem>) -> Seq<ItemView> {
    v.map_values(|i: SectionItem| i@)
}

impl View for Record {
    type V = RecordView;

    open spec fn view(&self) -> RecordView {
        match self {
            Record::ProxySection(items) => RecordView::ProxySection(items_view(items@)),
            Record::Other => RecordView::Other,
        }
    }
}

/// Records taken by their views.
pub open spec fn records_view(v: Seq<Record>) -> Seq<RecordView> {
    v.map_values(|r: Record| r@)
}

/// Proxy sections taken by their views.
pub open spec fn proxies_view(v: Seq<ProxyConfig>) -> Seq<ProxyView> {
    v.map_values(|c: ProxyConfig| c@)
}

/// A proxy section with nothing set.
pub open spec fn proxy_default() -> ProxyView {
    ProxyView {
        listener: Seq::empty(),
        tls_certificate: None,
        tls_certificate_key: None,
        servers: Map::empty(),
    }
}

/// A proxy section with one item applied: `listener`, `tls_certificate`
/// and `tls_certificate_key` are set, everything else is passed over.
pub open spec fn apply_item(p: ProxyView, it: ItemView) -> ProxyView {
    match it {
        ItemView::KeyValue(k, x) => if k == "listener"@ {
            ProxyView { listener: x, ..p }
        } else if k == "tls_certificate"@ {
            ProxyView { tls_certificate: Some(x), ..p }
        } else if k == "tls_certificate_key"@ {
            ProxyView { tls_certificate_key: Some(x), ..p }
        } else {
            p
        },
        _ => p,
    }
}

/// A proxy section with the given items applied in order.
pub open spec fn apply_items(p: ProxyView, items: Seq<ItemView>) -> ProxyView
    decreases items.len(),
{
    if items.len() == 0 {
        p
    } else {
        apply_item(apply_items(p, items.drop_last()), items.last())
    }
}

/// The sections kept so far and the section being filled.
pub open spec fn gather(records: Seq<RecordView>) -> (Seq<ProxyView>, ProxyView)
    decreases records.len(),
{
    if records.len() == 0 {
        (Seq::empty(), proxy_default())
    } else {
        let (done, cur) = gather(records.drop_last());
        match records.last() {
            RecordView::ProxySection(items) => {
                let (done2, cur2) = if cur.listener.len() > 0 {
                    (done.push(cur), proxy_default())
                } else {
                    (done, cur)
                };
                (done2, apply_items(cur2, items))
            },
            RecordView::Other => (done, cur),
        }
    }
}

/// The proxy sections that the records give: each section is closed by
/// the next proxy record where it has a listener, and the last is kept
/// where it has one.
pub open spec fn spec_collect_proxy_configs(records: Seq<RecordView>) -> Seq<ProxyView> {
    let (done, cur) = gather(records);
    if cur.listener.len() > 0 {
        done.push(cur)
    } else {
        done
    }
}

fn new_proxy() -> (r: ProxyConfig)
    ensures
        r@ == proxy_default(),
{
    ProxyConfig {
        listener: String::new(),
        tls_certificate: None,
        tls_certificate_key: None,
        servers: StrMap::new(),
    }
}

/// Applies the items of one record.
fn apply_items_in(p: &mut ProxyConfig, items: &Vec<SectionItem>)
    ensures
        final(p)@ == apply_items(old(p)@, items_view(items@)),
{
    let ghost start = p@;
    let mut i: usize = 0;
    assert(items_view(items@).take(0) =~= Seq::<ItemView>::empty());
    while i < items.len()
        invariant
            i <= items@.len(),
            p@ == apply_items(start, items_view(items@).take(i as int)),
        decreases items@.len() - i,
    {
        assert(items_view(items@).take(i + 1).drop_last() =~= items_view(items@).take(i as int));
        match &items[i] {
            SectionItem::KeyValue(key, value) => {
                if same_text(key.as_str(), "listener") {
                    p.listener = value.clone();
                } else if same_text(key.as_str(), "tls_certificate") {
                    p.tls_certificate = Some(value.clone());
                } else if same_text(key.as_str(), "tls_certificate_key") {
                    p.tls_certificate_key = Some(value.clone());
                }
            },
            _ => {},
        }
        i = i + 1;
    }
    assert(items_view(items@).take(i as int) =~= items_view(items@));
}

/// Gathers the proxy sections of parsed records, in order.
pub fn collect_proxy_configs(records: &Vec<Record>) -> (r: Vec<ProxyConfig>)
    ensures
        proxies_view(r@) == spec_collect_proxy_configs(records_view(records@)),
{
    let ghost rs = records_view(records@);
    let mut proxy_configs: Vec<ProxyConfig> = Vec::new();
    let mut current_proxy = new_proxy();
    let mut i: usize = 0;
    assert(rs.take(0) =~= Seq::<RecordView>::empty());
    assert(proxies_view(proxy_configs@) =~= Seq::<ProxyView>::empty());
    while i < records.len()
        invariant
            i <= records@.len(),
            rs == records_view(records@),
            gather(rs.take(i as int)) == (proxies_view(proxy_configs@), current_proxy@),
        decreases records@.len() - i,
    {
        assert(rs.take(i + 1).drop_last() =~= rs.take(i as int));
        match &records[i] {
            Record::ProxySection(items) => {
                if !current_proxy.listener.as_str().is_empty() {
                    let ghost before = proxies_view(proxy_configs@);
                    let ghost cv = current_proxy@;
                    let mut done = new_proxy();
                    std::mem::swap(&mut done, &mut current_proxy);
                    proxy_configs.push(done);
                    assert(proxies_view(proxy_configs@) =~= before.push(cv));
                }
                apply_items_in(&mut current_proxy, items);
            },
            Record::Other => {},
        }
        i = i + 1;
    }
    assert(rs.take(i as int) =~= rs);
    if !current_proxy.listener.as_str().is_empty() {
        let ghost before = proxies_view(proxy_configs@);
        let ghost cv = current_proxy@;
        proxy_configs.push(current_proxy);
        assert(proxies_view(proxy_configs@) =~= before.push(cv));
    }
    proxy_configs
}

/// In a proxy record, `listener`, `tls_certificate` and
/// `tls_certificate_key` take their values; other keys, domain blocks and
/// other items change nothing.
pub proof fn lemma_item_keys(p: ProxyView, x: Seq<char>, other: Seq<char>)
    requires
        other != "listener"@,
        other != "tls_certificate"@,
        other != "tls_certificate_key"@,
    ensures
        apply_item(p, ItemView::KeyValue("listener"@, x)) == (ProxyView { listener: x, ..p }),
        apply_item(p, ItemView::KeyValue("tls_certificate"@, x)) == (ProxyView {
            tls_certificate: Some(x),
            ..p
        }),
        apply_item(p, ItemView::KeyValue("tls_certificate_key"@, x)) == (ProxyView {
            tls_certificate_key: Some(x),
            ..p
        }),
        apply_item(p, ItemView::KeyValue(other, x)) == p,
        apply_item(p, ItemView::DomainSection) == p,
        apply_item(p, ItemView::Other) == p,
{
    crate::combined_parser::lemma_key_names();
}

/// Sections set aside while gathering all have a listener.
proof fn lemma_gather_listeners(records: Seq<RecordView>)
    ensures
        forall|i: int| 0 <= i < gather(records).0.len() ==> (#[trigger] gather(records).0[i]).listener.len() > 0,
    decreases records.len(),
{
    if records.len() > 0 {
        lemma_gather_listeners(records.drop_last());
    }
}

/// Every section given has a listener: one without is never kept.
pub proof fn lemma_sections_have_listener(records: Seq<RecordView>)
    ensures
        forall|i: int|
            0 <= i < spec_collect_proxy_configs(records).len() ==> (#[trigger] spec_collect_proxy_configs(records)[i]).listener.len() > 0,
{
    lemma_gather_listeners(records);
}

/// A record that is not a proxy section changes nothing; a proxy record
/// closes the section being filled where it has a listener, so that it
/// is given before all that follows.
pub proof fn lemma_record_effects(records: Seq<RecordView>, items: Seq<ItemView>)
    ensures
        spec_collect_proxy_configs(records.push(RecordView::Other)) == spec_collect_proxy_configs(records),
        gather(records).1.listener.len() > 0 ==> gather(
            records.push(RecordView::ProxySection(items)),
        ).0 == gather(records).0.push(gather(records).1),
{
    assert(records.push(RecordView::Other).drop_last() =~= records);
    assert(records.push(RecordView::ProxySection(items)).drop_last() =~= records);
}

} // verus!
