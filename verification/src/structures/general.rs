//! The top-level configuration.
use vstd::prelude::*;
use crate::nom_parser_impl::{LoadBalancerConfig, ProxyConfig};

verus! {

/// A configuration: an optional metrics address and the proxy and load
/// balancer sections.
#[derive(Debug)]
pub struct Config {
    pub prometheus_addr: Option<String>,
    pub proxy: Option<Vec<ProxyConfig>>,
    pub load_balancer: Option<Vec<LoadBalancerConfig>>,
}

impl Default for Config {
    /// A configuration with nothing set.
    fn default() -> (r: Self)
        ensures
            r.prometheus_addr is None,
            r.proxy is None,
            r.load_balancer is None,
    {
        Config { prometheus_addr: None, proxy: None, load_balancer: None }
    }
}

} // verus!
