//! The data the gateway keeps: routes, route rules, settings and status records,
//! each with a mathematical view in which strings are `Seq<char>`.
use vstd::prelude::*;

use crate::text::owned;

verus! {

/// Where a route comes from: configured by hand, or discovered from a container.
#[derive(Clone, Copy, Debug, PartialEq, Eq, Structural)]
pub enum GatewaySource {
    Static,
    Auto,
}

impl Default for GatewaySource {
    fn default() -> (s: Self)
        ensures
            s == GatewaySource::Static,
    {
        GatewaySource::Static
    }
}

/// A route: `subdomain` is served by `target_host:port`.
#[derive(Clone, Debug)]
pub struct Gateway {
    pub subdomain: String,
    pub target_host: String,
    pub port: u16,
    pub source: GatewaySource,
    pub container_id: Option<String>,
    pub container_name: Option<String>,
}

/// The mathematical value of a [`Gateway`].
pub struct GatewayView {
    pub subdomain: Seq<char>,
    pub target_host: Seq<char>,
    pub port: u16,
    pub source: GatewaySource,
    pub container_id: Option<Seq<char>>,
    pub container_name: Option<Seq<char>>,
}

impl DeepView for Gateway {
    type V = GatewayView;

    open spec fn deep_view(&self) -> GatewayView {
        GatewayView {
            subdomain: self.subdomain@,
            target_host: self.target_host@,
            port: self.port,
            source: self.source,
            container_id: self.container_id.deep_view(),
            container_name: self.container_name.deep_view(),
        }
    }
}

/// Whether the Caddy container runs and its admin API answers.
#[derive(Clone, Debug)]
pub struct CaddyStatus {
    pub running: bool,
    pub api_reachable: bool,
    pub error: Option<String>,
}

/// A port of a container image and the subdomain template it is served under;
/// `{name}` in the template stands for the container's name.
#[derive(Clone, Debug)]
pub struct PortMapping {
    pub port: u16,
    pub subdomain_template: String,
}

/// The mathematical value of a [`PortMapping`].
pub struct PortMappingView {
    pub port: u16,
    pub subdomain_template: Seq<char>,
}

impl DeepView for PortMapping {
    type V = PortMappingView;

    open spec fn deep_view(&self) -> PortMappingView {
        PortMappingView { port: self.port, subdomain_template: self.subdomain_template@ }
    }
}

/// Port mappings for containers whose image matches `image_pattern`
/// (exactly, or by prefix when the pattern ends in `*`).
#[derive(Clone, Debug)]
pub struct StaticRouteRule {
    pub image_pattern: String,
    pub port_mappings: Vec<PortMapping>,
}

/// The mathematical value of a [`StaticRouteRule`].
pub struct StaticRouteRuleView {
    pub image_pattern: Seq<char>,
    pub port_mappings: Seq<PortMappingView>,
}

impl DeepView for StaticRouteRule {
    type V = StaticRouteRuleView;

    open spec fn deep_view(&self) -> StaticRouteRuleView {
        StaticRouteRuleView {
            image_pattern: self.image_pattern@,
            port_mappings: self.port_mappings.deep_view(),
        }
    }
}

/// What is known of the wildcard certificate.
#[derive(Clone, Debug)]
pub struct CertInfo {
    pub has_env_vars: bool,
    pub domain: Option<String>,
    pub issuer: Option<String>,
    pub not_before: Option<String>,
    pub not_after: Option<String>,
    pub subject_alt_names: Option<String>,
    pub error: Option<String>,
}

/// The mathematical value of a [`CertInfo`].
pub struct CertInfoView {
    pub has_env_vars: bool,
    pub domain: Option<Seq<char>>,
    pub issuer: Option<Seq<char>>,
    pub not_before: Option<Seq<char>>,
    pub not_after: Option<Seq<char>>,
    pub subject_alt_names: Option<Seq<char>>,
    pub error: Option<Seq<char>>,
}

impl DeepView for CertInfo {
    type V = CertInfoView;

    open spec fn deep_view(&self) -> CertInfoView {
        CertInfoView {
            has_env_vars: self.has_env_vars,
            domain: self.domain.deep_view(),
            issuer: self.issuer.deep_view(),
            not_before: self.not_before.deep_view(),
            not_after: self.not_after.deep_view(),
            subject_alt_names: self.subject_alt_names.deep_view(),
            error: self.error.deep_view(),
        }
    }
}

/// One line of the event log.
#[derive(Clone, Debug)]
pub struct LogEntry {
    pub timestamp: String,
    pub level: String,
    pub message: String,
}

/// The mathematical value of a [`LogEntry`].
pub struct LogEntryView {
    pub timestamp: Seq<char>,
    pub level: Seq<char>,
    pub message: Seq<char>,
}

impl DeepView for LogEntry {
    type V = LogEntryView;

    open spec fn deep_view(&self) -> LogEntryView {
        LogEntryView {
            timestamp: self.timestamp@,
            level: self.level@,
            message: self.message@,
        }
    }
}

/// An environment variable handed to the Caddy container. The key is kept in
/// the settings; the value is kept in the credential store.
#[derive(Clone, Debug)]
pub struct EnvVarEntry {
    pub key: String,
}

impl DeepView for EnvVarEntry {
    type V = Seq<char>;

    open spec fn deep_view(&self) -> Seq<char> {
        self.key@
    }
}

/// Supported DNS challenge providers for wildcard certificates.
#[derive(Clone, Copy, Debug, PartialEq, Eq, Structural)]
pub enum DnsProvider {
    Cloudflare,
    Porkbun,
}

impl Default for DnsProvider {
    fn default() -> (p: Self)
        ensures
            p == DnsProvider::Cloudflare,
    {
        DnsProvider::Cloudflare
    }
}

/// The gateway's settings.
#[derive(Clone, Debug)]
pub struct AppConfig {
    pub domain: String,
    pub caddy_image: String,
    pub dns_provider: DnsProvider,
    pub static_routes: Vec<Gateway>,
    pub route_rules: Vec<StaticRouteRule>,
    pub caddy_env_vars: Vec<EnvVarEntry>,
}

/// The mathematical value of an [`AppConfig`].
pub struct AppConfigView {
    pub domain: Seq<char>,
    pub caddy_image: Seq<char>,
    pub dns_provider: DnsProvider,
    pub static_routes: Seq<GatewayView>,
    pub route_rules: Seq<StaticRouteRuleView>,
    pub caddy_env_vars: Seq<Seq<char>>,
}

impl DeepView for AppConfig {
    type V = AppConfigView;

    open spec fn deep_view(&self) -> AppConfigView {
        AppConfigView {
            domain: self.domain@,
            caddy_image: self.caddy_image@,
            dns_provider: self.dns_provider,
            static_routes: self.static_routes.deep_view(),
            route_rules: self.route_rules.deep_view(),
            caddy_env_vars: self.caddy_env_vars.deep_view(),
        }
    }
}

/// The settings of a fresh installation: no domain, the stock `caddy:2`
/// image, Cloudflare, and no routes, rules or environment variables.
pub open spec fn default_config_view() -> AppConfigView {
    AppConfigView {
        domain: Seq::empty(),
        caddy_image: "caddy:2"@,
        dns_provider: DnsProvider::Cloudflare,
        static_routes: Seq::empty(),
        route_rules: Seq::empty(),
        caddy_env_vars: Seq::empty(),
    }
}

impl Default for AppConfig {
    fn default() -> (c: Self)
        ensures
            c.deep_view() == default_config_view(),
    {
        let c = AppConfig {
            domain: String::new(),
            caddy_image: owned("caddy:2"),
            dns_provider: DnsProvider::Cloudflare,
            static_routes: Vec::new(),
            route_rules: Vec::new(),
            caddy_env_vars: Vec::new(),
        };
        assert(c.static_routes.deep_view() =~= Seq::<GatewayView>::empty());
        assert(c.route_rules.deep_view() =~= Seq::<StaticRouteRuleView>::empty());
        assert(c.caddy_env_vars.deep_view() =~= Seq::<Seq<char>>::empty());
        c
    }
}

/// A copy of an optional string.
pub fn copy_opt_string(o: &Option<String>) -> (r: Option<String>)
    ensures
        r.deep_view() == o.deep_view(),
{
    match o {
        Some(s) => Some(s.clone()),
        None => None,
    }
}

/// A copy of a route.
pub fn copy_gateway(g: &Gateway) -> (r: Gateway)
    ensures
        r.deep_view() == g.deep_view(),
{
    Gateway {
        subdomain: g.subdomain.clone(),
        target_host: g.target_host.clone(),
        port: g.port,
        source: g.source,
        container_id: copy_opt_string(&g.container_id),
        container_name: copy_opt_string(&g.container_name),
    }
}

/// A copy of a list of routes.
pub fn copy_gateways(v: &Vec<Gateway>) -> (r: Vec<Gateway>)
    ensures
        r.deep_view() == v.deep_view(),
{
    let mut r: Vec<Gateway> = Vec::new();
    let mut i: usize = 0;
    while i < v.len()
        invariant
            i <= v.len(),
            r.len() == i,
            forall|j: int| 0 <= j < i ==> #[trigger] r@[j].deep_view() == v@[j].deep_view(),
        decreases v.len() - i,
    {
        let g = copy_gateway(&v[i]);
        let ghost prev = r@;
        r.push(g);
        assert(r@[i as int] == g);
        i = i + 1;
    }
    assert(r.deep_view() =~= v.deep_view());
    r
}

/// A copy of a port mapping.
pub fn copy_port_mapping(pm: &PortMapping) -> (r: PortMapping)
    ensures
        r.deep_view() == pm.deep_view(),
{
    PortMapping { port: pm.port, subdomain_template: pm.subdomain_template.clone() }
}

/// A copy of a route rule.
pub fn copy_route_rule(rule: &StaticRouteRule) -> (r: StaticRouteRule)
    ensures
        r.deep_view() == rule.deep_view(),
{
    let mut pms: Vec<PortMapping> = Vec::new();
    let mut i: usize = 0;
    while i < rule.port_mappings.len()
        invariant
            i <= rule.port_mappings.len(),
            pms.len() == i,
            forall|j: int| 0 <= j < i ==> #[trigger] pms@[j].deep_view() == rule.port_mappings@[j].deep_view(),
        decreases rule.port_mappings.len() - i,
    {
        pms.push(copy_port_mapping(&rule.port_mappings[i]));
        i = i + 1;
    }
    let r = StaticRouteRule { image_pattern: rule.image_pattern.clone(), port_mappings: pms };
    assert(r.port_mappings.deep_view() =~= rule.port_mappings.deep_view());
    r
}

/// A copy of an environment variable entry.
pub fn copy_env_var_entry(e: &EnvVarEntry) -> (r: EnvVarEntry)
    ensures
        r.deep_view() == e.deep_view(),
{
    EnvVarEntry { key: e.key.clone() }
}

} // verus!
