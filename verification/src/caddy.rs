//! The configuration that the gateway loads into Caddy, and what it reports
//! about the wildcard certificate.
use vstd::prelude::*;

use crate::models::{CaddyStatus, CertInfo, CertInfoView, DnsProvider, Gateway, GatewayView};
use crate::string_map::StringMap;
use crate::text::{concat2, concat3, decimal, decimal_string, owned, str_eq};

verus! {

// ---------------------------------------------------------------------------
// The configuration document
// ---------------------------------------------------------------------------

/// A reverse-proxy route of the Caddy HTTP server: requests for `host` go to
/// the `handler` (always `reverse_proxy`), which dials `dial`.
#[derive(Debug)]
pub struct CaddyRoute {
    pub host: String,
    pub handler: String,
    pub dial: String,
}

/// The mathematical value of a [`CaddyRoute`].
pub struct CaddyRouteView {
    pub host: Seq<char>,
    pub handler: Seq<char>,
    pub dial: Seq<char>,
}

impl DeepView for CaddyRoute {
    type V = CaddyRouteView;

    open spec fn deep_view(&self) -> CaddyRouteView {
        CaddyRouteView { host: self.host@, handler: self.handler@, dial: self.dial@ }
    }
}

/// A TLS automation policy: certificates for `subjects` are issued by the
/// `issuer_module` (always `acme`) through the DNS challenge of `dns_provider`.
#[derive(Debug)]
pub struct TlsPolicy {
    pub subjects: Vec<String>,
    pub issuer_module: String,
    pub dns_provider: StringMap,
}

/// The mathematical value of a [`TlsPolicy`].
pub struct TlsPolicyView {
    pub subjects: Seq<Seq<char>>,
    pub issuer_module: Seq<char>,
    pub dns_provider: Map<Seq<char>, Seq<char>>,
}

impl DeepView for TlsPolicy {
    type V = TlsPolicyView;

    open spec fn deep_view(&self) -> TlsPolicyView {
        TlsPolicyView {
            subjects: self.subjects.deep_view(),
            issuer_module: self.issuer_module@,
            dns_provider: self.dns_provider@,
        }
    }
}

/// The Caddy configuration: one HTTP server `server_name` listening on
/// `listen` with `routes`, and, when a domain is set, the TLS automation
/// policies.
#[derive(Debug)]
pub struct CaddyConfig {
    pub server_name: String,
    pub listen: Vec<String>,
    pub routes: Vec<CaddyRoute>,
    pub tls_policies: Option<Vec<TlsPolicy>>,
}

/// The mathematical value of a [`CaddyConfig`].
pub struct CaddyConfigView {
    pub server_name: Seq<char>,
    pub listen: Seq<Seq<char>>,
    pub routes: Seq<CaddyRouteView>,
    pub tls_policies: Option<Seq<TlsPolicyView>>,
}

impl DeepView for CaddyConfig {
    type V = CaddyConfigView;

    open spec fn deep_view(&self) -> CaddyConfigView {
        CaddyConfigView {
            server_name: self.server_name@,
            listen: self.listen.deep_view(),
            routes: self.routes.deep_view(),
            tls_policies: self.tls_policies.deep_view(),
        }
    }
}

/// The host Caddy itself reaches for a route target: the loopback names of
/// the host machine become `host.docker.internal`, since Caddy runs inside
/// Docker; any other name stays.
pub open spec fn target_host_spec(host: Seq<char>) -> Seq<char> {
    if host == "localhost"@ || host == "127.0.0.1"@ || host == "0.0.0.0"@
        || host == "host.docker.internal"@ {
        "host.docker.internal"@
    } else {
        host
    }
}

/// The host name a route is served under: `subdomain.domain`, or the bare
/// subdomain when no domain is set.
pub open spec fn route_host(subdomain: Seq<char>, domain: Seq<char>) -> Seq<char> {
    if domain.len() == 0 {
        subdomain
    } else {
        subdomain + "."@ + domain
    }
}

/// The Caddy route for a gateway.
pub open spec fn caddy_route_spec(g: GatewayView, domain: Seq<char>) -> CaddyRouteView {
    CaddyRouteView {
        host: route_host(g.subdomain, domain),
        handler: "reverse_proxy"@,
        dial: target_host_spec(g.target_host) + ":"@ + decimal(g.port as nat),
    }
}

/// The DNS challenge provider settings; the credentials are read by Caddy
/// from its environment.
pub open spec fn dns_provider_spec(p: DnsProvider) -> Map<Seq<char>, Seq<char>> {
    match p {
        DnsProvider::Cloudflare => map![
            "name"@ => "cloudflare"@,
            "api_token"@ => "{env.CLOUDFLARE_API_TOKEN}"@,
        ],
        DnsProvider::Porkbun => map![
            "name"@ => "porkbun"@,
            "api_key"@ => "{env.PORKBUN_API_KEY}"@,
            "api_secret_key"@ => "{env.PORKBUN_API_SECRET}"@,
        ],
    }
}

/// The whole configuration: server `srv0` on `:443` and `:80` with one route
/// per gateway in order; with a domain, a TLS section whose single policy
/// (none when there are no routes) covers the host of every route and issues
/// through ACME with the DNS challenge of the chosen provider.
pub open spec fn caddy_config_spec(
    routes: Seq<GatewayView>,
    domain: Seq<char>,
    provider: DnsProvider,
) -> CaddyConfigView {
    CaddyConfigView {
        server_name: "srv0"@,
        listen: seq![":443"@, ":80"@],
        routes: routes.map_values(|g: GatewayView| caddy_route_spec(g, domain)),
        tls_policies: if domain.len() == 0 {
            None
        } else if routes.len() == 0 {
            Some(Seq::empty())
        } else {
            Some(
                seq![
                    TlsPolicyView {
                        subjects: routes.map_values(|g: GatewayView| route_host(g.subdomain, domain)),
                        issuer_module: "acme"@,
                        dns_provider: dns_provider_spec(provider),
                    },
                ],
            )
        },
    }
}

/// Translates the host machine's loopback names to `host.docker.internal`
/// so that Caddy, inside Docker, can reach services on the host.
pub fn resolve_target_host<'a>(host: &'a str) -> (r: &'a str)
    ensures
        r@ == target_host_spec(host@),
{
    if str_eq(host, "localhost") || str_eq(host, "127.0.0.1") || str_eq(host, "0.0.0.0")
        || str_eq(host, "host.docker.internal") {
        "host.docker.internal"
    } else {
        host
    }
}

/// The DNS challenge provider settings for `provider`.
pub fn dns_provider_config(provider: &DnsProvider) -> (r: StringMap)
    ensures
        r@ == dns_provider_spec(*provider),
{
    let mut m = StringMap::new();
    match provider {
        DnsProvider::Cloudflare => {
            m.insert(owned("name"), owned("cloudflare"));
            m.insert(owned("api_token"), owned("{env.CLOUDFLARE_API_TOKEN}"));
        },
        DnsProvider::Porkbun => {
            m.insert(owned("name"), owned("porkbun"));
            m.insert(owned("api_key"), owned("{env.PORKBUN_API_KEY}"));
            m.insert(owned("api_secret_key"), owned("{env.PORKBUN_API_SECRET}"));
        },
    }
    assert(m@ =~= dns_provider_spec(*provider));
    m
}

/// The host name a route is served under.
fn host_for(subdomain: &str, domain: &str) -> (r: String)
    ensures
        r@ == route_host(subdomain@, domain@),
{
    if domain.is_empty() {
        owned(subdomain)
    } else {
        concat3(subdomain, ".", domain)
    }
}

/// Builds the Caddy configuration for `routes` under `domain`.
pub fn build_caddy_config(routes: &Vec<Gateway>, domain: &str, dns_provider: &DnsProvider) -> (r: CaddyConfig)
    ensures
        r.deep_view() == caddy_config_spec(routes.deep_view(), domain@, *dns_provider),
{
    let ghost rv = routes.deep_view();
    let mut caddy_routes: Vec<CaddyRoute> = Vec::new();
    let mut i: usize = 0;
    while i < routes.len()
        invariant
            i <= routes.len(),
            rv == routes.deep_view(),
            caddy_routes.len() == i,
            forall|q: int| 0 <= q < i ==> #[trigger] caddy_routes@[q].deep_view() == caddy_route_spec(rv[q], domain@),
        decreases routes.len() - i,
    {
        let gw = &routes[i];
        let host = host_for(gw.subdomain.as_str(), domain);
        let target = resolve_target_host(gw.target_host.as_str());
        let port = decimal_string(gw.port as u64);
        let dial = concat3(target, ":", port.as_str());
        caddy_routes.push(CaddyRoute { host, handler: owned("reverse_proxy"), dial });
        i = i + 1;
    }
    let mut listen: Vec<String> = Vec::new();
    listen.push(owned(":443"));
    listen.push(owned(":80"));
    let tls_policies = if domain.is_empty() {
        None
    } else {
        let mut policies: Vec<TlsPolicy> = Vec::new();
        if routes.len() > 0 {
            let mut subjects: Vec<String> = Vec::new();
            let mut j: usize = 0;
            while j < routes.len()
                invariant
                    j <= routes.len(),
                    rv == routes.deep_view(),
                    subjects.len() == j,
                    forall|q: int| 0 <= q < j ==> #[trigger] subjects@[q]@ == route_host(rv[q].subdomain, domain@),
                decreases routes.len() - j,
            {
                subjects.push(host_for(routes[j].subdomain.as_str(), domain));
                j = j + 1;
            }
            let provider = dns_provider_config(dns_provider);
            let policy = TlsPolicy { subjects, issuer_module: owned("acme"), dns_provider: provider };
            assert(policy.subjects.deep_view() =~= rv.map_values(|g: GatewayView| route_host(g.subdomain, domain@)));
            policies.push(policy);
        }
        Some(policies)
    };
    let r = CaddyConfig {
        server_name: owned("srv0"),
        listen,
        routes: caddy_routes,
        tls_policies,
    };
    assert(r.listen.deep_view() =~= seq![":443"@, ":80"@]);
    assert(r.routes.deep_view() =~= rv.map_values(|g: GatewayView| caddy_route_spec(g, domain@)));
    proof {
        if domain@.len() != 0 {
            let spec_policies = caddy_config_spec(rv, domain@, *dns_provider).tls_policies->0;
            assert(r.tls_policies->0.deep_view() =~= spec_policies);
        }
    }
    r
}

// ---------------------------------------------------------------------------
// Pushing a configuration
// ---------------------------------------------------------------------------

/// What pushing a configuration amounts to, given whether Caddy accepted it
/// and the body of its reply.
pub fn push_outcome(accepted: bool, body: &str) -> (r: Result<(), String>)
    ensures
        accepted ==> r is Ok,
        !accepted ==> (r matches Err(e) && e@ == "Caddy rejected config: "@ + body@),
{
    if accepted {
        Ok(())
    } else {
        Err(concat2("Caddy rejected config: ", body))
    }
}

// ---------------------------------------------------------------------------
// Certificate status
// ---------------------------------------------------------------------------

/// The host names to probe for a served certificate, one per route in order.
pub open spec fn cert_probe_hosts_spec(routes: Seq<GatewayView>, domain: Seq<char>) -> Seq<Seq<char>> {
    routes.map_values(|g: GatewayView| g.subdomain + "."@ + domain)
}

/// The host names to probe for a served certificate.
pub fn cert_probe_hosts(routes: &Vec<Gateway>, domain: &str) -> (r: Vec<String>)
    ensures
        r.deep_view() == cert_probe_hosts_spec(routes.deep_view(), domain@),
{
    let ghost rv = routes.deep_view();
    let mut r: Vec<String> = Vec::new();
    let mut i: usize = 0;
    while i < routes.len()
        invariant
            i <= routes.len(),
            rv == routes.deep_view(),
            r.len() == i,
            forall|q: int| 0 <= q < i ==> #[trigger] r@[q]@ == rv[q].subdomain + "."@ + domain@,
        decreases routes.len() - i,
    {
        r.push(concat3(routes[i].subdomain.as_str(), ".", domain));
        i = i + 1;
    }
    assert(r.deep_view() =~= cert_probe_hosts_spec(rv, domain@));
    r
}

/// The certificate report: nothing without a domain; otherwise the wildcard
/// domain, with an error when there are no routes or no probed host served
/// TLS, and Let's Encrypt as issuer with the first host that did.
pub open spec fn cert_info_spec(
    domain: Seq<char>,
    has_env_vars: bool,
    route_count: nat,
    serving_host: Option<Seq<char>>,
) -> CertInfoView {
    if domain.len() == 0 {
        CertInfoView {
            has_env_vars,
            domain: None,
            issuer: None,
            not_before: None,
            not_after: None,
            subject_alt_names: None,
            error: None,
        }
    } else if route_count == 0 {
        CertInfoView {
            has_env_vars,
            domain: Some("*."@ + domain),
            issuer: None,
            not_before: None,
            not_after: None,
            subject_alt_names: None,
            error: Some("No routes configured yet."@),
        }
    } else {
        match serving_host {
            Some(h) => CertInfoView {
                has_env_vars,
                domain: Some("*."@ + domain),
                issuer: Some("Let's Encrypt"@),
                not_before: None,
                not_after: None,
                subject_alt_names: Some(h),
                error: None,
            },
            None => CertInfoView {
                has_env_vars,
                domain: Some("*."@ + domain),
                issuer: None,
                not_before: None,
                not_after: None,
                subject_alt_names: None,
                error: Some("No valid certificates found yet. Certs may still be provisioning."@),
            },
        }
    }
}

/// The certificate report for `domain` with `route_count` routes, given the
/// first probed host that served TLS, if any.
pub fn cert_info_from_probe(
    domain: &str,
    has_env_vars: bool,
    route_count: usize,
    serving_host: Option<String>,
) -> (r: CertInfo)
    ensures
        r.deep_view() == cert_info_spec(domain@, has_env_vars, route_count as nat, serving_host.deep_view()),
{
    if domain.is_empty() {
        return CertInfo {
            has_env_vars,
            domain: None,
            issuer: None,
            not_before: None,
            not_after: None,
            subject_alt_names: None,
            error: None,
        };
    }
    let wildcard = concat2("*.", domain);
    if route_count == 0 {
        return CertInfo {
            has_env_vars,
            domain: Some(wildcard),
            issuer: None,
            not_before: None,
            not_after: None,
            subject_alt_names: None,
            error: Some(owned("No routes configured yet.")),
        };
    }
    match serving_host {
        Some(h) => CertInfo {
            has_env_vars,
            domain: Some(wildcard),
            issuer: Some(owned("Let's Encrypt")),
            not_before: None,
            not_after: None,
            subject_alt_names: Some(h),
            error: None,
        },
        None => CertInfo {
            has_env_vars,
            domain: Some(wildcard),
            issuer: None,
            not_before: None,
            not_after: None,
            subject_alt_names: None,
            error: Some(owned("No valid certificates found yet. Certs may still be provisioning.")),
        },
    }
}

// ---------------------------------------------------------------------------
// Status of the Caddy container
// ---------------------------------------------------------------------------

/// How many times the admin API is asked whether it is up after Caddy starts.
pub const HEALTH_CHECKS: u32 = 10;

/// What to do after a health check of the admin API.
#[derive(Debug, PartialEq, Eq, Structural)]
pub enum HealthStep {
    /// The API answered: it is ready.
    Ready,
    /// It did not answer: wait, then ask again.
    Retry,
    /// It did not answer at the last check: wait, then give up.
    GiveUp,
}

/// What to do after the health check numbered `attempt` (from 0), which
/// found the admin API `healthy` or not.
pub fn health_step(attempt: u32, healthy: bool) -> (r: HealthStep)
    ensures
        healthy ==> r == HealthStep::Ready,
        !healthy && attempt + 1 < HEALTH_CHECKS ==> r == HealthStep::Retry,
        !healthy && attempt + 1 >= HEALTH_CHECKS ==> r == HealthStep::GiveUp,
{
    if healthy {
        HealthStep::Ready
    } else if attempt < HEALTH_CHECKS - 1 {
        HealthStep::Retry
    } else {
        HealthStep::GiveUp
    }
}

/// The status after trying to start Caddy: when preparing the network or the
/// container failed, not running with that error; otherwise running, with an
/// error when the admin API did not answer in time.
pub fn start_status(setup: Result<(), String>, api_ready: bool) -> (r: CaddyStatus)
    ensures
        setup matches Err(e) ==> !r.running && !r.api_reachable && r.error.deep_view() == Some(e@),
        setup is Ok ==> {
            &&& r.running
            &&& r.api_reachable == api_ready
            &&& api_ready ==> r.error is None
            &&& !api_ready ==> r.error.deep_view() == Some("Caddy started but API not yet reachable"@)
        },
{
    match setup {
        Err(e) => CaddyStatus { running: false, api_reachable: false, error: Some(e) },
        Ok(()) => CaddyStatus {
            running: true,
            api_reachable: api_ready,
            error: if api_ready {
                None
            } else {
                Some(owned("Caddy started but API not yet reachable"))
            },
        },
    }
}

/// The status after trying to stop Caddy: stopped, or, when stopping
/// failed, still taken as running with that error.
pub fn stop_status(stopped: Result<(), String>) -> (r: CaddyStatus)
    ensures
        stopped matches Err(e) ==> r.running && r.api_reachable && r.error.deep_view() == Some(e@),
        stopped is Ok ==> !r.running && !r.api_reachable && r.error is None,
{
    match stopped {
        Err(e) => CaddyStatus { running: true, api_reachable: true, error: Some(e) },
        Ok(()) => CaddyStatus { running: false, api_reachable: false, error: None },
    }
}

} // verus!
