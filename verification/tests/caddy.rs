use pulse_gateway::caddy::{
    build_caddy_config, cert_info_from_probe, cert_probe_hosts, dns_provider_config,
    health_step, push_outcome, resolve_target_host, start_status, stop_status, HealthStep,
    HEALTH_CHECKS,
};
use pulse_gateway::models::{DnsProvider, Gateway, GatewaySource};

fn make_gw(subdomain: &str, target: &str, port: u16) -> Gateway {
    Gateway {
        subdomain: subdomain.to_string(),
        target_host: target.to_string(),
        port,
        source: GatewaySource::Static,
        container_id: None,
        container_name: None,
    }
}

fn get<'a>(m: &'a pulse_gateway::string_map::StringMap, key: &str) -> Option<&'a str> {
    m.get(key).map(|s| s.as_str())
}

// --- resolve_target_host ---

#[test]
fn resolve_localhost() {
    assert_eq!(resolve_target_host("localhost"), "host.docker.internal");
}

#[test]
fn resolve_127() {
    assert_eq!(resolve_target_host("127.0.0.1"), "host.docker.internal");
}

#[test]
fn resolve_0000() {
    assert_eq!(resolve_target_host("0.0.0.0"), "host.docker.internal");
}

#[test]
fn resolve_already_docker_internal() {
    assert_eq!(
        resolve_target_host("host.docker.internal"),
        "host.docker.internal"
    );
}

#[test]
fn resolve_container_name() {
    assert_eq!(resolve_target_host("my-container"), "my-container");
}

#[test]
fn resolve_ip_addresses() {
    assert_eq!(resolve_target_host("192.168.1.100"), "192.168.1.100");
    assert_eq!(resolve_target_host("10.0.0.1"), "10.0.0.1");
}

// --- dns_provider_config ---

#[test]
fn dns_cloudflare() {
    let config = dns_provider_config(&DnsProvider::Cloudflare);
    assert_eq!(get(&config, "name"), Some("cloudflare"));
    assert_eq!(get(&config, "api_token"), Some("{env.CLOUDFLARE_API_TOKEN}"));
}

#[test]
fn dns_porkbun() {
    let config = dns_provider_config(&DnsProvider::Porkbun);
    assert_eq!(get(&config, "name"), Some("porkbun"));
    assert_eq!(get(&config, "api_key"), Some("{env.PORKBUN_API_KEY}"));
    assert_eq!(get(&config, "api_secret_key"), Some("{env.PORKBUN_API_SECRET}"));
}

// --- build_caddy_config ---

#[test]
fn config_empty_routes() {
    let config = build_caddy_config(&vec![], "example.com", &DnsProvider::Cloudflare);
    assert_eq!(config.server_name, "srv0");
    assert!(config.routes.is_empty());
}

#[test]
fn config_single_route_with_domain() {
    let routes = vec![make_gw("app", "my-container", 8080)];
    let config = build_caddy_config(&routes, "example.com", &DnsProvider::Cloudflare);

    let caddy_routes = &config.routes;
    assert_eq!(caddy_routes.len(), 1);
    assert_eq!(caddy_routes[0].host, "app.example.com");
    assert_eq!(caddy_routes[0].dial, "my-container:8080");
}

#[test]
fn config_localhost_target_rewritten() {
    let routes = vec![make_gw("app", "localhost", 3000)];
    let config = build_caddy_config(&routes, "example.com", &DnsProvider::Cloudflare);
    assert_eq!(config.routes[0].dial, "host.docker.internal:3000");
}

#[test]
fn config_no_domain_no_tls() {
    let routes = vec![make_gw("app", "container", 80)];
    let config = build_caddy_config(&routes, "", &DnsProvider::Cloudflare);

    // No TLS block when domain is empty
    assert!(config.tls_policies.is_none());

    // Host should be just the subdomain
    assert_eq!(config.routes[0].host, "app");
}

#[test]
fn config_tls_subjects_match_routes() {
    let routes = vec![make_gw("app1", "c1", 80), make_gw("app2", "c2", 8080)];
    let config = build_caddy_config(&routes, "example.com", &DnsProvider::Cloudflare);

    let policies = config.tls_policies.unwrap();
    let subjects = &policies[0].subjects;
    assert_eq!(subjects.len(), 2);
    assert_eq!(subjects[0], "app1.example.com");
    assert_eq!(subjects[1], "app2.example.com");
}

#[test]
fn config_tls_uses_dns_provider() {
    let routes = vec![make_gw("app", "c", 80)];
    let config = build_caddy_config(&routes, "example.com", &DnsProvider::Porkbun);

    let policies = config.tls_policies.unwrap();
    assert_eq!(get(&policies[0].dns_provider, "name"), Some("porkbun"));
}

#[test]
fn config_listen_ports() {
    let config = build_caddy_config(&vec![], "example.com", &DnsProvider::Cloudflare);
    assert!(config.listen.contains(&":443".to_string()));
    assert!(config.listen.contains(&":80".to_string()));
}

#[test]
fn config_multiple_routes() {
    let routes = vec![
        make_gw("app1", "c1", 80),
        make_gw("app2", "c2", 3000),
        make_gw("app3", "localhost", 8080),
    ];
    let config = build_caddy_config(&routes, "test.dev", &DnsProvider::Cloudflare);
    assert_eq!(config.routes.len(), 3);

    // Verify localhost rewrite on third route
    assert_eq!(config.routes[2].dial, "host.docker.internal:8080");
}

#[test]
fn config_empty_domain_empty_routes_no_tls() {
    let config = build_caddy_config(&vec![], "", &DnsProvider::Cloudflare);
    assert!(config.tls_policies.is_none());
    assert!(config.routes.is_empty());
}

#[test]
fn config_tls_acme_module() {
    let routes = vec![make_gw("app", "c", 80)];
    let config = build_caddy_config(&routes, "example.com", &DnsProvider::Cloudflare);
    let policies = config.tls_policies.unwrap();
    assert_eq!(policies[0].issuer_module, "acme");
}

#[test]
fn config_route_handler_is_reverse_proxy() {
    let routes = vec![make_gw("app", "c", 80)];
    let config = build_caddy_config(&routes, "example.com", &DnsProvider::Cloudflare);
    assert_eq!(config.routes[0].handler, "reverse_proxy");
}

#[test]
fn config_tls_empty_routes_no_policies() {
    let config = build_caddy_config(&vec![], "example.com", &DnsProvider::Cloudflare);
    let policies = config.tls_policies.unwrap();
    assert!(policies.is_empty());
}

#[test]
fn config_cloudflare_dns_challenge_structure() {
    let routes = vec![make_gw("app", "c", 80)];
    let config = build_caddy_config(&routes, "example.com", &DnsProvider::Cloudflare);
    let policies = config.tls_policies.unwrap();
    let provider = &policies[0].dns_provider;
    assert!(provider.get("name").is_some());
    assert_eq!(get(provider, "name"), Some("cloudflare"));
}

#[test]
fn config_porkbun_has_both_keys() {
    let routes = vec![make_gw("app", "c", 80)];
    let config = build_caddy_config(&routes, "example.com", &DnsProvider::Porkbun);
    let policies = config.tls_policies.unwrap();
    let provider = &policies[0].dns_provider;
    assert!(provider.get("api_key").is_some());
    assert!(provider.get("api_secret_key").is_some());
}

#[test]
fn config_tls_subjects_without_policy_fields_for_cloudflare() {
    let routes = vec![make_gw("app", "c", 80)];
    let config = build_caddy_config(&routes, "example.com", &DnsProvider::Cloudflare);
    let policies = config.tls_policies.unwrap();
    assert_eq!(policies.len(), 1);
    assert!(policies[0].dns_provider.get("api_key").is_none());
}

// --- certificate status (the probe itself is network I/O) ---

#[test]
fn cert_info_empty_domain() {
    let info = cert_info_from_probe("", true, 0, None);
    assert!(info.domain.is_none());
    assert!(info.error.is_none());
    assert!(info.has_env_vars);
}

#[test]
fn cert_info_no_routes() {
    let info = cert_info_from_probe("example.com", true, 0, None);
    assert_eq!(info.domain, Some("*.example.com".to_string()));
    assert!(info.error.is_some());
    assert!(info.error.unwrap().contains("No routes"));
}

#[test]
fn cert_info_has_env_vars_flag() {
    let info_true = cert_info_from_probe("example.com", true, 0, None);
    assert!(info_true.has_env_vars);

    let info_false = cert_info_from_probe("example.com", false, 0, None);
    assert!(!info_false.has_env_vars);
}

#[test]
fn cert_info_with_routes_but_no_caddy() {
    // Routes exist but no probed host served TLS.
    let info = cert_info_from_probe("example.com", true, 1, None);
    assert_eq!(info.domain, Some("*.example.com".to_string()));
    assert!(info.issuer.is_none());
    assert_eq!(
        info.error,
        Some("No valid certificates found yet. Certs may still be provisioning.".to_string())
    );
}

#[test]
fn cert_info_domain_format() {
    let info = cert_info_from_probe("myapp.dev", false, 0, None);
    assert_eq!(info.domain, Some("*.myapp.dev".to_string()));
}

#[test]
fn cert_info_serving_host_found() {
    let info = cert_info_from_probe("example.com", true, 3, Some("app2.example.com".to_string()));
    assert_eq!(info.issuer, Some("Let's Encrypt".to_string()));
    assert_eq!(info.subject_alt_names, Some("app2.example.com".to_string()));
    assert!(info.error.is_none());
}

#[test]
fn cert_info_multiple_routes_tries_all() {
    // Multiple routes; every one is probed, and none serves TLS here.
    let routes = vec![
        make_gw("app1", "c1", 80),
        make_gw("app2", "c2", 8080),
        make_gw("app3", "c3", 3000),
    ];
    let hosts = cert_probe_hosts(&routes, "example.com");
    assert_eq!(hosts.len(), 3);
    let info = cert_info_from_probe("example.com", true, routes.len(), None);
    assert!(info.error.is_some() || info.issuer.is_some());
}

#[test]
fn cert_probe_hosts_one_per_route() {
    let routes = vec![make_gw("app1", "c1", 80), make_gw("app2", "c2", 8080)];
    let hosts = cert_probe_hosts(&routes, "example.com");
    assert_eq!(hosts, vec!["app1.example.com".to_string(), "app2.example.com".to_string()]);
}

// --- pushing and status ---

#[test]
fn push_outcome_accepted_and_rejected() {
    assert_eq!(push_outcome(true, "ignored"), Ok(()));
    assert_eq!(
        push_outcome(false, "bad config"),
        Err("Caddy rejected config: bad config".to_string())
    );
}

#[test]
fn start_status_outcomes() {
    let s = start_status(Err("no network".to_string()), false);
    assert!(!s.running && !s.api_reachable);
    assert_eq!(s.error, Some("no network".to_string()));

    let s = start_status(Ok(()), true);
    assert!(s.running && s.api_reachable && s.error.is_none());

    let s = start_status(Ok(()), false);
    assert!(s.running && !s.api_reachable);
    assert_eq!(s.error, Some("Caddy started but API not yet reachable".to_string()));
}

#[test]
fn stop_status_outcomes() {
    let s = stop_status(Ok(()));
    assert!(!s.running && !s.api_reachable && s.error.is_none());
    let s = stop_status(Err("boom".to_string()));
    assert!(s.running && s.api_reachable);
    assert_eq!(s.error, Some("boom".to_string()));
}

#[test]
fn target_host_translation_is_idempotent() {
    for h in ["localhost", "127.0.0.1", "0.0.0.0", "host.docker.internal", "web", ""] {
        let once = resolve_target_host(h);
        assert_eq!(resolve_target_host(once), once);
    }
}

#[test]
fn health_poll_gives_up_after_ten_checks() {
    assert_eq!(HEALTH_CHECKS, 10);
    assert_eq!(health_step(0, true), HealthStep::Ready);
    assert_eq!(health_step(9, true), HealthStep::Ready);
    assert_eq!(health_step(0, false), HealthStep::Retry);
    assert_eq!(health_step(8, false), HealthStep::Retry);
    assert_eq!(health_step(9, false), HealthStep::GiveUp);
}
