use pulse_gateway::models::{
    copy_gateway, AppConfig, DnsProvider, Gateway, GatewaySource,
};

#[test]
fn app_config_defaults() {
    let config = AppConfig::default();
    assert_eq!(config.domain, "");
    assert_eq!(config.caddy_image, "caddy:2");
    assert_eq!(config.dns_provider, DnsProvider::Cloudflare);
    assert!(config.static_routes.is_empty());
    assert!(config.route_rules.is_empty());
    assert!(config.caddy_env_vars.is_empty());
}

#[test]
fn gateway_source_default() {
    assert_eq!(GatewaySource::default(), GatewaySource::Static);
}

#[test]
fn dns_provider_default() {
    assert_eq!(DnsProvider::default(), DnsProvider::Cloudflare);
}

#[test]
fn copy_gateway_keeps_every_field() {
    let g = Gateway {
        subdomain: "app".to_string(),
        target_host: "c".to_string(),
        port: 8080,
        source: GatewaySource::Auto,
        container_id: Some("id".to_string()),
        container_name: None,
    };
    let c = copy_gateway(&g);
    assert_eq!(c.subdomain, "app");
    assert_eq!(c.target_host, "c");
    assert_eq!(c.port, 8080);
    assert_eq!(c.source, GatewaySource::Auto);
    assert_eq!(c.container_id, Some("id".to_string()));
    assert_eq!(c.container_name, None);
}
