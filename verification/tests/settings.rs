use pulse_gateway::models::{AppConfig, DnsProvider, EnvVarEntry, GatewaySource, PortMapping};
use pulse_gateway::settings::{
    add_route, add_route_rule, env_pairs, env_var_status, register_env_var, remove_env_var, remove_route,
    remove_route_rule, resolve_env_vars, save_settings,
};
use pulse_gateway::string_map::StringMap;

#[test]
fn add_route_appends_static_route() {
    let mut c = AppConfig::default();
    assert_eq!(add_route(&mut c, "app".to_string(), "localhost".to_string(), 3000), Ok(()));
    assert_eq!(c.static_routes.len(), 1);
    assert_eq!(c.static_routes[0].subdomain, "app");
    assert_eq!(c.static_routes[0].source, GatewaySource::Static);
    assert!(c.static_routes[0].container_id.is_none());
}

#[test]
fn add_route_rejects_duplicate_subdomain() {
    let mut c = AppConfig::default();
    add_route(&mut c, "app".to_string(), "a".to_string(), 1).unwrap();
    let r = add_route(&mut c, "app".to_string(), "b".to_string(), 2);
    assert_eq!(r, Err("Route for subdomain 'app' already exists".to_string()));
    assert_eq!(c.static_routes.len(), 1);
    assert_eq!(c.static_routes[0].target_host, "a");
}

#[test]
fn remove_route_undoes_add() {
    let mut c = AppConfig::default();
    add_route(&mut c, "keep".to_string(), "a".to_string(), 1).unwrap();
    add_route(&mut c, "tmp".to_string(), "b".to_string(), 2).unwrap();
    remove_route(&mut c, "tmp");
    assert_eq!(c.static_routes.len(), 1);
    assert_eq!(c.static_routes[0].subdomain, "keep");
    remove_route(&mut c, "missing");
    assert_eq!(c.static_routes.len(), 1);
}

#[test]
fn route_rules_add_and_remove() {
    let mut c = AppConfig::default();
    let pm = vec![PortMapping { port: 5432, subdomain_template: "{name}-db".to_string() }];
    assert_eq!(add_route_rule(&mut c, "postgres*".to_string(), pm.clone()), Ok(()));
    assert_eq!(
        add_route_rule(&mut c, "postgres*".to_string(), pm),
        Err("Route rule for image 'postgres*' already exists".to_string())
    );
    assert_eq!(c.route_rules.len(), 1);
    assert_eq!(c.route_rules[0].port_mappings[0].port, 5432);
    remove_route_rule(&mut c, "postgres*");
    assert!(c.route_rules.is_empty());
}

#[test]
fn env_vars_register_once_and_remove() {
    let mut c = AppConfig::default();
    assert!(register_env_var(&mut c, "TOKEN"));
    assert!(!register_env_var(&mut c, "TOKEN"));
    assert!(register_env_var(&mut c, "OTHER"));
    assert_eq!(c.caddy_env_vars.len(), 2);
    remove_env_var(&mut c, "TOKEN");
    assert_eq!(c.caddy_env_vars.len(), 1);
    assert_eq!(c.caddy_env_vars[0].key, "OTHER");
}

#[test]
fn settings_saved() {
    let mut c = AppConfig::default();
    save_settings(&mut c, "example.com".to_string(), "custom:1".to_string(), DnsProvider::Porkbun);
    assert_eq!(c.domain, "example.com");
    assert_eq!(c.caddy_image, "custom:1");
    assert_eq!(c.dns_provider, DnsProvider::Porkbun);
}

#[test]
fn env_values_from_fallback_store() {
    let mut c = AppConfig::default();
    register_env_var(&mut c, "IN_FILE_ONLY_A");
    register_env_var(&mut c, "IN_FILE_ONLY_B");
    let mut fallback = StringMap::new();
    fallback.insert("IN_FILE_ONLY_A".to_string(), "1".to_string());
    let status = env_var_status(&c, &fallback);
    assert_eq!(status.len(), 2);
    assert_eq!(status[0], ("IN_FILE_ONLY_A".to_string(), true));
    assert_eq!(status[1].0, "IN_FILE_ONLY_B");
    let resolved = resolve_env_vars(&c, &fallback);
    assert!(resolved.contains(&("IN_FILE_ONLY_A".to_string(), "1".to_string())));
}

#[test]
fn env_pairs_take_keyring_then_fallback_and_drop_missing() {
    let keys = vec![
        EnvVarEntry { key: "A".to_string() },
        EnvVarEntry { key: "B".to_string() },
        EnvVarEntry { key: "C".to_string() },
    ];
    let mut fallback = StringMap::new();
    fallback.insert("B".to_string(), "file".to_string());
    fallback.insert("A".to_string(), "stale".to_string());
    let pairs = env_pairs(&keys, vec![Some("ring".to_string()), None, None], &fallback);
    assert_eq!(
        pairs,
        vec![("A".to_string(), "ring".to_string()), ("B".to_string(), "file".to_string())]
    );
}
