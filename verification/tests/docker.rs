use pulse_gateway::docker::{
    attached_to_network, caddy_container_spec, caddy_env, container_name, docker_err,
    exposed_ports, needs_recreate, network_exists, plan_caddy, recreate_after_inspect,
    running_ids, CaddyAction, CADDY_ADMIN_ENV, CADDY_CONTAINER_NAME, NETWORK_NAME,
};

#[test]
fn docker_names() {
    assert_eq!(NETWORK_NAME, "pulse-gateway");
    assert_eq!(CADDY_CONTAINER_NAME, "pulse-caddy");
}

#[test]
fn docker_err_not_running_hint() {
    let hint = "Docker does not appear to be running. Please start Docker Desktop and try again.";
    assert_eq!(docker_err("Failed to list networks", "error trying to connect: client error (Connect)"), hint);
    assert_eq!(docker_err("x", "No such file or directory (os error 2)"), hint);
    assert_eq!(docker_err("x", "tcp connect: connection refused"), hint);
    assert_eq!(
        docker_err("Failed to start Caddy", "conflict"),
        "Failed to start Caddy: conflict"
    );
}

#[test]
fn network_lookup() {
    assert!(network_exists(&vec![Some("bridge".to_string()), Some("pulse-gateway".to_string())]));
    assert!(!network_exists(&vec![None, Some("host".to_string())]));
    assert!(!network_exists(&vec![]));
}

#[test]
fn caddy_env_starts_with_admin() {
    let env = caddy_env(&vec![("A".to_string(), "1".to_string()), ("B".to_string(), "x=y".to_string())]);
    assert_eq!(env, vec![CADDY_ADMIN_ENV.to_string(), "A=1".to_string(), "B=x=y".to_string()]);
}

#[test]
fn recreate_decisions() {
    let vars = vec![("TOKEN".to_string(), "abc".to_string())];
    let env = caddy_env(&vars);
    assert!(!needs_recreate("caddy:2", &env, "caddy:2", &vars));
    assert!(needs_recreate("caddy:1", &env, "caddy:2", &vars));
    assert!(needs_recreate("caddy:2", &vec!["TOKEN=abc".to_string()], "caddy:2", &vars));
    let changed = vec![("TOKEN".to_string(), "new".to_string())];
    assert!(needs_recreate("caddy:2", &env, "caddy:2", &changed));
}

#[test]
fn caddy_plans() {
    assert_eq!(plan_caddy(None, true), CaddyAction::Create);
    assert_eq!(plan_caddy(Some("running"), true), CaddyAction::Recreate);
    assert_eq!(plan_caddy(Some("exited"), false), CaddyAction::Start);
    assert_eq!(plan_caddy(Some(""), false), CaddyAction::Start);
    assert_eq!(plan_caddy(Some("running"), false), CaddyAction::Keep);
}

#[test]
fn container_names_lose_leading_slashes() {
    assert_eq!(container_name("/web"), "web");
    assert_eq!(container_name("//web/x"), "web/x");
    assert_eq!(container_name("web"), "web");
    assert_eq!(container_name(""), "");
}

#[test]
fn exposed_port_keys() {
    let keys = vec![
        "8080/tcp".to_string(),
        "53/udp".to_string(),
        "bad/tcp".to_string(),
        "9000".to_string(),
        "70000/tcp".to_string(),
    ];
    assert_eq!(exposed_ports(&keys), vec![8080, 53, 9000]);
}

#[test]
fn ids_of_listed_containers() {
    let ids = vec![Some("a".to_string()), None, Some("b".to_string())];
    assert_eq!(running_ids(ids), vec!["a".to_string(), "b".to_string()]);
}

#[test]
fn failed_inspection_means_recreate() {
    let expected = vec![("K".to_string(), "v".to_string())];
    assert!(recreate_after_inspect(None, "caddy:2", &expected));
    let current = vec![CADDY_ADMIN_ENV.to_string(), "K=v".to_string()];
    assert!(!recreate_after_inspect(Some(("caddy:2".to_string(), current.clone())), "caddy:2", &expected));
    assert!(recreate_after_inspect(Some(("caddy:3".to_string(), current)), "caddy:2", &expected));
}

#[test]
fn network_membership_by_name() {
    assert!(attached_to_network(&vec!["bridge".to_string(), "pulse-gateway".to_string()]));
    assert!(!attached_to_network(&vec!["bridge".to_string()]));
    assert!(!attached_to_network(&vec![]));
}

#[test]
fn caddy_container_is_specified() {
    let spec = caddy_container_spec("caddy:2", &vec![("K".to_string(), "v".to_string())]);
    assert_eq!(spec.name, "pulse-caddy");
    assert_eq!(spec.image, "caddy:2");
    assert_eq!(spec.env, vec![CADDY_ADMIN_ENV.to_string(), "K=v".to_string()]);
    assert_eq!(spec.network_mode, "pulse-gateway");
    assert_eq!(spec.restart_policy, "unless-stopped");
    let vols: Vec<(&str, &str)> =
        spec.volumes.iter().map(|v| (v.source.as_str(), v.target.as_str())).collect();
    assert_eq!(vols, vec![("pulse-caddy-config", "/config"), ("pulse-caddy-data", "/data")]);
    let ports: Vec<(&str, &str, &str)> = spec
        .port_bindings
        .iter()
        .map(|b| (b.container_port.as_str(), b.host_ip.as_str(), b.host_port.as_str()))
        .collect();
    assert_eq!(
        ports,
        vec![
            ("443/tcp", "0.0.0.0", "443"),
            ("80/tcp", "0.0.0.0", "80"),
            ("2019/tcp", "127.0.0.1", "2019"),
        ]
    );
}
