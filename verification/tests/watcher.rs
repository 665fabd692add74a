use pulse_gateway::clock::{chrono_now, format_clock, short_id, uuid_short};
use pulse_gateway::docker::{ContainerInfo, CADDY_CONTAINER_NAME};
use pulse_gateway::models::{Gateway, GatewaySource, LogEntry, PortMapping, StaticRouteRule};
use pulse_gateway::routing::{
    build_auto_routes, combine_routes, first_free_name, image_matches, parse_u16,
    resolve_collision, resolve_ports, sanitize_lowercased, sanitize_subdomain, should_skip,
    subdomain_bases,
};
use pulse_gateway::string_map::StringMap;
use pulse_gateway::watcher::{
    append_log, apply_start, classify_event, new_log_entry, plan_container_start,
    remove_container_routes,
    ContainerEvent, StartPlan, MAX_LOG_ENTRIES,
};

fn make_info(name: &str, image: &str, ports: Vec<u16>) -> ContainerInfo {
    ContainerInfo {
        id: format!("{name}-id"),
        name: name.to_string(),
        image: image.to_string(),
        labels: StringMap::new(),
        ports,
        on_network: true,
    }
}

fn make_info_with_labels(name: &str, labels: StringMap, ports: Vec<u16>) -> ContainerInfo {
    ContainerInfo {
        id: format!("{name}-id"),
        name: name.to_string(),
        image: "some-image:latest".to_string(),
        labels,
        ports,
        on_network: true,
    }
}

fn labels(pairs: &[(&str, &str)]) -> StringMap {
    let mut m = StringMap::new();
    for (k, v) in pairs {
        m.insert(k.to_string(), v.to_string());
    }
    m
}

fn make_gateway(subdomain: &str) -> Gateway {
    Gateway {
        subdomain: subdomain.to_string(),
        target_host: "test".to_string(),
        port: 80,
        source: GatewaySource::Auto,
        container_id: None,
        container_name: None,
    }
}

fn owned_by(subdomain: &str, id: &str, name: Option<&str>) -> Gateway {
    Gateway {
        subdomain: subdomain.to_string(),
        target_host: "test".to_string(),
        port: 80,
        source: GatewaySource::Auto,
        container_id: Some(id.to_string()),
        container_name: name.map(|n| n.to_string()),
    }
}

fn rule(pattern: &str, mappings: &[(u16, &str)]) -> StaticRouteRule {
    StaticRouteRule {
        image_pattern: pattern.to_string(),
        port_mappings: mappings
            .iter()
            .map(|(p, t)| PortMapping { port: *p, subdomain_template: t.to_string() })
            .collect(),
    }
}

// --- sanitize_subdomain ---

#[test]
fn sanitize_lowercase() {
    assert_eq!(sanitize_subdomain("MyApp"), "myapp");
}

#[test]
fn sanitize_underscores() {
    assert_eq!(sanitize_subdomain("affectionate_ride"), "affectionate-ride");
}

#[test]
fn sanitize_dots() {
    assert_eq!(sanitize_subdomain("my.app.name"), "my-app-name");
}

#[test]
fn sanitize_invalid_chars() {
    assert_eq!(sanitize_subdomain("app@name!v2"), "appnamev2");
}

#[test]
fn sanitize_consecutive_hyphens() {
    assert_eq!(sanitize_subdomain("a__b"), "a-b");
    assert_eq!(sanitize_subdomain("a---b"), "a-b");
}

#[test]
fn sanitize_leading_trailing_hyphens() {
    assert_eq!(sanitize_subdomain("_app_"), "app");
    assert_eq!(sanitize_subdomain("-app-"), "app");
}

#[test]
fn sanitize_mixed() {
    assert_eq!(sanitize_subdomain("My_Cool.App@v2"), "my-cool-appv2");
}

#[test]
fn sanitize_already_valid() {
    assert_eq!(sanitize_subdomain("my-app"), "my-app");
}

#[test]
fn sanitize_empty() {
    assert_eq!(sanitize_subdomain(""), "");
}

#[test]
fn sanitize_numbers_only() {
    assert_eq!(sanitize_subdomain("12345"), "12345");
}

#[test]
fn sanitize_unicode_stripped() {
    assert_eq!(sanitize_subdomain("café"), "caf");
}

#[test]
fn sanitize_all_invalid_chars() {
    assert_eq!(sanitize_subdomain("!@#$%^&*()"), "");
}

#[test]
fn sanitize_mixed_valid_invalid() {
    assert_eq!(sanitize_subdomain("a!b@c#d"), "abcd");
}

#[test]
fn sanitize_lowercased_keeps_case_of_its_input() {
    // Lower-casing happens before; this step keeps letters as they come.
    assert_eq!(sanitize_lowercased("A__B."), "A-B");
}

#[test]
fn sanitize_is_idempotent_on_examples() {
    for name in ["My_Cool.App@v2", "--a--b--", "x.y_z", "café"] {
        let once = sanitize_subdomain(name);
        assert_eq!(sanitize_subdomain(&once), once);
    }
}

#[test]
fn sanitize_output_is_a_valid_label() {
    for name in ["My_Cool.App@v2", "__--__", "a..b", "Ünïcødé-Name_1"] {
        let s = sanitize_subdomain(name);
        assert!(s.chars().all(|c| c.is_ascii_lowercase() || c.is_ascii_digit() || c == '-'));
        assert!(!s.starts_with('-') && !s.ends_with('-'));
        assert!(!s.contains("--"));
    }
}

// --- image_matches ---

#[test]
fn image_exact_match() {
    assert!(image_matches("nginx:latest", "nginx:latest"));
}

#[test]
fn image_exact_no_match() {
    assert!(!image_matches("nginx:latest", "caddy:2"));
}

#[test]
fn image_wildcard_match() {
    assert!(image_matches("nginx:latest", "nginx*"));
    assert!(image_matches("nginx:1.25", "nginx:*"));
}

#[test]
fn image_wildcard_no_match() {
    assert!(!image_matches("caddy:2", "nginx*"));
}

#[test]
fn image_matches_exact_with_tag() {
    assert!(image_matches("nginx:1.25-alpine", "nginx:1.25-alpine"));
    assert!(!image_matches("nginx:1.25-alpine", "nginx:1.25"));
}

#[test]
fn image_lone_star_matches_everything() {
    assert!(image_matches("anything:1", "*"));
    assert!(image_matches("", "*"));
}

// --- parse_u16 ---

#[test]
fn parse_u16_like_from_str() {
    assert_eq!(parse_u16("3000"), Some(3000));
    assert_eq!(parse_u16("+80"), Some(80));
    assert_eq!(parse_u16("0065535"), Some(65535));
    assert_eq!(parse_u16("65536"), None);
    assert_eq!(parse_u16(""), None);
    assert_eq!(parse_u16("+"), None);
    assert_eq!(parse_u16("-1"), None);
    assert_eq!(parse_u16("80a"), None);
    assert_eq!(parse_u16("99999999999999999999"), None);
    for s in ["3000", "+80", "0065535", "65536", "", "+", "-1", "80a", " 1"] {
        assert_eq!(parse_u16(s), s.parse::<u16>().ok());
    }
}

// --- resolve_collision ---

#[test]
fn collision_no_conflict() {
    let result = resolve_collision("myapp", &vec![], &vec![], &vec![]);
    assert_eq!(result, "myapp");
}

#[test]
fn collision_with_existing_auto() {
    let existing = vec![make_gateway("myapp")];
    let result = resolve_collision("myapp", &existing, &vec![], &vec![]);
    assert_eq!(result, "myapp-2");
}

#[test]
fn collision_with_static() {
    let statics = vec![make_gateway("myapp")];
    let result = resolve_collision("myapp", &vec![], &statics, &vec![]);
    assert_eq!(result, "myapp-2");
}

#[test]
fn collision_with_pending() {
    let pending = vec![make_gateway("myapp")];
    let result = resolve_collision("myapp", &vec![], &vec![], &pending);
    assert_eq!(result, "myapp-2");
}

#[test]
fn collision_increments() {
    let existing = vec![make_gateway("myapp"), make_gateway("myapp-2")];
    let result = resolve_collision("myapp", &existing, &vec![], &vec![]);
    assert_eq!(result, "myapp-3");
}

#[test]
fn collision_across_all_lists() {
    let auto = vec![make_gateway("app")];
    let statics = vec![make_gateway("app-2")];
    let pending = vec![make_gateway("app-3")];
    let result = resolve_collision("app", &auto, &statics, &pending);
    assert_eq!(result, "app-4");
}

#[test]
fn collision_all_numbers_taken_falls_back_to_hex() {
    let mut taken = vec![make_gateway("svc")];
    for k in 2..=100 {
        taken.push(make_gateway(&format!("svc-{k}")));
    }
    assert_eq!(first_free_name("svc", &taken, &vec![], &vec![]), None);
    let result = resolve_collision("svc", &taken, &vec![], &vec![]);
    let suffix = result.strip_prefix("svc-").unwrap();
    assert!(!suffix.is_empty() && suffix.len() <= 4);
    assert!(suffix.chars().all(|c| c.is_ascii_hexdigit() && !c.is_ascii_uppercase()));
}

#[test]
fn collision_hundred_is_last_numbered() {
    let mut taken = vec![make_gateway("svc")];
    for k in 2..100 {
        taken.push(make_gateway(&format!("svc-{k}")));
    }
    assert_eq!(first_free_name("svc", &taken, &vec![], &vec![]), Some("svc-100".to_string()));
}

// --- should_skip ---

#[test]
fn skip_caddy_container() {
    let info = make_info(CADDY_CONTAINER_NAME, "caddy:2", vec![]);
    assert!(should_skip(&info));
}

#[test]
fn skip_opted_out() {
    let info = make_info_with_labels("myapp", labels(&[("pulse.proxy", "false")]), vec![80]);
    assert!(should_skip(&info));
}

#[test]
fn no_skip_normal_container() {
    let info = make_info("myapp", "nginx:latest", vec![80]);
    assert!(!should_skip(&info));
}

#[test]
fn no_skip_proxy_true() {
    let info = make_info_with_labels("myapp", labels(&[("pulse.proxy", "true")]), vec![80]);
    assert!(!should_skip(&info));
}

// --- resolve_ports ---

#[test]
fn ports_from_label() {
    let info = make_info_with_labels("myapp", labels(&[("pulse.port", "3000")]), vec![80, 443]);
    let ports = resolve_ports(&info, &vec![]);
    assert_eq!(ports, vec![(3000, None)]);
}

#[test]
fn ports_from_label_with_subdomain() {
    let info = make_info_with_labels(
        "myapp",
        labels(&[("pulse.port", "3000"), ("pulse.subdomain", "api")]),
        vec![80],
    );
    let ports = resolve_ports(&info, &vec![]);
    assert_eq!(ports, vec![(3000, Some("api".to_string()))]);
}

#[test]
fn ports_from_route_rule() {
    let info = make_info("myapp", "postgres:15", vec![5432]);
    let rules = vec![rule("postgres*", &[(5432, "{name}-db")])];
    let ports = resolve_ports(&info, &rules);
    assert_eq!(ports, vec![(5432, Some("{name}-db".to_string()))]);
}

#[test]
fn ports_from_expose() {
    let info = make_info("myapp", "custom:latest", vec![8080, 9090]);
    let ports = resolve_ports(&info, &vec![]);
    assert_eq!(ports, vec![(8080, None), (9090, None)]);
}

#[test]
fn ports_empty() {
    let info = make_info("myapp", "custom:latest", vec![]);
    let ports = resolve_ports(&info, &vec![]);
    assert!(ports.is_empty());
}

#[test]
fn ports_invalid_label_falls_through() {
    let info = make_info_with_labels("myapp", labels(&[("pulse.port", "not-a-number")]), vec![8080]);
    let ports = resolve_ports(&info, &vec![]);
    // Falls through to EXPOSE ports
    assert_eq!(ports, vec![(8080, None)]);
}

#[test]
fn ports_first_matching_rule_wins() {
    let info = make_info("myapp", "redis:7", vec![]);
    let rules = vec![
        rule("nginx*", &[(80, "{name}-web")]),
        rule("redis*", &[(6379, "{name}-cache")]),
        rule("redis:7", &[(1, "{name}-other")]),
    ];
    let ports = resolve_ports(&info, &rules);
    assert_eq!(ports, vec![(6379, Some("{name}-cache".to_string()))]);
}

// --- build_auto_routes ---

#[test]
fn auto_routes_single_port() {
    let info = make_info("myapp", "nginx:latest", vec![80]);
    let routes = build_auto_routes(&info, &vec![], &vec![], &vec![]);
    assert_eq!(routes.len(), 1);
    assert_eq!(routes[0].subdomain, "myapp");
    assert_eq!(routes[0].port, 80);
    assert_eq!(routes[0].source, GatewaySource::Auto);
}

#[test]
fn auto_routes_multi_port() {
    let info = make_info("myapp", "nginx:latest", vec![80, 443]);
    let routes = build_auto_routes(&info, &vec![], &vec![], &vec![]);
    assert_eq!(routes.len(), 2);
    assert_eq!(routes[0].subdomain, "myapp-80");
    assert_eq!(routes[1].subdomain, "myapp-443");
}

#[test]
fn auto_routes_no_ports() {
    let info = make_info("myapp", "nginx:latest", vec![]);
    let routes = build_auto_routes(&info, &vec![], &vec![], &vec![]);
    assert!(routes.is_empty());
}

#[test]
fn auto_routes_sanitizes_name() {
    let info = make_info("my_ugly_name", "nginx:latest", vec![80]);
    let routes = build_auto_routes(&info, &vec![], &vec![], &vec![]);
    assert_eq!(routes[0].subdomain, "my-ugly-name");
}

#[test]
fn auto_routes_collision_with_static() {
    let info = make_info("myapp", "nginx:latest", vec![80]);
    let statics = vec![make_gateway("myapp")];
    let routes = build_auto_routes(&info, &vec![], &vec![], &statics);
    assert_eq!(routes[0].subdomain, "myapp-2");
}

#[test]
fn auto_routes_with_subdomain_template() {
    let info = make_info("myapp", "postgres:15", vec![5432]);
    let rules = vec![rule("postgres*", &[(5432, "{name}-db")])];
    let routes = build_auto_routes(&info, &rules, &vec![], &vec![]);
    assert_eq!(routes.len(), 1);
    assert_eq!(routes[0].subdomain, "myapp-db");
    assert_eq!(routes[0].port, 5432);
}

#[test]
fn auto_routes_container_id_set() {
    let info = make_info("myapp", "nginx:latest", vec![80]);
    let routes = build_auto_routes(&info, &vec![], &vec![], &vec![]);
    assert_eq!(routes[0].container_id, Some("myapp-id".to_string()));
    assert_eq!(routes[0].container_name, Some("myapp".to_string()));
}

#[test]
fn auto_routes_target_host_is_container_name() {
    let info = make_info("my-container", "nginx:latest", vec![80]);
    let routes = build_auto_routes(&info, &vec![], &vec![], &vec![]);
    assert_eq!(routes[0].target_host, "my-container");
}

#[test]
fn auto_routes_label_overrides_expose() {
    let info = make_info_with_labels("myapp", labels(&[("pulse.port", "9090")]), vec![80, 443]);
    let routes = build_auto_routes(&info, &vec![], &vec![], &vec![]);
    assert_eq!(routes.len(), 1);
    assert_eq!(routes[0].port, 9090);
    assert_eq!(routes[0].subdomain, "myapp");
}

#[test]
fn auto_routes_label_subdomain_override() {
    let info = make_info_with_labels(
        "some-container",
        labels(&[("pulse.port", "3000"), ("pulse.subdomain", "api")]),
        vec![80],
    );
    let routes = build_auto_routes(&info, &vec![], &vec![], &vec![]);
    assert_eq!(routes.len(), 1);
    assert_eq!(routes[0].subdomain, "api");
    assert_eq!(routes[0].port, 3000);
}

#[test]
fn route_rule_takes_precedence_over_expose() {
    let info = make_info("myapp", "redis:7", vec![6379, 8080]);
    let rules = vec![rule("redis*", &[(6379, "{name}-cache")])];
    let routes = build_auto_routes(&info, &rules, &vec![], &vec![]);
    // Should use the rule, not the EXPOSE ports
    assert_eq!(routes.len(), 1);
    assert_eq!(routes[0].port, 6379);
    assert_eq!(routes[0].subdomain, "myapp-cache");
}

#[test]
fn auto_routes_multi_port_with_rules() {
    let info = make_info("myapp", "custom:latest", vec![]);
    let rules = vec![rule("custom*", &[(80, "{name}-web"), (8080, "{name}-api")])];
    let routes = build_auto_routes(&info, &rules, &vec![], &vec![]);
    assert_eq!(routes.len(), 2);
    assert_eq!(routes[0].subdomain, "myapp-web");
    assert_eq!(routes[0].port, 80);
    assert_eq!(routes[1].subdomain, "myapp-api");
    assert_eq!(routes[1].port, 8080);
}

#[test]
fn auto_routes_same_template_collides_with_earlier_route() {
    let info = make_info("myapp", "custom:latest", vec![]);
    let rules = vec![rule("custom*", &[(80, "{name}"), (81, "{name}")])];
    let routes = build_auto_routes(&info, &rules, &vec![], &vec![]);
    assert_eq!(routes[0].subdomain, "myapp");
    assert_eq!(routes[1].subdomain, "myapp-2");
}

// --- combine_routes ---

#[test]
fn combine_empty() {
    let result = combine_routes(&vec![], &vec![]);
    assert!(result.is_empty());
}

#[test]
fn combine_static_and_auto() {
    let statics = vec![make_gateway("static-route")];
    let autos = vec![make_gateway("auto-route")];
    let result = combine_routes(&statics, &autos);
    assert_eq!(result.len(), 2);
    assert_eq!(result[0].subdomain, "static-route");
    assert_eq!(result[1].subdomain, "auto-route");
}

#[test]
fn combine_preserves_order() {
    let s1 = make_gateway("s1");
    let s2 = make_gateway("s2");
    let a1 = make_gateway("a1");
    let result = combine_routes(&vec![s1, s2], &vec![a1]);
    assert_eq!(result[0].subdomain, "s1");
    assert_eq!(result[1].subdomain, "s2");
    assert_eq!(result[2].subdomain, "a1");
}

#[test]
fn combine_only_static() {
    let statics = vec![make_gateway("s1"), make_gateway("s2")];
    let result = combine_routes(&statics, &vec![]);
    assert_eq!(result.len(), 2);
}

#[test]
fn combine_only_auto() {
    let autos = vec![make_gateway("a1")];
    let result = combine_routes(&vec![], &autos);
    assert_eq!(result.len(), 1);
}

// --- clock ---

#[test]
fn chrono_now_format() {
    let t = chrono_now();
    assert_eq!(t.len(), 8); // HH:MM:SS
    assert_eq!(&t[2..3], ":");
    assert_eq!(&t[5..6], ":");
}

#[test]
fn format_clock_values() {
    assert_eq!(format_clock(0), "00:00:00");
    assert_eq!(format_clock(45296), "12:34:56");
    assert_eq!(format_clock(86399 + 86400 * 3), "23:59:59");
}

#[test]
fn uuid_short_is_hex() {
    let u = uuid_short();
    assert!(!u.is_empty());
    assert!(u.chars().all(|c| c.is_ascii_hexdigit()));
}

// --- event log ---

#[test]
fn max_log_entries_constant() {
    assert_eq!(MAX_LOG_ENTRIES, 200);
}

#[test]
fn log_keeps_newest_entries() {
    let mut log: Vec<LogEntry> = Vec::new();
    for i in 0..205 {
        append_log(
            &mut log,
            LogEntry { timestamp: "t".to_string(), level: "info".to_string(), message: i.to_string() },
        );
    }
    assert_eq!(log.len(), 200);
    assert_eq!(log[0].message, "5");
    assert_eq!(log[199].message, "204");
}

#[test]
fn new_log_entry_fields() {
    let e = new_log_entry("warn", "hello");
    assert_eq!(e.level, "warn");
    assert_eq!(e.message, "hello");
    assert_eq!(e.timestamp.len(), 8);
}

// --- events ---

#[test]
fn classify_events() {
    assert_eq!(classify_event(Some("start"), Some("abc")), ContainerEvent::Start("abc".to_string()));
    assert_eq!(
        classify_event(Some("die"), Some("abc")),
        ContainerEvent::Stop("abc".to_string(), "die".to_string())
    );
    assert_eq!(
        classify_event(Some("stop"), Some("abc")),
        ContainerEvent::Stop("abc".to_string(), "stop".to_string())
    );
    assert_eq!(classify_event(Some("start"), None), ContainerEvent::Ignore);
    assert_eq!(classify_event(Some("start"), Some("")), ContainerEvent::Ignore);
    assert_eq!(classify_event(Some("pause"), Some("abc")), ContainerEvent::Ignore);
    assert_eq!(classify_event(None, Some("abc")), ContainerEvent::Ignore);
}

#[test]
fn plan_for_started_containers() {
    let caddy = make_info(CADDY_CONTAINER_NAME, "caddy:2", vec![443]);
    assert!(matches!(plan_container_start(&caddy, &vec![], &vec![], &vec![]), StartPlan::RepushRoutes));

    let opted_out = make_info_with_labels("x", labels(&[("pulse.proxy", "false")]), vec![80]);
    assert!(matches!(plan_container_start(&opted_out, &vec![], &vec![], &vec![]), StartPlan::Skip));

    let mut off_network = make_info("web", "nginx:latest", vec![80]);
    off_network.on_network = false;
    match plan_container_start(&off_network, &vec![], &vec![], &vec![]) {
        StartPlan::Route { attach, routes, renamed } => {
            assert!(attach);
            assert_eq!(routes.len(), 1);
            assert_eq!(routes[0].subdomain, "web");
            assert_eq!(renamed, vec![false]);
        }
        other => panic!("unexpected plan {other:?}"),
    }

    let no_ports = make_info("quiet", "busybox", vec![]);
    match plan_container_start(&no_ports, &vec![], &vec![], &vec![]) {
        StartPlan::Route { attach, routes, renamed } => {
            assert!(!attach);
            assert!(routes.is_empty());
            assert!(renamed.is_empty());
        }
        other => panic!("unexpected plan {other:?}"),
    }
}

#[test]
fn stop_removes_only_that_containers_routes() {
    let mut gateways = vec![
        owned_by("a", "c1", Some("alpha")),
        owned_by("b", "c2", Some("beta")),
        owned_by("c", "c1", None),
        make_gateway("static"),
    ];
    let notes = remove_container_routes(&mut gateways, "c1");
    assert_eq!(notes, vec!["a (alpha)".to_string(), "c (unknown)".to_string()]);
    let left: Vec<&str> = gateways.iter().map(|g| g.subdomain.as_str()).collect();
    assert_eq!(left, vec!["b", "static"]);

    let notes = remove_container_routes(&mut gateways, "c9");
    assert!(notes.is_empty());
    assert_eq!(gateways.len(), 2);
}

#[test]
fn parse_reads_back_rendered_ports() {
    for p in [0u16, 7, 80, 443, 8080, 65535] {
        assert_eq!(parse_u16(&p.to_string()), Some(p));
    }
}

#[test]
fn plan_reports_renamed_routes() {
    let info = make_info("My_App", "myimage", vec![80, 8080]);
    let existing = vec![make_gateway("my-app-80")];
    assert_eq!(
        subdomain_bases(&info, &vec![]),
        vec!["my-app-80".to_string(), "my-app-8080".to_string()]
    );
    match plan_container_start(&info, &vec![], &existing, &vec![]) {
        StartPlan::Route { routes, renamed, .. } => {
            assert_eq!(routes[0].subdomain, "my-app-80-2");
            assert_eq!(routes[1].subdomain, "my-app-8080");
            assert_eq!(renamed, vec![true, false]);
        }
        other => panic!("unexpected plan {other:?}"),
    }
}

#[test]
fn apply_start_appends_and_tells_when_to_push() {
    let mut auto = vec![make_gateway("a")];
    assert!(apply_start(&mut auto, vec![make_gateway("b"), make_gateway("c")]));
    let names: Vec<&str> = auto.iter().map(|g| g.subdomain.as_str()).collect();
    assert_eq!(names, vec!["a", "b", "c"]);
    assert!(!apply_start(&mut auto, vec![]));
    assert_eq!(auto.len(), 3);
}

#[test]
fn short_id_keeps_low_sixteen_bits() {
    assert_eq!(short_id(0x12345), "2345");
    assert_eq!(short_id(0xFFFF), "ffff");
    assert_eq!(short_id(0x10000), "0");
    assert_eq!(short_id(0xABC), "abc");
}

#[test]
fn sanitize_non_ascii_name_is_lowercase_label_and_stable() {
    let r = sanitize_subdomain("Ärger_APP.Ünit");
    assert_eq!(r, "rger-app-nit");
    assert_eq!(sanitize_subdomain(&r), r);
    let k = sanitize_subdomain("\u{212A}ELVIN");
    assert_eq!(k, "kelvin");
    assert_eq!(sanitize_subdomain(&k), k);
}
