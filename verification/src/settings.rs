//! Edits of the gateway's settings: static routes, route rules, the
//! environment variables handed to Caddy, and the general settings.
use vstd::prelude::*;

use crate::models::{
    copy_env_var_entry, copy_gateway, copy_route_rule, AppConfig, AppConfigView, DnsProvider,
    EnvVarEntry, Gateway, GatewaySource, GatewayView, PortMapping, StaticRouteRule,
    StaticRouteRuleView,
};
use crate::credentials::{keyring_value, value_from, value_from_spec, value_of, KeyringReading};
use crate::string_map::StringMap;
use crate::text::{concat3, str_eq};

verus! {

/// The elements of `s` that satisfy `keep`, in order.
pub open spec fn keep_where<A>(s: Seq<A>, keep: spec_fn(A) -> bool) -> Seq<A>
    decreases s.len(),
{
    if s.len() == 0 {
        Seq::empty()
    } else {
        let r = keep_where(s.drop_last(), keep);
        if keep(s.last()) {
            r.push(s.last())
        } else {
            r
        }
    }
}

/// `c` with other static routes.
pub open spec fn with_static_routes(c: AppConfigView, routes: Seq<GatewayView>) -> AppConfigView {
    AppConfigView { static_routes: routes, ..c }
}

/// `c` with other route rules.
pub open spec fn with_route_rules(c: AppConfigView, rules: Seq<StaticRouteRuleView>) -> AppConfigView {
    AppConfigView { route_rules: rules, ..c }
}

/// `c` with other environment variable keys.
pub open spec fn with_env_vars(c: AppConfigView, keys: Seq<Seq<char>>) -> AppConfigView {
    AppConfigView { caddy_env_vars: keys, ..c }
}

/// `c` with another domain, Caddy image and DNS provider.
pub open spec fn with_settings(
    c: AppConfigView,
    domain: Seq<char>,
    caddy_image: Seq<char>,
    dns_provider: DnsProvider,
) -> AppConfigView {
    AppConfigView { domain, caddy_image, dns_provider, ..c }
}

// ---------------------------------------------------------------------------
// Static routes
// ---------------------------------------------------------------------------

/// Some route of `routes` has the subdomain `sub`.
pub open spec fn has_subdomain(routes: Seq<GatewayView>, sub: Seq<char>) -> bool {
    exists|i: int| 0 <= i < routes.len() && #[trigger] routes[i].subdomain == sub
}

/// The static route that `add_route` makes.
pub open spec fn static_route(sub: Seq<char>, target: Seq<char>, port: u16) -> GatewayView {
    GatewayView {
        subdomain: sub,
        target_host: target,
        port,
        source: GatewaySource::Static,
        container_id: None,
        container_name: None,
    }
}

/// Whether some route of `routes` has the subdomain `sub`.
fn routes_have_subdomain(routes: &Vec<Gateway>, sub: &str) -> (r: bool)
    ensures
        r == has_subdomain(routes.deep_view(), sub@),
{
    let ghost rv = routes.deep_view();
    let mut i: usize = 0;
    while i < routes.len()
        invariant
            i <= routes.len(),
            rv == routes.deep_view(),
            forall|j: int| 0 <= j < i ==> #[trigger] rv[j].subdomain != sub@,
        decreases routes.len() - i,
    {
        if str_eq(routes[i].subdomain.as_str(), sub) {
            assert(rv[i as int].subdomain == sub@);
            return true;
        }
        i = i + 1;
    }
    false
}

/// Adds a static route, unless a static route already has its subdomain.
pub fn add_route(config: &mut AppConfig, subdomain: String, target_host: String, port: u16) -> (r: Result<(), String>)
    ensures
        has_subdomain(old(config).static_routes.deep_view(), subdomain@) ==> {
            &&& r matches Err(m) && m@ == "Route for subdomain '"@ + subdomain@ + "' already exists"@
            &&& final(config).deep_view() == old(config).deep_view()
        },
        !has_subdomain(old(config).static_routes.deep_view(), subdomain@) ==> {
            &&& r is Ok
            &&& final(config).deep_view() == with_static_routes(
                old(config).deep_view(),
                old(config).static_routes.deep_view().push(static_route(subdomain@, target_host@, port)),
            )
        },
{
    if routes_have_subdomain(&config.static_routes, subdomain.as_str()) {
        return Err(concat3("Route for subdomain '", subdomain.as_str(), "' already exists"));
    }
    let ghost before = config.static_routes.deep_view();
    config.static_routes.push(Gateway {
        subdomain,
        target_host,
        port,
        source: GatewaySource::Static,
        container_id: None,
        container_name: None,
    });
    assert(config.static_routes.deep_view() =~= before.push(static_route(subdomain@, target_host@, port)));
    Ok(())
}

/// Removes every static route with the subdomain `subdomain`.
pub fn remove_route(config: &mut AppConfig, subdomain: &str)
    ensures
        final(config).deep_view() == with_static_routes(
            old(config).deep_view(),
            keep_where(old(config).static_routes.deep_view(), |g: GatewayView| g.subdomain != subdomain@),
        ),
{
    let ghost rv = config.static_routes.deep_view();
    let ghost keep = |g: GatewayView| g.subdomain != subdomain@;
    let mut kept: Vec<Gateway> = Vec::new();
    let mut i: usize = 0;
    while i < config.static_routes.len()
        invariant
            i <= config.static_routes.len(),
            rv == config.static_routes.deep_view(),
            keep == (|g: GatewayView| g.subdomain != subdomain@),
            kept.deep_view() == keep_where(rv.take(i as int), keep),
        decreases config.static_routes.len() - i,
    {
        assert(rv.take(i + 1).drop_last() =~= rv.take(i as int));
        if !str_eq(config.static_routes[i].subdomain.as_str(), subdomain) {
            let ghost before = kept.deep_view();
            kept.push(copy_gateway(&config.static_routes[i]));
            assert(kept.deep_view() =~= before.push(rv[i as int]));
        }
        i = i + 1;
    }
    assert(rv.take(rv.len() as int) =~= rv);
    config.static_routes = kept;
}

// ---------------------------------------------------------------------------
// Route rules
// ---------------------------------------------------------------------------

/// Some rule of `rules` has the image pattern `pattern`.
pub open spec fn has_pattern(rules: Seq<StaticRouteRuleView>, pattern: Seq<char>) -> bool {
    exists|i: int| 0 <= i < rules.len() && #[trigger] rules[i].image_pattern == pattern
}

/// Adds a route rule, unless a rule already has its image pattern.
pub fn add_route_rule(config: &mut AppConfig, image_pattern: String, port_mappings: Vec<PortMapping>) -> (r: Result<(), String>)
    ensures
        has_pattern(old(config).route_rules.deep_view(), image_pattern@) ==> {
            &&& r matches Err(m) && m@ == "Route rule for image '"@ + image_pattern@ + "' already exists"@
            &&& final(config).deep_view() == old(config).deep_view()
        },
        !has_pattern(old(config).route_rules.deep_view(), image_pattern@) ==> {
            &&& r is Ok
            &&& final(config).deep_view() == with_route_rules(
                old(config).deep_view(),
                old(config).route_rules.deep_view().push(
                    (StaticRouteRuleView { image_pattern: image_pattern@, port_mappings: port_mappings.deep_view() }),
                ),
            )
        },
{
    let ghost rv = config.route_rules.deep_view();
    let mut i: usize = 0;
    while i < config.route_rules.len()
        invariant
            i <= config.route_rules.len(),
            rv == config.route_rules.deep_view(),
            forall|j: int| 0 <= j < i ==> #[trigger] rv[j].image_pattern != image_pattern@,
        decreases config.route_rules.len() - i,
    {
        if str_eq(config.route_rules[i].image_pattern.as_str(), image_pattern.as_str()) {
            assert(rv[i as int].image_pattern == image_pattern@);
            return Err(concat3("Route rule for image '", image_pattern.as_str(), "' already exists"));
        }
        i = i + 1;
    }
    let ghost pv = port_mappings.deep_view();
    let ghost ip = image_pattern@;
    config.route_rules.push(StaticRouteRule { image_pattern, port_mappings });
    assert(config.route_rules.deep_view() =~= rv.push(StaticRouteRuleView { image_pattern: ip, port_mappings: pv }));
    Ok(())
}

/// Removes every route rule with the image pattern `image_pattern`.
pub fn remove_route_rule(config: &mut AppConfig, image_pattern: &str)
    ensures
        final(config).deep_view() == with_route_rules(
            old(config).deep_view(),
            keep_where(old(config).route_rules.deep_view(), |r: StaticRouteRuleView| r.image_pattern != image_pattern@),
        ),
{
    let ghost rv = config.route_rules.deep_view();
    let ghost keep = |r: StaticRouteRuleView| r.image_pattern != image_pattern@;
    let mut kept: Vec<StaticRouteRule> = Vec::new();
    let mut i: usize = 0;
    while i < config.route_rules.len()
        invariant
            i <= config.route_rules.len(),
            rv == config.route_rules.deep_view(),
            keep == (|r: StaticRouteRuleView| r.image_pattern != image_pattern@),
            kept.deep_view() == keep_where(rv.take(i as int), keep),
        decreases config.route_rules.len() - i,
    {
        assert(rv.take(i + 1).drop_last() =~= rv.take(i as int));
        if !str_eq(config.route_rules[i].image_pattern.as_str(), image_pattern) {
            let ghost before = kept.deep_view();
            kept.push(copy_route_rule(&config.route_rules[i]));
            assert(kept.deep_view() =~= before.push(rv[i as int]));
        }
        i = i + 1;
    }
    assert(rv.take(rv.len() as int) =~= rv);
    config.route_rules = kept;
}

// ---------------------------------------------------------------------------
// Environment variables of the Caddy container
// ---------------------------------------------------------------------------

/// Adds `key` to the environment variables handed to Caddy, unless it is
/// there already; tells whether it was added.
pub fn register_env_var(config: &mut AppConfig, key: &str) -> (r: bool)
    ensures
        r == !old(config).caddy_env_vars.deep_view().contains(key@),
        r ==> final(config).deep_view() == with_env_vars(
            old(config).deep_view(),
            old(config).caddy_env_vars.deep_view().push(key@),
        ),
        !r ==> final(config).deep_view() == old(config).deep_view(),
{
    let ghost kv = config.caddy_env_vars.deep_view();
    let mut i: usize = 0;
    while i < config.caddy_env_vars.len()
        invariant
            i <= config.caddy_env_vars.len(),
            kv == config.caddy_env_vars.deep_view(),
            forall|j: int| 0 <= j < i ==> #[trigger] kv[j] != key@,
        decreases config.caddy_env_vars.len() - i,
    {
        if str_eq(config.caddy_env_vars[i].key.as_str(), key) {
            assert(kv[i as int] == key@);
            return false;
        }
        i = i + 1;
    }
    config.caddy_env_vars.push(EnvVarEntry { key: key.to_owned() });
    assert(config.caddy_env_vars.deep_view() =~= kv.push(key@));
    true
}

/// Removes `key` from the environment variables handed to Caddy.
pub fn remove_env_var(config: &mut AppConfig, key: &str)
    ensures
        final(config).deep_view() == with_env_vars(
            old(config).deep_view(),
            keep_where(old(config).caddy_env_vars.deep_view(), |k: Seq<char>| k != key@),
        ),
{
    let ghost kv = config.caddy_env_vars.deep_view();
    let ghost keep = |k: Seq<char>| k != key@;
    let mut kept: Vec<EnvVarEntry> = Vec::new();
    let mut i: usize = 0;
    while i < config.caddy_env_vars.len()
        invariant
            i <= config.caddy_env_vars.len(),
            kv == config.caddy_env_vars.deep_view(),
            keep == (|k: Seq<char>| k != key@),
            kept.deep_view() == keep_where(kv.take(i as int), keep),
        decreases config.caddy_env_vars.len() - i,
    {
        assert(kv.take(i + 1).drop_last() =~= kv.take(i as int));
        if !str_eq(config.caddy_env_vars[i].key.as_str(), key) {
            let ghost before = kept.deep_view();
            kept.push(copy_env_var_entry(&config.caddy_env_vars[i]));
            assert(kept.deep_view() =~= before.push(kv[i as int]));
        }
        i = i + 1;
    }
    assert(kv.take(kv.len() as int) =~= kv);
    config.caddy_env_vars = kept;
}

// ---------------------------------------------------------------------------
// General settings
// ---------------------------------------------------------------------------

/// Sets the domain, the Caddy image and the DNS provider.
pub fn save_settings(config: &mut AppConfig, domain: String, caddy_image: String, dns_provider: DnsProvider)
    ensures
        final(config).deep_view() == with_settings(old(config).deep_view(), domain@, caddy_image@, dns_provider),
{
    config.domain = domain;
    config.caddy_image = caddy_image;
    config.dns_provider = dns_provider;
}

// ---------------------------------------------------------------------------
// Values of the environment variables
// ---------------------------------------------------------------------------

/// Each configured key, in order, with whether a value is stored for it.
pub fn env_var_status(config: &AppConfig, fallback: &StringMap) -> (r: Vec<(String, bool)>)
    ensures
        r.len() == config.caddy_env_vars.len(),
        forall|i: int| 0 <= i < r.len() ==> {
            &&& (#[trigger] r@[i]).0@ == config.caddy_env_vars@[i].key@
            &&& fallback@.contains_key(config.caddy_env_vars@[i].key@) ==> r@[i].1
        },
        exists|readings: Seq<Option<Seq<char>>>| {
            &&& readings.len() == config.caddy_env_vars.len()
            &&& forall|i: int| 0 <= i < r.len() ==> (#[trigger] r@[i]).1 == value_from_spec(
                readings[i],
                fallback@,
                config.caddy_env_vars@[i].key@,
            ) is Ok
        },
{
    let ghost keys = config.caddy_env_vars.deep_view();
    let ghost mut readings: Seq<Option<Seq<char>>> = Seq::empty();
    let mut r: Vec<(String, bool)> = Vec::new();
    let mut i: usize = 0;
    while i < config.caddy_env_vars.len()
        invariant
            i <= config.caddy_env_vars.len(),
            r.len() == i,
            readings.len() == i,
            keys == config.caddy_env_vars.deep_view(),
            forall|j: int| 0 <= j < i ==> {
                &&& (#[trigger] r@[j]).0@ == config.caddy_env_vars@[j].key@
                &&& fallback@.contains_key(config.caddy_env_vars@[j].key@) ==> r@[j].1
                &&& r@[j].1 == value_from_spec(readings[j], fallback@, config.caddy_env_vars@[j].key@) is Ok
            },
        decreases config.caddy_env_vars.len() - i,
    {
        let key = &config.caddy_env_vars[i].key;
        let reading = keyring_value(key.as_str());
        let has = value_of(&reading, fallback).is_ok();
        proof {
            readings = readings.push(reading.value_view());
        }
        r.push((key.clone(), has));
        i = i + 1;
    }
    r
}

/// The environment of the Caddy container given the keyring's reading for
/// each key: each key, in order, with the value that [`value_from_spec`]
/// gives for it; keys without a value are left out.
pub open spec fn env_pairs_spec(
    keys: Seq<Seq<char>>,
    readings: Seq<Option<Seq<char>>>,
    fallback: Map<Seq<char>, Seq<char>>,
) -> Seq<(Seq<char>, Seq<char>)>
    decreases keys.len(),
{
    if keys.len() == 0 || readings.len() == 0 {
        Seq::empty()
    } else {
        let r = env_pairs_spec(keys.drop_last(), readings.drop_last(), fallback);
        match value_from_spec(readings.last(), fallback, keys.last()) {
            Ok(v) => r.push((keys.last(), v)),
            Err(_) => r,
        }
    }
}

/// The environment of the Caddy container given the keyring's reading for
/// each configured key (`readings[i]` for `keys[i]`).
pub fn env_pairs(keys: &Vec<EnvVarEntry>, readings: Vec<Option<String>>, fallback: &StringMap) -> (r: Vec<(String, String)>)
    requires
        readings.len() == keys.len(),
    ensures
        r.deep_view() == env_pairs_spec(keys.deep_view(), readings.deep_view(), fallback@),
{
    let ghost kv = keys.deep_view();
    let ghost rv = readings.deep_view();
    let mut r: Vec<(String, String)> = Vec::new();
    let mut i: usize = 0;
    while i < keys.len()
        invariant
            i <= keys.len(),
            readings.len() == keys.len(),
            kv == keys.deep_view(),
            rv == readings.deep_view(),
            r.deep_view() == env_pairs_spec(kv.take(i as int), rv.take(i as int), fallback@),
        decreases keys.len() - i,
    {
        assert(kv.take(i + 1).drop_last() =~= kv.take(i as int));
        assert(rv.take(i + 1).drop_last() =~= rv.take(i as int));
        let key = &keys[i].key;
        let reading = match &readings[i] {
            Some(v) => Some(v.clone()),
            None => None,
        };
        assert(reading.deep_view() == rv[i as int]);
        let ghost before = r.deep_view();
        match value_from(reading, fallback, key.as_str()) {
            Ok(v) => {
                r.push((key.clone(), v));
                assert(r.deep_view() =~= before.push((kv[i as int], v@)));
            },
            Err(_) => {},
        }
        i = i + 1;
    }
    assert(kv.take(keys.len() as int) =~= kv);
    assert(rv.take(keys.len() as int) =~= rv);
    r
}

/// The values that a list of keyring readings gave, in order.
pub open spec fn reading_values(readings: Seq<KeyringReading>) -> Seq<Option<Seq<char>>> {
    readings.map_values(|rd: KeyringReading| rd.value_view())
}

/// The environment of the Caddy container given the keyring readings of
/// the configured keys, each taken under its own key.
pub fn env_pairs_from_readings(
    keys: &Vec<EnvVarEntry>,
    readings: Vec<KeyringReading>,
    fallback: &StringMap,
) -> (r: Vec<(String, String)>)
    requires
        readings.len() == keys.len(),
        forall|i: int| 0 <= i < keys.len() ==> (#[trigger] readings@[i]).key_view() == keys@[i].key@,
    ensures
        r.deep_view() == env_pairs_spec(keys.deep_view(), reading_values(readings@), fallback@),
{
    let ghost rs = readings@;
    let mut values: Vec<Option<String>> = Vec::new();
    let mut i: usize = 0;
    while i < readings.len()
        invariant
            i <= readings.len(),
            rs == readings@,
            values.len() == i,
            forall|j: int| 0 <= j < i ==> (#[trigger] values@[j]).deep_view() == rs[j].value_view(),
        decreases readings.len() - i,
    {
        values.push(readings[i].value());
        i = i + 1;
    }
    assert(values.deep_view() =~= reading_values(rs));
    env_pairs(keys, values, fallback)
}

/// The environment of the Caddy container: each configured key whose value
/// can be read, in order, with its value (the keyring's when it has one,
/// else the fallback store's).
pub fn resolve_env_vars(config: &AppConfig, fallback: &StringMap) -> (r: Vec<(String, String)>)
    ensures
        exists|readings: Seq<Option<Seq<char>>>| {
            &&& readings.len() == config.caddy_env_vars.len()
            &&& r.deep_view() == #[trigger] env_pairs_spec(config.caddy_env_vars.deep_view(), readings, fallback@)
        },
{
    let mut readings: Vec<KeyringReading> = Vec::new();
    let mut i: usize = 0;
    while i < config.caddy_env_vars.len()
        invariant
            i <= config.caddy_env_vars.len(),
            readings.len() == i,
            forall|j: int| 0 <= j < i ==> (#[trigger] readings@[j]).key_view() == config.caddy_env_vars@[j].key@,
        decreases config.caddy_env_vars.len() - i,
    {
        readings.push(keyring_value(config.caddy_env_vars[i].key.as_str()));
        i = i + 1;
    }
    let ghost rv = reading_values(readings@);
    let r = env_pairs_from_readings(&config.caddy_env_vars, readings, fallback);
    assert(rv.len() == config.caddy_env_vars.len());
    r
}

} // verus!
