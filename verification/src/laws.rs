//! Properties of the gateway that span its functions, stated over the
//! specifications that their contracts use, and proved.
use vstd::prelude::*;

use crate::caddy::{caddy_config_spec, target_host_spec};
use crate::clock::clock_text;
use crate::docker::{caddy_env_spec, env_entry, env_has, needs_recreate_spec, CADDY_ADMIN_ENV};
use crate::docker::ContainerInfoView;
use crate::models::{AppConfigView, DnsProvider, GatewayView, LogEntryView, StaticRouteRuleView};
use crate::routing::{
    auto_route_at, auto_routes_spec, collapse_hyphens, free_name_spec, free_numbered_from,
    label_char, label_chars, name_taken, normalize_char, not_upper, valid_label, numbered, raw_subdomain, resolve_ports_spec,
    sanitize_spec, sanitize_subdomain_spec, trim_leading_hyphens, trim_trailing_hyphens,
};
use crate::credentials::value_from_spec;
use crate::settings::{env_pairs_spec, has_subdomain, keep_where, static_route, with_static_routes};
use crate::text::{
    all_ascii, ascii_lower, is_ascii_char,
    decimal, digit_char, digit_value, digits_value, hex, hex_char, is_ascii_alnum, is_digit,
    is_hex_digit, parse_u16_spec, two_digits,
};
use crate::watcher::{appended_log, belongs_to, removal_notes, routes_without, MAX_LOG_ENTRIES};

verus! {

// ---------------------------------------------------------------------------
// Subdomain labels
// ---------------------------------------------------------------------------

proof fn lemma_label_chars(s: Seq<char>)
    ensures
        forall|i: int| 0 <= i < label_chars(s).len() ==> label_char(#[trigger] label_chars(s)[i]),
        (forall|i: int| 0 <= i < s.len() ==> not_upper(#[trigger] s[i])) ==> forall|i: int|
            0 <= i < label_chars(s).len() ==> not_upper(#[trigger] label_chars(s)[i]),
    decreases s.len(),
{
    if s.len() > 0 {
        let t = s.drop_last();
        lemma_label_chars(t);
        let r = label_chars(t);
        let out = label_chars(s);
        let all_lower = forall|i: int| 0 <= i < s.len() ==> not_upper(#[trigger] s[i]);
        if all_lower {
            assert forall|i: int| 0 <= i < t.len() implies not_upper(#[trigger] t[i]) by {
                assert(t[i] == s[i]);
            }
            assert(not_upper(s[s.len() - 1]));
        }
        match normalize_char(s.last()) {
            Some(c) => {
                assert(out == r.push(c));
                assert(label_char(c));
                assert forall|i: int| 0 <= i < out.len() implies label_char(#[trigger] out[i]) by {
                    if i < r.len() {
                        assert(out[i] == r[i]);
                    }
                }
                if all_lower {
                    assert(not_upper(c));
                    assert forall|i: int| 0 <= i < out.len() implies not_upper(#[trigger] out[i]) by {
                        if i < r.len() {
                            assert(out[i] == r[i]);
                        }
                    }
                }
            },
            None => {
                assert(out == r);
            },
        }
    }
}

proof fn lemma_collapse(s: Seq<char>)
    ensures
        (forall|i: int| 0 <= i < s.len() ==> label_char(#[trigger] s[i])) ==> forall|i: int|
            0 <= i < collapse_hyphens(s).len() ==> label_char(#[trigger] collapse_hyphens(s)[i]),
        (forall|i: int| 0 <= i < s.len() ==> not_upper(#[trigger] s[i])) ==> forall|i: int|
            0 <= i < collapse_hyphens(s).len() ==> not_upper(#[trigger] collapse_hyphens(s)[i]),
        forall|i: int|
            0 <= i < collapse_hyphens(s).len() - 1 ==> !(#[trigger] collapse_hyphens(s)[i] == '-'
                && collapse_hyphens(s)[i + 1] == '-'),
    decreases s.len(),
{
    if s.len() > 0 {
        let t = s.drop_last();
        lemma_collapse(t);
        let r = collapse_hyphens(t);
        let out = collapse_hyphens(s);
        let c = s.last();
        let all_label = forall|i: int| 0 <= i < s.len() ==> label_char(#[trigger] s[i]);
        let all_lower = forall|i: int| 0 <= i < s.len() ==> not_upper(#[trigger] s[i]);
        if all_label {
            assert forall|i: int| 0 <= i < t.len() implies label_char(#[trigger] t[i]) by {
                assert(t[i] == s[i]);
            }
            assert(label_char(s[s.len() - 1]));
        }
        if all_lower {
            assert forall|i: int| 0 <= i < t.len() implies not_upper(#[trigger] t[i]) by {
                assert(t[i] == s[i]);
            }
            assert(not_upper(s[s.len() - 1]));
        }
        if c == '-' && r.len() > 0 && r.last() == '-' {
            assert(out == r);
        } else {
            assert(out == r.push(c));
            assert forall|i: int| 0 <= i < out.len() - 1 implies !(#[trigger] out[i] == '-' && out[i + 1] == '-') by {
                assert(out[i] == r[i]);
                if i + 1 < r.len() {
                    assert(out[i + 1] == r[i + 1]);
                } else {
                    assert(i == r.len() - 1);
                    assert(r[i] == r.last());
                }
            }
            if all_label {
                assert forall|i: int| 0 <= i < out.len() implies label_char(#[trigger] out[i]) by {
                    if i < r.len() {
                        assert(out[i] == r[i]);
                    }
                }
            }
            if all_lower {
                assert forall|i: int| 0 <= i < out.len() implies not_upper(#[trigger] out[i]) by {
                    if i < r.len() {
                        assert(out[i] == r[i]);
                    }
                }
            }
        }
    }
}

proof fn lemma_trim_leading(s: Seq<char>) -> (k: int)
    ensures
        0 <= k <= s.len(),
        trim_leading_hyphens(s) == s.skip(k),
        trim_leading_hyphens(s).len() > 0 ==> trim_leading_hyphens(s)[0] != '-',
    decreases s.len(),
{
    if s.len() > 0 && s[0] == '-' {
        let k = lemma_trim_leading(s.drop_first());
        assert(s.drop_first().skip(k) =~= s.skip(k + 1));
        k + 1
    } else {
        assert(s.skip(0) =~= s);
        0
    }
}

proof fn lemma_trim_trailing(s: Seq<char>) -> (k: int)
    ensures
        0 <= k <= s.len(),
        trim_trailing_hyphens(s) == s.take(k),
        trim_trailing_hyphens(s).len() > 0 ==> trim_trailing_hyphens(s).last() != '-',
    decreases s.len(),
{
    if s.len() > 0 && s.last() == '-' {
        let k = lemma_trim_trailing(s.drop_last());
        assert(s.drop_last().take(k) =~= s.take(k));
        k
    } else {
        assert(s.take(s.len() as int) =~= s);
        s.len() as int
    }
}

/// The label made of a lower-cased name is a well-formed DNS label, and it
/// holds no capital letter when the lower-cased name holds none.
pub proof fn law_sanitized_label_is_valid(lower: Seq<char>)
    ensures
        valid_label(sanitize_spec(lower)),
        (forall|i: int| 0 <= i < lower.len() ==> not_upper(#[trigger] lower[i])) ==> forall|i: int|
            0 <= i < sanitize_spec(lower).len() ==> not_upper(#[trigger] sanitize_spec(lower)[i]),
{
    let a = label_chars(lower);
    let b = collapse_hyphens(a);
    lemma_label_chars(lower);
    lemma_collapse(a);
    let c = trim_leading_hyphens(b);
    let k1 = lemma_trim_leading(b);
    let d = trim_trailing_hyphens(c);
    let k2 = lemma_trim_trailing(c);
    assert(d == sanitize_spec(lower));
    assert forall|i: int| 0 <= i < d.len() implies d[i] == b[i + k1] by {}
    assert forall|i: int| 0 <= i < d.len() implies label_char(#[trigger] d[i]) by {
        assert(d[i] == b[i + k1]);
    }
    assert forall|i: int| 0 <= i < d.len() - 1 implies !(#[trigger] d[i] == '-' && d[i + 1] == '-') by {
        assert(d[i] == b[i + k1]);
        assert(d[i + 1] == b[i + 1 + k1]);
    }
    if d.len() > 0 {
        assert(d[0] == c[0]);
    }
    if forall|i: int| 0 <= i < lower.len() ==> not_upper(#[trigger] lower[i]) {
        assert forall|i: int| 0 <= i < d.len() implies not_upper(#[trigger] d[i]) by {
            assert(d[i] == b[i + k1]);
        }
    }
}

proof fn lemma_label_chars_identity(s: Seq<char>)
    requires
        forall|i: int| 0 <= i < s.len() ==> label_char(#[trigger] s[i]),
    ensures
        label_chars(s) == s,
    decreases s.len(),
{
    if s.len() > 0 {
        let t = s.drop_last();
        assert forall|i: int| 0 <= i < t.len() implies label_char(#[trigger] t[i]) by {
            assert(t[i] == s[i]);
        }
        lemma_label_chars_identity(t);
        assert(label_char(s.last()));
        assert(normalize_char(s.last()) == Some(s.last()));
        assert(t.push(s.last()) =~= s);
    }
}

proof fn lemma_collapse_identity(s: Seq<char>)
    requires
        forall|i: int| 0 <= i < s.len() - 1 ==> !(#[trigger] s[i] == '-' && s[i + 1] == '-'),
    ensures
        collapse_hyphens(s) == s,
    decreases s.len(),
{
    if s.len() > 0 {
        let t = s.drop_last();
        assert forall|i: int| 0 <= i < t.len() - 1 implies !(#[trigger] t[i] == '-' && t[i + 1] == '-') by {
            assert(t[i] == s[i]);
            assert(t[i + 1] == s[i + 1]);
        }
        lemma_collapse_identity(t);
        if t.len() > 0 {
            assert(t.last() == s[s.len() - 2]);
        }
        assert(t.push(s.last()) =~= s);
    }
}

/// Sanitizing is idempotent: a label that sanitizing produced comes out of
/// sanitizing unchanged.
pub proof fn law_sanitize_idempotent(lower: Seq<char>)
    ensures
        sanitize_spec(sanitize_spec(lower)) == sanitize_spec(lower),
{
    let r = sanitize_spec(lower);
    law_sanitized_label_is_valid(lower);
    lemma_label_chars_identity(r);
    lemma_collapse_identity(r);
    if r.len() > 0 {
        assert(r[0] != '-');
        assert(r.last() != '-');
    }
}

proof fn lemma_ascii_lower_no_upper(s: Seq<char>)
    requires
        all_ascii(s),
    ensures
        forall|i: int| 0 <= i < ascii_lower(s).len() ==> not_upper(#[trigger] ascii_lower(s)[i]),
{
    assert forall|i: int| 0 <= i < ascii_lower(s).len() implies not_upper(#[trigger] ascii_lower(s)[i]) by {
        let c = s[i];
        if 'A' <= c <= 'Z' {
            assert((c as u32) + 32 >= 'a' as u32);
        }
    }
}

/// A lower-case DNS label is ASCII and is its own subdomain: sanitizing it
/// (which, for ASCII text, lower-cases as [`ascii_lower`] does) gives it
/// back. With the contract of `sanitize_subdomain`, which says that its
/// result is such a label, this makes `sanitize_subdomain` idempotent.
pub proof fn law_lowercase_label_is_fixed_point(r: Seq<char>)
    requires
        valid_label(r),
        forall|i: int| 0 <= i < r.len() ==> not_upper(#[trigger] r[i]),
    ensures
        all_ascii(r),
        ascii_lower(r) == r,
        sanitize_spec(ascii_lower(r)) == r,
{
    assert forall|i: int| 0 <= i < r.len() implies is_ascii_char(#[trigger] r[i]) by {
        assert(label_char(r[i]));
    }
    assert(ascii_lower(r) =~= r) by {
        assert forall|i: int| 0 <= i < r.len() implies ascii_lower(r)[i] == r[i] by {
            assert(not_upper(r[i]));
        }
    }
    lemma_label_chars_identity(r);
    lemma_collapse_identity(r);
    if r.len() > 0 {
        assert(r[0] != '-');
        assert(r.last() != '-');
    }
}

/// For an ASCII name, the subdomain made of it is a well-formed DNS label in
/// lower case, and making a subdomain of that subdomain gives it back.
pub proof fn law_ascii_subdomain_is_lowercase_label(name: Seq<char>)
    requires
        all_ascii(name),
    ensures
        valid_label(sanitize_spec(ascii_lower(name))),
        forall|i: int| 0 <= i < sanitize_spec(ascii_lower(name)).len() ==> not_upper(
            #[trigger] sanitize_spec(ascii_lower(name))[i],
        ),
        all_ascii(sanitize_spec(ascii_lower(name))),
        sanitize_spec(ascii_lower(sanitize_spec(ascii_lower(name)))) == sanitize_spec(ascii_lower(name)),
{
    let lower = ascii_lower(name);
    lemma_ascii_lower_no_upper(name);
    law_sanitized_label_is_valid(lower);
    let r = sanitize_spec(lower);
    assert forall|i: int| 0 <= i < r.len() implies is_ascii_char(#[trigger] r[i]) by {
        assert(label_char(r[i]));
    }
    assert(ascii_lower(r) =~= r) by {
        assert forall|i: int| 0 <= i < r.len() implies ascii_lower(r)[i] == r[i] by {
            assert(not_upper(r[i]));
        }
    }
    law_sanitize_idempotent(lower);
}

// ---------------------------------------------------------------------------
// Subdomain collisions
// ---------------------------------------------------------------------------

proof fn lemma_free_numbered(base: Seq<char>, taken: Seq<GatewayView>, k: nat)
    ensures
        free_numbered_from(base, taken, k) matches Some(n) ==> !name_taken(taken, n),
    decreases 101 - k,
{
    if k <= 100 && name_taken(taken, crate::routing::numbered(base, k)) {
        lemma_free_numbered(base, taken, k + 1);
    }
}

/// A subdomain found free is used by no taken route; a free base is kept as it is.
pub proof fn law_free_name_is_free(base: Seq<char>, taken: Seq<GatewayView>)
    ensures
        free_name_spec(base, taken) matches Some(n) ==> !name_taken(taken, n),
        !name_taken(taken, base) ==> free_name_spec(base, taken) == Some(base),
{
    lemma_free_numbered(base, taken, 2);
}

/// The routes made for a container collide with no existing discovered
/// route, no static route and no earlier route of the same container,
/// whenever the sanitized name or one of its numbered variants up to 100 is
/// free (beyond that, a time-derived suffix is used and not checked).
pub proof fn law_auto_routes_do_not_collide(
    info: ContainerInfoView,
    rules: Seq<StaticRouteRuleView>,
    existing_auto: Seq<GatewayView>,
    static_routes: Seq<GatewayView>,
    routes: Seq<GatewayView>,
)
    requires
        auto_routes_spec(info, rules, existing_auto, static_routes, routes),
    ensures
        forall|q: int|
            0 <= q < routes.len() && free_name_spec(
                sanitize_subdomain_spec(raw_subdomain(info.name, resolve_ports_spec(info, rules), q)),
                existing_auto + static_routes + routes.take(q),
            ) is Some ==> !name_taken(
                existing_auto + static_routes + routes.take(q),
                #[trigger] routes[q].subdomain,
            ),
{
    let ports = resolve_ports_spec(info, rules);
    assert forall|q: int|
        0 <= q < routes.len() && free_name_spec(
            sanitize_subdomain_spec(raw_subdomain(info.name, ports, q)),
            existing_auto + static_routes + routes.take(q),
        ) is Some implies !name_taken(
            existing_auto + static_routes + routes.take(q),
            #[trigger] routes[q].subdomain,
        ) by {
        assert(auto_route_at(info, ports, existing_auto + static_routes, routes, q));
        law_free_name_is_free(
            sanitize_subdomain_spec(raw_subdomain(info.name, ports, q)),
            existing_auto + static_routes + routes.take(q),
        );
    }
}

/// The names tried for `base`, in order: `base`, then `base-2`, ..., `base-100`.
pub open spec fn candidate_names(base: Seq<char>) -> Seq<Seq<char>> {
    Seq::new(100, |i: int| if i == 0 { base } else { numbered(base, (i + 1) as nat) })
}

proof fn lemma_numbered_parts(base: Seq<char>, k: nat)
    ensures
        numbered(base, k).len() > base.len() + 1,
        numbered(base, k).skip(base.len() + 1int) == decimal(k),
{
    reveal_strlit("-");
    lemma_decimal_digits(k);
    assert(numbered(base, k).skip(base.len() + 1int) =~= decimal(k));
}

proof fn lemma_candidates_distinct(base: Seq<char>)
    ensures
        candidate_names(base).no_duplicates(),
{
    let c = candidate_names(base);
    assert forall|i: int, j: int| 0 <= i < c.len() && 0 <= j < c.len() && i != j implies c[i] != c[j] by {
        if i == 0 {
            lemma_numbered_parts(base, (j + 1) as nat);
        } else if j == 0 {
            lemma_numbered_parts(base, (i + 1) as nat);
        } else {
            lemma_numbered_parts(base, (i + 1) as nat);
            lemma_numbered_parts(base, (j + 1) as nat);
            if c[i] == c[j] {
                lemma_decimal_digits((i + 1) as nat);
                lemma_decimal_digits((j + 1) as nat);
                assert(decimal((i + 1) as nat) == decimal((j + 1) as nat));
            }
        }
    }
}

proof fn lemma_all_numbered_taken(base: Seq<char>, taken: Seq<GatewayView>, k: nat)
    requires
        free_numbered_from(base, taken, k) is None,
    ensures
        forall|j: nat| k <= j <= 100 ==> name_taken(taken, #[trigger] numbered(base, j)),
    decreases 101 - k,
{
    if k <= 100 {
        lemma_all_numbered_taken(base, taken, k + 1);
    }
}

/// With fewer than 100 routes taken, a free name is always found among
/// `base`, `base-2`, ..., `base-100`: there are 100 distinct candidates.
pub proof fn law_free_name_exists(base: Seq<char>, taken: Seq<GatewayView>)
    requires
        taken.len() < 100,
    ensures
        free_name_spec(base, taken) is Some,
{
    if free_name_spec(base, taken) is None {
        broadcast use vstd::seq_lib::seq_to_set_is_finite;
        lemma_all_numbered_taken(base, taken, 2);
        let c = candidate_names(base);
        let subs = taken.map_values(|g: GatewayView| g.subdomain);
        assert forall|x: Seq<char>| c.to_set().contains(x) implies subs.to_set().contains(x) by {
            let i = choose|i: int| 0 <= i < c.len() && c[i] == x;
            if i == 0 {
                assert(name_taken(taken, base));
            } else {
                assert(name_taken(taken, numbered(base, (i + 1) as nat)));
            }
            assert(name_taken(taken, x));
            let idx = choose|idx: int| 0 <= idx < taken.len() && #[trigger] taken[idx].subdomain == x;
            assert(subs[idx] == x);
        }
        lemma_candidates_distinct(base);
        c.unique_seq_to_set();
        subs.lemma_cardinality_of_set();
        vstd::set_lib::lemma_len_subset(c.to_set(), subs.to_set());
        assert(false);
    }
}

/// When the known routes and the ports of the container number at most
/// 100 together, each route made for the container gets a subdomain that no
/// known route and no earlier route of the container uses.
pub proof fn law_few_auto_routes_do_not_collide(
    info: ContainerInfoView,
    rules: Seq<StaticRouteRuleView>,
    existing_auto: Seq<GatewayView>,
    static_routes: Seq<GatewayView>,
    routes: Seq<GatewayView>,
)
    requires
        auto_routes_spec(info, rules, existing_auto, static_routes, routes),
        existing_auto.len() + static_routes.len() + routes.len() <= 100,
    ensures
        forall|q: int| 0 <= q < routes.len() ==> !name_taken(
            existing_auto + static_routes + routes.take(q),
            #[trigger] routes[q].subdomain,
        ),
{
    let ports = resolve_ports_spec(info, rules);
    law_auto_routes_do_not_collide(info, rules, existing_auto, static_routes, routes);
    assert forall|q: int| 0 <= q < routes.len() implies !name_taken(
        existing_auto + static_routes + routes.take(q),
        #[trigger] routes[q].subdomain,
    ) by {
        law_free_name_exists(
            sanitize_subdomain_spec(raw_subdomain(info.name, ports, q)),
            existing_auto + static_routes + routes.take(q),
        );
    }
}

/// When the routes already known have distinct subdomains and each route
/// made for a container found a free name, the known routes together with
/// the new ones still have distinct subdomains.
pub proof fn law_auto_routes_keep_subdomains_distinct(
    info: ContainerInfoView,
    rules: Seq<StaticRouteRuleView>,
    existing_auto: Seq<GatewayView>,
    static_routes: Seq<GatewayView>,
    routes: Seq<GatewayView>,
)
    requires
        auto_routes_spec(info, rules, existing_auto, static_routes, routes),
        distinct_subdomains(existing_auto + static_routes),
        forall|q: int|
            0 <= q < routes.len() ==> (#[trigger] free_name_spec(
                sanitize_subdomain_spec(raw_subdomain(info.name, resolve_ports_spec(info, rules), q)),
                existing_auto + static_routes + routes.take(q),
            )) is Some,
    ensures
        distinct_subdomains(existing_auto + static_routes + routes),
{
    let base = existing_auto + static_routes;
    let all = base + routes;
    law_auto_routes_do_not_collide(info, rules, existing_auto, static_routes, routes);
    assert forall|i: int, j: int|
        0 <= i < all.len() && 0 <= j < all.len() && i != j implies #[trigger] all[i].subdomain
        != #[trigger] all[j].subdomain by {
        let ports = resolve_ports_spec(info, rules);
        if i < base.len() && j < base.len() {
            assert(all[i] == base[i]);
            assert(all[j] == base[j]);
        } else {
            let (lo, hi) = if i < j { (i, j) } else { (j, i) };
            let q = hi - base.len();
            let seen = base + routes.take(q);
            assert(free_name_spec(sanitize_subdomain_spec(raw_subdomain(info.name, ports, q)), seen) is Some);
            assert(!name_taken(seen, routes[q].subdomain));
            assert(all[hi] == routes[q]);
            assert(seen[lo] == all[lo]);
        }
    }
}

// ---------------------------------------------------------------------------
// Stopped containers
// ---------------------------------------------------------------------------

/// After removing a container's routes, none of the remaining routes belongs
/// to it, every route that remains was there before, and every route is
/// either kept or described as removed.
pub proof fn law_removal_partitions_routes(routes: Seq<GatewayView>, id: Seq<char>)
    ensures
        forall|i: int| 0 <= i < routes_without(routes, id).len() ==> !belongs_to(
            #[trigger] routes_without(routes, id)[i],
            id,
        ),
        forall|i: int| 0 <= i < routes_without(routes, id).len() ==> routes.contains(
            #[trigger] routes_without(routes, id)[i],
        ),
        routes_without(routes, id).len() + removal_notes(routes, id).len() == routes.len(),
    decreases routes.len(),
{
    if routes.len() > 0 {
        let t = routes.drop_last();
        law_removal_partitions_routes(t, id);
        let r = routes_without(routes, id);
        assert forall|i: int| 0 <= i < r.len() implies routes.contains(#[trigger] r[i]) by {
            if i < routes_without(t, id).len() {
                assert(r[i] == routes_without(t, id)[i]);
                let j = choose|j: int| 0 <= j < t.len() && t[j] == r[i];
                assert(routes[j] == t[j]);
            } else {
                assert(r[i] == routes.last());
                assert(routes[routes.len() - 1] == routes.last());
            }
        }
    }
}

// ---------------------------------------------------------------------------
// Static routes
// ---------------------------------------------------------------------------

/// No two routes of `routes` share a subdomain.
pub open spec fn distinct_subdomains(routes: Seq<GatewayView>) -> bool {
    forall|i: int, j: int|
        0 <= i < routes.len() && 0 <= j < routes.len() && i != j ==> #[trigger] routes[i].subdomain
            != #[trigger] routes[j].subdomain
}

/// What `add_route` leaves of the settings: unchanged when the subdomain is
/// taken, else with the new static route appended.
pub open spec fn after_add_route(c: AppConfigView, sub: Seq<char>, target: Seq<char>, port: u16) -> AppConfigView {
    if has_subdomain(c.static_routes, sub) {
        c
    } else {
        with_static_routes(c, c.static_routes.push(static_route(sub, target, port)))
    }
}

/// Adding a static route keeps the static subdomains distinct.
pub proof fn law_add_route_keeps_subdomains_distinct(
    c: AppConfigView,
    sub: Seq<char>,
    target: Seq<char>,
    port: u16,
)
    requires
        distinct_subdomains(c.static_routes),
    ensures
        distinct_subdomains(after_add_route(c, sub, target, port).static_routes),
{
    if !has_subdomain(c.static_routes, sub) {
        let s = c.static_routes.push(static_route(sub, target, port));
        assert forall|i: int, j: int|
            0 <= i < s.len() && 0 <= j < s.len() && i != j implies #[trigger] s[i].subdomain
            != #[trigger] s[j].subdomain by {
            if i == s.len() - 1 {
                assert(c.static_routes[j].subdomain != sub);
            } else if j == s.len() - 1 {
                assert(c.static_routes[i].subdomain != sub);
            } else {
                assert(s[i] == c.static_routes[i]);
                assert(s[j] == c.static_routes[j]);
            }
        }
    }
}

proof fn lemma_keep_all<A>(s: Seq<A>, keep: spec_fn(A) -> bool)
    requires
        forall|i: int| 0 <= i < s.len() ==> keep(#[trigger] s[i]),
    ensures
        keep_where(s, keep) == s,
    decreases s.len(),
{
    if s.len() > 0 {
        let t = s.drop_last();
        assert forall|i: int| 0 <= i < t.len() implies keep(#[trigger] t[i]) by {
            assert(t[i] == s[i]);
        }
        lemma_keep_all(t, keep);
        assert(keep(s[s.len() - 1]));
        assert(t.push(s.last()) =~= s);
    }
}

proof fn lemma_keep_where_none(s: Seq<GatewayView>, sub: Seq<char>)
    ensures
        !has_subdomain(keep_where(s, |g: GatewayView| g.subdomain != sub), sub),
    decreases s.len(),
{
    if s.len() > 0 {
        lemma_keep_where_none(s.drop_last(), sub);
        let r = keep_where(s, |g: GatewayView| g.subdomain != sub);
        let t = keep_where(s.drop_last(), |g: GatewayView| g.subdomain != sub);
        assert forall|i: int| 0 <= i < r.len() implies #[trigger] r[i].subdomain != sub by {
            if i < t.len() {
                assert(r[i] == t[i]);
            }
        }
    }
}

/// Removing a static route by subdomain leaves no static route with that
/// subdomain, and removing the route that was just added gives back the
/// static routes as they were before the addition.
pub proof fn law_remove_route_undoes_add_route(
    c: AppConfigView,
    sub: Seq<char>,
    target: Seq<char>,
    port: u16,
)
    requires
        !has_subdomain(c.static_routes, sub),
    ensures
        !has_subdomain(keep_where(c.static_routes, |g: GatewayView| g.subdomain != sub), sub),
        keep_where(
            after_add_route(c, sub, target, port).static_routes,
            |g: GatewayView| g.subdomain != sub,
        ) == c.static_routes,
{
    lemma_keep_where_none(c.static_routes, sub);
    let keep = |g: GatewayView| g.subdomain != sub;
    let s = c.static_routes.push(static_route(sub, target, port));
    assert(s.drop_last() =~= c.static_routes);
    assert forall|i: int| 0 <= i < c.static_routes.len() implies keep(#[trigger] c.static_routes[i]) by {}
    lemma_keep_all(c.static_routes, keep);
}

// ---------------------------------------------------------------------------
// The Caddy configuration
// ---------------------------------------------------------------------------

/// With a domain and at least one route, the single TLS policy covers exactly
/// the hosts of the routes, in order.
pub proof fn law_tls_subjects_are_route_hosts(routes: Seq<GatewayView>, domain: Seq<char>, p: DnsProvider)
    requires
        domain.len() > 0,
        routes.len() > 0,
    ensures
        ({
            let cfg = caddy_config_spec(routes, domain, p);
            &&& cfg.tls_policies matches Some(ps) && ps.len() == 1
            &&& cfg.tls_policies->0[0].subjects.len() == cfg.routes.len()
            &&& forall|i: int| 0 <= i < cfg.routes.len() ==> #[trigger] cfg.tls_policies->0[0].subjects[i]
                == cfg.routes[i].host
        }),
{
}

/// Without a domain the configuration has no TLS section.
pub proof fn law_no_domain_no_tls(routes: Seq<GatewayView>, p: DnsProvider)
    ensures
        caddy_config_spec(routes, Seq::empty(), p).tls_policies is None,
{
}

/// Translating a target host twice gives what translating it once gives.
pub proof fn law_target_host_idempotent(host: Seq<char>)
    ensures
        target_host_spec(target_host_spec(host)) == target_host_spec(host),
{
}

// ---------------------------------------------------------------------------
// The Caddy container
// ---------------------------------------------------------------------------

/// A Caddy container made with the environment that `caddy_env` builds, from
/// the expected image, never needs to be made anew.
pub proof fn law_fresh_caddy_needs_no_recreate(image: Seq<char>, vars: Seq<(Seq<char>, Seq<char>)>)
    ensures
        !needs_recreate_spec(image, caddy_env_spec(vars), image, vars),
{
    let env = caddy_env_spec(vars);
    assert(env[0] == CADDY_ADMIN_ENV@);
    assert(env_has(env, CADDY_ADMIN_ENV@));
    assert forall|i: int| 0 <= i < vars.len() implies env_has(env, #[trigger] env_entry(vars[i].0, vars[i].1)) by {
        assert(env[i + 1] == env_entry(vars[i].0, vars[i].1));
    }
}

// ---------------------------------------------------------------------------
// Numbers in text
// ---------------------------------------------------------------------------

proof fn lemma_digit_char(d: nat)
    requires
        d < 10,
    ensures
        is_digit(digit_char(d)),
        digit_value(digit_char(d)) == d,
        digit_char(d) != '+',
{
}

proof fn lemma_decimal_digits(n: nat)
    ensures
        decimal(n).len() > 0,
        forall|i: int| 0 <= i < decimal(n).len() ==> is_digit(#[trigger] decimal(n)[i]),
        digits_value(decimal(n)) == n,
        decimal(n)[0] != '+',
    decreases n,
{
    lemma_digit_char(n % 10);
    if n >= 10 {
        let t = decimal(n / 10);
        lemma_decimal_digits(n / 10);
        let s = decimal(n);
        assert(s == t.push(digit_char(n % 10)));
        assert(s.drop_last() =~= t);
        assert(s.last() == digit_char(n % 10));
        assert(digits_value(s) == digits_value(t) * 10 + digit_value(digit_char(n % 10)));
        assert((n / 10) * 10 + n % 10 == n);
        assert forall|i: int| 0 <= i < s.len() implies is_digit(#[trigger] s[i]) by {
            if i < t.len() {
                assert(s[i] == t[i]);
            }
        }
        assert(s[0] == t[0]);
    } else {
        let s = decimal(n);
        assert(s.drop_last() =~= Seq::<char>::empty());
        assert(s.last() == digit_char(n));
        assert(digits_value(s) == digits_value(s.drop_last()) * 10 + digit_value(s.last()));
    }
}

/// Parsing the decimal rendering of a port gives the port back.
pub proof fn law_parse_decimal_roundtrip(port: u16)
    ensures
        parse_u16_spec(decimal(port as nat)) == Some(port),
{
    lemma_decimal_digits(port as nat);
}

/// A hexadecimal rendering is non-empty and made of hexadecimal digits.
pub proof fn law_hex_is_hex_digits(n: nat)
    ensures
        hex(n).len() > 0,
        forall|i: int| 0 <= i < hex(n).len() ==> is_hex_digit(#[trigger] hex(n)[i]),
    decreases n,
{
    if n >= 16 {
        law_hex_is_hex_digits(n / 16);
        let t = hex(n / 16);
        let s = hex(n);
        assert forall|i: int| 0 <= i < s.len() implies is_hex_digit(#[trigger] s[i]) by {
            if i < t.len() {
                assert(s[i] == t[i]);
            } else {
                assert(s[i] == hex_char(n % 16));
            }
        }
    } else {
        assert(hex(n)[0] == hex_char(n));
    }
}

/// A time stamp of the event log has the shape `HH:MM:SS`.
pub proof fn law_clock_text_shape(secs: nat)
    ensures
        clock_text(secs).len() == 8,
        clock_text(secs)[2] == ':',
        clock_text(secs)[5] == ':',
        forall|i: int| 0 <= i < 8 && i != 2 && i != 5 ==> is_digit(#[trigger] clock_text(secs)[i]),
{
    lemma_digit_char(((secs % 86400) / 3600) / 10);
    lemma_digit_char(((secs % 86400) / 3600) % 10);
    lemma_digit_char(((secs % 3600) / 60) / 10);
    lemma_digit_char(((secs % 3600) / 60) % 10);
    lemma_digit_char((secs % 60) / 10);
    lemma_digit_char((secs % 60) % 10);
}

proof fn lemma_two_digits_value(n: nat)
    requires
        n < 100,
    ensures
        digits_value(two_digits(n)) == n,
{
    lemma_digit_char(n / 10);
    lemma_digit_char(n % 10);
    let t = two_digits(n);
    let one = seq![digit_char(n / 10)];
    assert(t.drop_last() =~= one);
    assert(one.drop_last() =~= Seq::<char>::empty());
    assert(digits_value(Seq::<char>::empty()) == 0);
    assert(one.last() == digit_char(n / 10));
    assert(digits_value(one) == digits_value(one.drop_last()) * 10 + digit_value(one.last()));
    assert(digits_value(one) == digit_value(digit_char(n / 10)));
    assert(t.last() == digit_char(n % 10));
    assert(digits_value(t) == digits_value(t.drop_last()) * 10 + digit_value(t.last()));
}

/// A time stamp reads back as the time of day it was made from: its hours,
/// minutes and seconds fields, taken as numbers, are below 24, 60 and 60,
/// and together they count the seconds of `secs` since the start of its
/// (UTC) day.
pub proof fn law_clock_text_reads_back(secs: nat)
    ensures
        ({
            let t = clock_text(secs);
            let h = digits_value(t.subrange(0, 2));
            let m = digits_value(t.subrange(3, 5));
            let s = digits_value(t.subrange(6, 8));
            &&& h < 24 && m < 60 && s < 60
            &&& h * 3600 + m * 60 + s == secs % 86400
        }),
{
    let t = clock_text(secs);
    let hh = (secs % 86400) / 3600;
    let mm = (secs % 3600) / 60;
    let ss = secs % 60;
    assert(hh < 24) by (nonlinear_arith)
        requires
            hh == (secs % 86400) / 3600,
    {
        assert(secs % 86400 < 86400);
    }
    assert(mm < 60) by (nonlinear_arith)
        requires
            mm == (secs % 3600) / 60,
    {
        assert(secs % 3600 < 3600);
    }
    assert(t.subrange(0, 2) =~= two_digits(hh));
    assert(t.subrange(3, 5) =~= two_digits(mm));
    assert(t.subrange(6, 8) =~= two_digits(ss));
    lemma_two_digits_value(hh);
    lemma_two_digits_value(mm);
    lemma_two_digits_value(ss);
    assert(hh * 3600 + mm * 60 + ss == secs % 86400) by (nonlinear_arith)
        requires
            hh == (secs % 86400) / 3600,
            mm == (secs % 3600) / 60,
            ss == secs % 60,
    {
        let d = secs % 86400;
        assert(d % 3600 == secs % 3600) by {
            vstd::arithmetic::div_mod::lemma_mod_mod(secs as int, 3600, 24);
        }
        assert(d == (d / 3600) * 3600 + d % 3600);
        assert(d % 3600 == ((d % 3600) / 60) * 60 + (d % 3600) % 60);
        assert((d % 3600) % 60 == secs % 60) by {
            vstd::arithmetic::div_mod::lemma_mod_mod(secs as int, 60, 60);
        }
    }
}

// ---------------------------------------------------------------------------
// The fallback secret store
// ---------------------------------------------------------------------------

/// Reading a value: when the keyring gives a value under the key, that value
/// is the answer, whatever the fallback store holds; when it gives none, the
/// fallback store's value is the answer; an error comes exactly when neither
/// store has a value for the key.
pub proof fn law_read_prefers_keyring(
    reading: Option<Seq<char>>,
    fallback: Map<Seq<char>, Seq<char>>,
    key: Seq<char>,
)
    ensures
        reading matches Some(v) ==> value_from_spec(reading, fallback, key) == Ok::<Seq<char>, Seq<char>>(v),
        reading is None && fallback.contains_key(key) ==> value_from_spec(reading, fallback, key)
            == Ok::<Seq<char>, Seq<char>>(fallback[key]),
        value_from_spec(reading, fallback, key) is Err <==> (reading is None && !fallback.contains_key(key)),
{
}

/// Storing, then reading: when the keyring read the value back unchanged,
/// the fallback store is left as it was and the keyring's reading gives the
/// value; otherwise the fallback store gets the value, and a later read
/// gives it whenever the keyring then has nothing under the key. Either
/// way, a stored value can be read back from one of the two stores.
pub proof fn law_store_then_read(
    fallback: Map<Seq<char>, Seq<char>>,
    key: Seq<char>,
    value: Seq<char>,
    readback: Option<Seq<char>>,
    later: Option<Seq<char>>,
)
    ensures
        ({
            let held = readback == Some(value);
            let after = if held { fallback } else { fallback.insert(key, value) };
            &&& held ==> value_from_spec(readback, after, key) == Ok::<Seq<char>, Seq<char>>(value)
            &&& !held ==> after.contains_key(key) && after[key] == value
            &&& (!held && later is None) ==> value_from_spec(later, after, key) == Ok::<Seq<char>, Seq<char>>(value)
        }),
{
}

/// The environment handed to Caddy pairs each key with its own value: every
/// pair is some configured key with the value that key's own reading (or,
/// without one, the fallback store) gives; every key that has a value is
/// there with that value; no key is there without a value; and there are
/// no more pairs than keys.
pub proof fn law_env_pairs_use_each_keys_own_value(
    keys: Seq<Seq<char>>,
    readings: Seq<Option<Seq<char>>>,
    fallback: Map<Seq<char>, Seq<char>>,
)
    requires
        readings.len() == keys.len(),
    ensures
        env_pairs_spec(keys, readings, fallback).len() <= keys.len(),
        forall|j: int| 0 <= j < env_pairs_spec(keys, readings, fallback).len() ==> exists|i: int|
            0 <= i < keys.len() && (#[trigger] env_pairs_spec(keys, readings, fallback)[j]).0 == keys[i]
                && value_from_spec(readings[i], fallback, keys[i]) == Ok::<Seq<char>, Seq<char>>(
                env_pairs_spec(keys, readings, fallback)[j].1,
            ),
        forall|i: int| 0 <= i < keys.len() ==> (#[trigger] value_from_spec(readings[i], fallback, keys[i]) matches Ok(v)
            ==> env_pairs_spec(keys, readings, fallback).contains((keys[i], v))),
        forall|i: int| 0 <= i < keys.len() && (forall|k: int| 0 <= k < keys.len() && k != i ==> keys[k] != keys[i])
            && #[trigger] value_from_spec(readings[i], fallback, keys[i]) is Err ==> forall|j: int|
            0 <= j < env_pairs_spec(keys, readings, fallback).len() ==> env_pairs_spec(keys, readings, fallback)[j].0
                != keys[i],
    decreases keys.len(),
{
    let r = env_pairs_spec(keys, readings, fallback);
    if keys.len() > 0 {
        let ks = keys.drop_last();
        let rs = readings.drop_last();
        let t = env_pairs_spec(ks, rs, fallback);
        law_env_pairs_use_each_keys_own_value(ks, rs, fallback);
        let n = keys.len() - 1;
        assert forall|j: int| 0 <= j < r.len() implies exists|i: int|
            0 <= i < keys.len() && (#[trigger] r[j]).0 == keys[i]
                && value_from_spec(readings[i], fallback, keys[i]) == Ok::<Seq<char>, Seq<char>>(r[j].1) by {
            if j < t.len() {
                assert(r[j] == t[j]);
                let i = choose|i: int| 0 <= i < ks.len() && (#[trigger] t[j]).0 == ks[i]
                    && value_from_spec(rs[i], fallback, ks[i]) == Ok::<Seq<char>, Seq<char>>(t[j].1);
                assert(ks[i] == keys[i] && rs[i] == readings[i]);
            } else {
                assert(r[j].0 == keys[n]);
            }
        }
        assert forall|i: int| 0 <= i < keys.len() implies (#[trigger] value_from_spec(readings[i], fallback, keys[i]) matches Ok(v)
            ==> r.contains((keys[i], v))) by {
            if i < n {
                assert(ks[i] == keys[i] && rs[i] == readings[i]);
                if value_from_spec(readings[i], fallback, keys[i]) is Ok {
                    let v = value_from_spec(readings[i], fallback, keys[i])->Ok_0;
                    assert(value_from_spec(rs[i], fallback, ks[i]) == Ok::<Seq<char>, Seq<char>>(v));
                    assert(t.contains((keys[i], v)));
                    let j = choose|j: int| 0 <= j < t.len() && t[j] == (keys[i], v);
                    assert(r[j] == t[j]);
                }
            } else {
                if value_from_spec(readings[i], fallback, keys[i]) is Ok {
                    assert(r[r.len() - 1] == (keys[i], value_from_spec(readings[i], fallback, keys[i])->Ok_0));
                }
            }
        }
        assert forall|i: int| 0 <= i < keys.len() && (forall|k: int| 0 <= k < keys.len() && k != i ==> keys[k] != keys[i])
            && #[trigger] value_from_spec(readings[i], fallback, keys[i]) is Err implies forall|j: int|
            0 <= j < r.len() ==> r[j].0 != keys[i] by {
            assert forall|j: int| 0 <= j < r.len() implies r[j].0 != keys[i] by {
                if j < t.len() {
                    assert(r[j] == t[j]);
                    if i < n {
                        assert(ks[i] == keys[i] && rs[i] == readings[i]);
                        assert forall|k: int| 0 <= k < ks.len() && k != i implies ks[k] != ks[i] by {
                            assert(ks[k] == keys[k]);
                        }
                        assert(value_from_spec(rs[i], fallback, ks[i]) is Err);
                    } else {
                        let i2 = choose|i2: int| 0 <= i2 < ks.len() && (#[trigger] t[j]).0 == ks[i2]
                            && value_from_spec(rs[i2], fallback, ks[i2]) == Ok::<Seq<char>, Seq<char>>(t[j].1);
                        assert(ks[i2] == keys[i2]);
                    }
                } else {
                    assert(r[j].0 == keys[n]);
                    if i != n {
                        assert(keys[n] != keys[i]);
                    }
                }
            }
        }
    }
}

/// Reading the fallback store gives back what was last written under a key;
/// writing or deleting a key leaves the other keys as they were; after a
/// deletion the key has no value.
pub proof fn law_fallback_read_after_write(
    store: Map<Seq<char>, Seq<char>>,
    key: Seq<char>,
    value: Seq<char>,
    other: Seq<char>,
)
    requires
        other != key,
    ensures
        store.insert(key, value).contains_key(key),
        store.insert(key, value)[key] == value,
        !store.remove(key).contains_key(key),
        store.insert(key, value).contains_key(other) == store.contains_key(other),
        store.contains_key(other) ==> store.insert(key, value)[other] == store[other],
        store.remove(key).contains_key(other) == store.contains_key(other),
        store.contains_key(other) ==> store.remove(key)[other] == store[other],
{
}

// ---------------------------------------------------------------------------
// The event log
// ---------------------------------------------------------------------------

/// Appending to the event log keeps at most [`MAX_LOG_ENTRIES`] entries,
/// puts the new entry last, and keeps the newest earlier entries in order.
pub proof fn law_log_keeps_newest(log: Seq<LogEntryView>, e: LogEntryView)
    ensures
        appended_log(log, e).len() <= MAX_LOG_ENTRIES,
        appended_log(log, e).last() == e,
        log.len() + 1 > MAX_LOG_ENTRIES ==> appended_log(log, e).len() == MAX_LOG_ENTRIES,
        log.len() + 1 <= MAX_LOG_ENTRIES ==> appended_log(log, e).len() == log.len() + 1,
        forall|i: int| 0 <= i < appended_log(log, e).len() - 1 ==> #[trigger] appended_log(log, e)[i]
            == log[log.len() + 1 - appended_log(log, e).len() + i],
{
}

} // verus!
