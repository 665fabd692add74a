//! How containers become routes: which containers are routed, on which ports,
//! under which subdomains, and how subdomain collisions are resolved.
use vstd::prelude::*;

use crate::clock::{short_id_spec, uuid_short};
use crate::docker::{ContainerInfo, ContainerInfoView, CADDY_CONTAINER_NAME};
use crate::models::{
    copy_gateway, copy_gateways, Gateway, GatewaySource, GatewayView, PortMappingView,
    StaticRouteRule, StaticRouteRuleView,
};
use crate::text::{
    all_ascii, ascii_lower, is_ascii_char,
    all_digits, chars_of, concat3, decimal, decimal_string, digit_value, digits_value,
    is_ascii_alnum, is_digit, lowercase, owned, parse_u16_spec, replace_all, replace_str,
    starts_with, str_eq, string_of, to_lowercase,
};

verus! {

// ---------------------------------------------------------------------------
// Which containers are routed
// ---------------------------------------------------------------------------

/// The label that opts a container out of routing when it is `"false"`.
pub const PROXY_LABEL: &'static str = "pulse.proxy";

/// The label that names the port to route.
pub const PORT_LABEL: &'static str = "pulse.port";

/// The label that names the subdomain for the port of [`PORT_LABEL`].
pub const SUBDOMAIN_LABEL: &'static str = "pulse.subdomain";

/// A container is left alone when it is the Caddy container itself, or when
/// it is labelled `pulse.proxy=false`.
pub open spec fn should_skip_spec(info: ContainerInfoView) -> bool {
    ||| info.name == CADDY_CONTAINER_NAME@
    ||| (info.labels.contains_key(PROXY_LABEL@) && info.labels[PROXY_LABEL@] == "false"@)
}

/// Whether the container is left out of routing.
pub fn should_skip(info: &ContainerInfo) -> (r: bool)
    ensures
        r == should_skip_spec(info.deep_view()),
{
    if str_eq(info.name.as_str(), CADDY_CONTAINER_NAME) {
        return true;
    }
    match info.labels.get(PROXY_LABEL) {
        Some(v) => str_eq(v.as_str(), "false"),
        None => false,
    }
}

// ---------------------------------------------------------------------------
// Image patterns
// ---------------------------------------------------------------------------

/// A pattern ending in `*` matches every image that starts with the rest of
/// the pattern; any other pattern matches only the identical image name.
pub open spec fn image_matches_spec(image: Seq<char>, pattern: Seq<char>) -> bool {
    if pattern.len() > 0 && pattern.last() == '*' {
        starts_with(image, pattern.drop_last())
    } else {
        image == pattern
    }
}

/// Whether `image` matches `pattern`.
pub fn image_matches(image: &str, pattern: &str) -> (r: bool)
    ensures
        r == image_matches_spec(image@, pattern@),
{
    let img = chars_of(image);
    let pat = chars_of(pattern);
    let n = pat.len();
    if n > 0 && pat[n - 1] == '*' {
        let k = n - 1;
        if k > img.len() {
            return false;
        }
        let mut i: usize = 0;
        while i < k
            invariant
                k == pat.len() - 1,
                k <= img.len(),
                img@ == image@,
                pat@ == pattern@,
                i <= k,
                forall|j: int| 0 <= j < i ==> img@[j] == pat@[j],
            decreases k - i,
        {
            if img[i] != pat[i] {
                assert(img@.take(k as int)[i as int] != pat@.drop_last()[i as int]);
                return false;
            }
            i = i + 1;
        }
        assert(img@.take(k as int) =~= pat@.drop_last());
        true
    } else {
        str_eq(image, pattern)
    }
}

// ---------------------------------------------------------------------------
// Port numbers in labels
// ---------------------------------------------------------------------------

proof fn lemma_digits_value_push(s: Seq<char>, c: char)
    ensures
        digits_value(s.push(c)) == digits_value(s) * 10 + digit_value(c),
{
    assert(s.push(c).drop_last() =~= s);
}

/// Parses a port number as `u16::from_str` does.
pub fn parse_u16(s: &str) -> (r: Option<u16>)
    ensures
        r == parse_u16_spec(s@),
{
    let cs = chars_of(s);
    let n = cs.len();
    let start: usize = if n > 0 && cs[0] == '+' { 1 } else { 0 };
    let ghost digits = cs@.skip(start as int);
    assert(digits =~= (if s@.len() > 0 && s@[0] == '+' { s@.drop_first() } else { s@ }));
    if start == n {
        return None;
    }
    let mut acc: u32 = 0;
    let mut too_big = false;
    let mut i: usize = start;
    while i < n
        invariant
            start <= i <= n,
            n == cs.len(),
            cs@ == s@,
            digits == cs@.skip(start as int),
            digits == (if s@.len() > 0 && s@[0] == '+' { s@.drop_first() } else { s@ }),
            forall|j: int| start <= j < i ==> is_digit(#[trigger] cs@[j]),
            !too_big ==> acc as nat == digits_value(digits.take(i - start)),
            !too_big ==> acc <= 0xffff,
            too_big ==> digits_value(digits.take(i - start)) > 0xffff,
        decreases n - i,
    {
        let c = cs[i];
        if !('0' <= c && c <= '9') {
            assert(!is_digit(digits[i - start]));
            return None;
        }
        let ghost prefix = digits.take(i - start);
        assert(digits.take(i - start + 1) =~= prefix.push(c));
        proof {
            lemma_digits_value_push(prefix, c);
        }
        if !too_big {
            let d = (c as u32) - ('0' as u32);
            acc = acc * 10 + d;
            if acc > 0xffff {
                too_big = true;
            }
        }
        i = i + 1;
    }
    assert(digits.take(n - start) =~= digits);
    assert(all_digits(digits)) by {
        assert forall|j: int| 0 <= j < digits.len() implies is_digit(#[trigger] digits[j]) by {
            assert(digits[j] == cs@[j + start]);
        }
    }
    if too_big {
        None
    } else {
        Some(acc as u16)
    }
}

// ---------------------------------------------------------------------------
// Subdomain labels
// ---------------------------------------------------------------------------

/// How one character of a (lower-cased) name enters a DNS label: `_` and `.`
/// become `-`; ASCII letters, digits and `-` stay; anything else is dropped.
pub open spec fn normalize_char(c: char) -> Option<char> {
    if c == '_' || c == '.' {
        Some('-')
    } else if is_ascii_alnum(c) || c == '-' {
        Some(c)
    } else {
        None
    }
}

/// The characters of `s` after [`normalize_char`].
pub open spec fn label_chars(s: Seq<char>) -> Seq<char>
    decreases s.len(),
{
    if s.len() == 0 {
        Seq::empty()
    } else {
        let r = label_chars(s.drop_last());
        match normalize_char(s.last()) {
            Some(c) => r.push(c),
            None => r,
        }
    }
}

/// `s` with every run of consecutive hyphens collapsed into one.
pub open spec fn collapse_hyphens(s: Seq<char>) -> Seq<char>
    decreases s.len(),
{
    if s.len() == 0 {
        Seq::empty()
    } else {
        let r = collapse_hyphens(s.drop_last());
        if s.last() == '-' && r.len() > 0 && r.last() == '-' {
            r
        } else {
            r.push(s.last())
        }
    }
}

/// `s` without its leading hyphens.
pub open spec fn trim_leading_hyphens(s: Seq<char>) -> Seq<char>
    decreases s.len(),
{
    if s.len() > 0 && s[0] == '-' {
        trim_leading_hyphens(s.drop_first())
    } else {
        s
    }
}

/// `s` without its trailing hyphens.
pub open spec fn trim_trailing_hyphens(s: Seq<char>) -> Seq<char>
    decreases s.len(),
{
    if s.len() > 0 && s.last() == '-' {
        trim_trailing_hyphens(s.drop_last())
    } else {
        s
    }
}

/// A character that may stand in a DNS label: an ASCII letter, digit or `-`.
pub open spec fn label_char(c: char) -> bool {
    is_ascii_alnum(c) || c == '-'
}

/// `c` is not an ASCII capital letter.
pub open spec fn not_upper(c: char) -> bool {
    !('A' <= c <= 'Z')
}

/// `s` is a well-formed DNS label body: only ASCII letters, digits and
/// hyphens, no hyphen at either end, and no two hyphens in a row.
pub open spec fn valid_label(s: Seq<char>) -> bool {
    &&& forall|i: int| 0 <= i < s.len() ==> label_char(#[trigger] s[i])
    &&& s.len() > 0 ==> s[0] != '-' && s.last() != '-'
    &&& forall|i: int| 0 <= i < s.len() - 1 ==> !(#[trigger] s[i] == '-' && s[i + 1] == '-')
}

/// The DNS label made from an already lower-cased name.
pub open spec fn sanitize_spec(lower: Seq<char>) -> Seq<char> {
    trim_trailing_hyphens(trim_leading_hyphens(collapse_hyphens(label_chars(lower))))
}

/// The DNS label that `sanitize_subdomain` makes of `name`.
pub open spec fn sanitize_subdomain_spec(name: Seq<char>) -> Seq<char> {
    sanitize_spec(to_lowercase(name))
}

/// Turns an already lower-cased name into a DNS label: `_` and `.` become
/// `-`, characters other than ASCII letters, digits and `-` are dropped,
/// runs of hyphens collapse to one, and leading and trailing hyphens go.
pub fn sanitize_lowercased(lower: &str) -> (r: String)
    ensures
        r@ == sanitize_spec(lower@),
{
    let cs = chars_of(lower);
    let n = cs.len();
    // Map and filter.
    let mut filtered: Vec<char> = Vec::new();
    let mut i: usize = 0;
    while i < n
        invariant
            i <= n,
            n == cs.len(),
            filtered@ == label_chars(cs@.take(i as int)),
        decreases n - i,
    {
        let c = cs[i];
        assert(cs@.take(i + 1).drop_last() =~= cs@.take(i as int));
        if c == '_' || c == '.' {
            filtered.push('-');
        } else if ('a' <= c && c <= 'z') || ('A' <= c && c <= 'Z') || ('0' <= c && c <= '9')
            || c == '-' {
            filtered.push(c);
        }
        i = i + 1;
    }
    assert(cs@.take(n as int) =~= cs@);
    // Collapse runs of hyphens.
    let m = filtered.len();
    let mut collapsed: Vec<char> = Vec::new();
    let mut i: usize = 0;
    while i < m
        invariant
            i <= m,
            m == filtered.len(),
            collapsed@ == collapse_hyphens(filtered@.take(i as int)),
        decreases m - i,
    {
        let c = filtered[i];
        assert(filtered@.take(i + 1).drop_last() =~= filtered@.take(i as int));
        let k = collapsed.len();
        if c == '-' && k > 0 && collapsed[k - 1] == '-' {
        } else {
            collapsed.push(c);
        }
        i = i + 1;
    }
    assert(filtered@.take(m as int) =~= filtered@);
    // Trim hyphens at both ends.
    let len = collapsed.len();
    let ghost full = collapsed@;
    let mut start: usize = 0;
    assert(full.skip(0) =~= full);
    while start < len && collapsed[start] == '-'
        invariant
            start <= len,
            len == collapsed.len(),
            full == collapsed@,
            trim_leading_hyphens(full) == trim_leading_hyphens(full.skip(start as int)),
        decreases len - start,
    {
        assert(full.skip(start as int).drop_first() =~= full.skip(start + 1));
        start = start + 1;
    }
    assert(trim_leading_hyphens(full) == full.skip(start as int));
    let mut end: usize = len;
    while end > start && collapsed[end - 1] == '-'
        invariant
            start <= end <= len,
            len == collapsed.len(),
            full == collapsed@,
            trim_trailing_hyphens(full.skip(start as int)) == trim_trailing_hyphens(
                full.subrange(start as int, end as int),
            ),
        decreases end,
    {
        assert(full.subrange(start as int, end as int).drop_last() =~= full.subrange(
            start as int,
            end - 1,
        ));
        end = end - 1;
    }
    assert(full.skip(start as int) =~= full.subrange(start as int, len as int));
    let mut out: Vec<char> = Vec::new();
    let mut j: usize = start;
    while j < end
        invariant
            start <= j <= end,
            end <= len,
            len == collapsed.len(),
            out@ == collapsed@.subrange(start as int, j as int),
        decreases end - j,
    {
        out.push(collapsed[j]);
        j = j + 1;
        assert(out@ =~= collapsed@.subrange(start as int, j as int));
    }
    string_of(&out)
}

/// Sanitizes a name into a valid DNS subdomain label: lower-cases it, turns
/// `_` and `.` into `-`, drops every character that is not an ASCII letter,
/// digit or `-`, collapses runs of hyphens and trims hyphens at both ends.
pub fn sanitize_subdomain(name: &str) -> (r: String)
    ensures
        r@ == sanitize_subdomain_spec(name@),
        all_ascii(name@) ==> r@ == sanitize_spec(ascii_lower(name@)),
        valid_label(r@),
        forall|i: int| 0 <= i < r@.len() ==> not_upper(#[trigger] r@[i]),
        all_ascii(r@),
{
    let lower = lowercase(name);
    let r = sanitize_lowercased(lower.as_str());
    proof {
        assert forall|i: int| 0 <= i < lower@.len() implies not_upper(#[trigger] lower@[i]) by {
            assert(!('A' <= lower@[i] <= 'Z'));
        }
        crate::laws::law_sanitized_label_is_valid(lower@);
        assert forall|i: int| 0 <= i < r@.len() implies is_ascii_char(#[trigger] r@[i]) by {
            assert(label_char(r@[i]));
        }
    }
    r
}

// ---------------------------------------------------------------------------
// Ports to route
// ---------------------------------------------------------------------------

/// The position of the first rule whose pattern matches `image`.
pub open spec fn first_rule_index(image: Seq<char>, rules: Seq<StaticRouteRuleView>) -> Option<int>
    decreases rules.len(),
{
    if rules.len() == 0 {
        None
    } else {
        match first_rule_index(image, rules.drop_last()) {
            Some(i) => Some(i),
            None => if image_matches_spec(image, rules.last().image_pattern) {
                Some(rules.len() - 1)
            } else {
                None
            },
        }
    }
}

/// The value of label `key`, if the container has it.
pub open spec fn label_value(labels: Map<Seq<char>, Seq<char>>, key: Seq<char>) -> Option<Seq<char>> {
    if labels.contains_key(key) {
        Some(labels[key])
    } else {
        None
    }
}

/// The port that the `pulse.port` label names, when it holds a valid port number.
pub open spec fn label_port(labels: Map<Seq<char>, Seq<char>>) -> Option<u16> {
    match label_value(labels, PORT_LABEL@) {
        Some(v) => parse_u16_spec(v),
        None => None,
    }
}

/// The ports to route, each with the subdomain template that overrides the
/// default name: the `pulse.port` label (with `pulse.subdomain`) comes first,
/// then the port mappings of the first rule whose pattern matches the image,
/// then the ports the image exposes.
pub open spec fn resolve_ports_spec(
    info: ContainerInfoView,
    rules: Seq<StaticRouteRuleView>,
) -> Seq<(u16, Option<Seq<char>>)> {
    match label_port(info.labels) {
        Some(p) => seq![(p, label_value(info.labels, SUBDOMAIN_LABEL@))],
        None => match first_rule_index(info.image, rules) {
            Some(i) => rules[i].port_mappings.map_values(
                |pm: PortMappingView| (pm.port, Some(pm.subdomain_template)),
            ),
            None => info.ports.map_values(|p: u16| (p, None::<Seq<char>>)),
        },
    }
}

proof fn lemma_first_rule_prefix(image: Seq<char>, rules: Seq<StaticRouteRuleView>, k: int)
    requires
        0 <= k <= rules.len(),
        first_rule_index(image, rules.take(k)) is Some,
    ensures
        first_rule_index(image, rules) == first_rule_index(image, rules.take(k)),
    decreases rules.len() - k,
{
    if k == rules.len() {
        assert(rules.take(k) =~= rules);
    } else {
        assert(rules.drop_last().take(k) =~= rules.take(k));
        lemma_first_rule_prefix(image, rules.drop_last(), k);
    }
}

/// The ports to route for a container, each with its optional subdomain template.
pub fn resolve_ports(info: &ContainerInfo, route_rules: &Vec<StaticRouteRule>) -> (r: Vec<(u16, Option<String>)>)
    ensures
        r.deep_view() == resolve_ports_spec(info.deep_view(), route_rules.deep_view()),
{
    let ghost rules = route_rules.deep_view();
    if let Some(port_str) = info.labels.get(PORT_LABEL) {
        if let Some(port) = parse_u16(port_str.as_str()) {
            let subdomain = match info.labels.get(SUBDOMAIN_LABEL) {
                Some(v) => Some(v.clone()),
                None => None,
            };
            let r = vec![(port, subdomain)];
            assert(r.deep_view() =~= resolve_ports_spec(info.deep_view(), rules));
            return r;
        }
    }
    let mut i: usize = 0;
    while i < route_rules.len()
        invariant
            i <= route_rules.len(),
            rules == route_rules.deep_view(),
            first_rule_index(info.image@, rules.take(i as int)) is None,
            label_port(info.deep_view().labels) is None,
        decreases route_rules.len() - i,
    {
        let rule = &route_rules[i];
        assert(rules.take(i + 1).drop_last() =~= rules.take(i as int));
        if image_matches(info.image.as_str(), rule.image_pattern.as_str()) {
            proof {
                lemma_first_rule_prefix(info.image@, rules, i + 1);
            }
            let ghost pms = rule.port_mappings.deep_view();
            let mut r: Vec<(u16, Option<String>)> = Vec::new();
            let mut j: usize = 0;
            while j < rule.port_mappings.len()
                invariant
                    j <= rule.port_mappings.len(),
                    pms == rule.port_mappings.deep_view(),
                    r.len() == j,
                    forall|q: int| 0 <= q < j ==> #[trigger] r@[q].deep_view() == (pms[q].port, Some(pms[q].subdomain_template)),
                decreases rule.port_mappings.len() - j,
            {
                let pm = &rule.port_mappings[j];
                r.push((pm.port, Some(pm.subdomain_template.clone())));
                j = j + 1;
            }
            assert(r.deep_view() =~= resolve_ports_spec(info.deep_view(), rules));
            return r;
        }
        i = i + 1;
    }
    assert(rules.take(route_rules.len() as int) =~= rules);
    let mut r: Vec<(u16, Option<String>)> = Vec::new();
    let mut j: usize = 0;
    while j < info.ports.len()
        invariant
            j <= info.ports.len(),
            r.len() == j,
            forall|q: int| 0 <= q < j ==> #[trigger] r@[q].deep_view() == (info.ports@[q], None::<Seq<char>>),
        decreases info.ports.len() - j,
    {
        r.push((info.ports[j], None));
        j = j + 1;
    }
    assert(r.deep_view() =~= resolve_ports_spec(info.deep_view(), rules));
    r
}

// ---------------------------------------------------------------------------
// Subdomain collisions
// ---------------------------------------------------------------------------

/// Some route in `routes` uses the subdomain `name`.
pub open spec fn name_taken(routes: Seq<GatewayView>, name: Seq<char>) -> bool {
    exists|i: int| 0 <= i < routes.len() && #[trigger] routes[i].subdomain == name
}

/// The `k`-th numbered variant of `base`: `base-k`.
pub open spec fn numbered(base: Seq<char>, k: nat) -> Seq<char> {
    base + "-"@ + decimal(k)
}

/// The first of `base-k`, ..., `base-100` that no route in `taken` uses.
pub open spec fn free_numbered_from(base: Seq<char>, taken: Seq<GatewayView>, k: nat) -> Option<Seq<char>>
    decreases 101 - k,
{
    if k > 100 {
        None
    } else if !name_taken(taken, numbered(base, k)) {
        Some(numbered(base, k))
    } else {
        free_numbered_from(base, taken, k + 1)
    }
}

/// `base` itself when it is free, otherwise the first free one of `base-2`,
/// ..., `base-100`.
pub open spec fn free_name_spec(base: Seq<char>, taken: Seq<GatewayView>) -> Option<Seq<char>> {
    if !name_taken(taken, base) {
        Some(base)
    } else {
        free_numbered_from(base, taken, 2)
    }
}

/// `r` is what collision resolution may give for `base`: the free name when
/// there is one, else `base-` followed by the short identifier of some
/// millisecond count (the clock's).
pub open spec fn collision_choice(base: Seq<char>, taken: Seq<GatewayView>, r: Seq<char>) -> bool {
    match free_name_spec(base, taken) {
        Some(n) => r == n,
        None => exists|ms: u128| r == base + "-"@ + #[trigger] short_id_spec(ms),
    }
}

proof fn lemma_numbered_longer(base: Seq<char>, taken: Seq<GatewayView>, k: nat)
    ensures
        free_numbered_from(base, taken, k) matches Some(n) ==> n.len() > base.len(),
    decreases 101 - k,
{
    if k <= 100 && name_taken(taken, numbered(base, k)) {
        lemma_numbered_longer(base, taken, k + 1);
    }
}

/// A name chosen by collision resolution differs from its base exactly when
/// the base was already taken.
pub proof fn lemma_choice_renames(base: Seq<char>, taken: Seq<GatewayView>, r: Seq<char>)
    requires
        collision_choice(base, taken, r),
    ensures
        (r != base) == name_taken(taken, base),
{
    lemma_numbered_longer(base, taken, 2);
    if name_taken(taken, base) {
        match free_numbered_from(base, taken, 2) {
            Some(n) => {
                assert(r.len() > base.len());
            },
            None => {
                let ms = choose|ms: u128| r == base + "-"@ + #[trigger] short_id_spec(ms);
                assert(r.len() > base.len());
            },
        }
    }
}

/// Whether some route of `routes` uses `name`.
fn taken_in(name: &str, routes: &Vec<Gateway>) -> (r: bool)
    ensures
        r == name_taken(routes.deep_view(), name@),
{
    let ghost rv = routes.deep_view();
    let mut i: usize = 0;
    while i < routes.len()
        invariant
            i <= routes.len(),
            rv == routes.deep_view(),
            forall|j: int| 0 <= j < i ==> #[trigger] rv[j].subdomain != name@,
        decreases routes.len() - i,
    {
        if str_eq(routes[i].subdomain.as_str(), name) {
            assert(rv[i as int].subdomain == name@);
            return true;
        }
        i = i + 1;
    }
    false
}

proof fn lemma_taken_concat(a: Seq<GatewayView>, b: Seq<GatewayView>, name: Seq<char>)
    ensures
        name_taken(a + b, name) == (name_taken(a, name) || name_taken(b, name)),
{
    if name_taken(a + b, name) {
        let i = choose|i: int| 0 <= i < (a + b).len() && #[trigger] (a + b)[i].subdomain == name;
        if i < a.len() {
            assert(a[i].subdomain == name);
        } else {
            assert(b[i - a.len()].subdomain == name);
        }
    }
    if name_taken(a, name) {
        let i = choose|i: int| 0 <= i < a.len() && #[trigger] a[i].subdomain == name;
        assert((a + b)[i].subdomain == name);
    }
    if name_taken(b, name) {
        let i = choose|i: int| 0 <= i < b.len() && #[trigger] b[i].subdomain == name;
        assert((a + b)[i + a.len()].subdomain == name);
    }
}

/// Whether `name` is used by a route of any of the three lists.
fn is_taken(name: &str, a: &Vec<Gateway>, b: &Vec<Gateway>, c: &Vec<Gateway>) -> (r: bool)
    ensures
        r == name_taken(a.deep_view() + b.deep_view() + c.deep_view(), name@),
{
    proof {
        lemma_taken_concat(a.deep_view(), b.deep_view(), name@);
        lemma_taken_concat(a.deep_view() + b.deep_view(), c.deep_view(), name@);
    }
    taken_in(name, a) || taken_in(name, b) || taken_in(name, c)
}

/// The first free subdomain among `base`, `base-2`, ..., `base-100`, where a
/// subdomain is free when no route of the three lists uses it.
pub fn first_free_name(
    base: &str,
    existing_auto: &Vec<Gateway>,
    static_routes: &Vec<Gateway>,
    pending: &Vec<Gateway>,
) -> (r: Option<String>)
    ensures
        r.deep_view() == free_name_spec(
            base@,
            existing_auto.deep_view() + static_routes.deep_view() + pending.deep_view(),
        ),
{
    let ghost taken = existing_auto.deep_view() + static_routes.deep_view() + pending.deep_view();
    if !is_taken(base, existing_auto, static_routes, pending) {
        return Some(owned(base));
    }
    let mut counter: u64 = 2;
    while counter <= 100
        invariant
            2 <= counter <= 101,
            taken == existing_auto.deep_view() + static_routes.deep_view() + pending.deep_view(),
            free_name_spec(base@, taken) == free_numbered_from(base@, taken, counter as nat),
        decreases 101 - counter,
    {
        let num = decimal_string(counter);
        let candidate = concat3(base, "-", num.as_str());
        if !is_taken(candidate.as_str(), existing_auto, static_routes, pending) {
            return Some(candidate);
        }
        counter = counter + 1;
    }
    None
}

/// A subdomain for `base` that no route of the three lists uses: `base`
/// itself, else the first free one of `base-2`, ..., `base-100`, else `base-`
/// followed by a time-derived hexadecimal number.
pub fn resolve_collision(
    base: &str,
    existing_auto: &Vec<Gateway>,
    static_routes: &Vec<Gateway>,
    pending: &Vec<Gateway>,
) -> (r: String)
    ensures
        collision_choice(
            base@,
            existing_auto.deep_view() + static_routes.deep_view() + pending.deep_view(),
            r@,
        ),
{
    match first_free_name(base, existing_auto, static_routes, pending) {
        Some(name) => name,
        None => {
            let suffix = uuid_short();
            concat3(base, "-", suffix.as_str())
        },
    }
}

// ---------------------------------------------------------------------------
// Routes of a container
// ---------------------------------------------------------------------------

/// The placeholder for the container's name in a subdomain template.
pub const NAME_PLACEHOLDER: &'static str = "{name}";

/// The subdomain before sanitizing for the `i`-th of `ports`: the template
/// with `{name}` replaced by the container's name, else the bare name when
/// there is one port, else `name-port`.
pub open spec fn raw_subdomain(name: Seq<char>, ports: Seq<(u16, Option<Seq<char>>)>, i: int) -> Seq<char> {
    match ports[i].1 {
        Some(tmpl) => replace_all(tmpl, NAME_PLACEHOLDER@, name),
        None => if ports.len() == 1 {
            name
        } else {
            name + "-"@ + decimal(ports[i].0 as nat)
        },
    }
}

/// The `q`-th of `routes` is right for the `q`-th of `ports`: it leads to the
/// container's name on that port, carries the container's id and name, and
/// its subdomain is the sanitized raw subdomain made free against `taken`
/// and the routes before it.
pub open spec fn auto_route_at(
    info: ContainerInfoView,
    ports: Seq<(u16, Option<Seq<char>>)>,
    taken: Seq<GatewayView>,
    routes: Seq<GatewayView>,
    q: int,
) -> bool {
    &&& routes[q].target_host == info.name
    &&& routes[q].port == ports[q].0
    &&& routes[q].source == GatewaySource::Auto
    &&& routes[q].container_id == Some(info.id)
    &&& routes[q].container_name == Some(info.name)
    &&& collision_choice(
        sanitize_subdomain_spec(raw_subdomain(info.name, ports, q)),
        taken + routes.take(q),
        routes[q].subdomain,
    )
}

/// `routes` is what `build_auto_routes` may give for the container: one
/// route per port to route, in order, each as [`auto_route_at`] says, with
/// the existing discovered and static routes counted as taken.
pub open spec fn auto_routes_spec(
    info: ContainerInfoView,
    rules: Seq<StaticRouteRuleView>,
    existing_auto: Seq<GatewayView>,
    static_routes: Seq<GatewayView>,
    routes: Seq<GatewayView>,
) -> bool {
    let ports = resolve_ports_spec(info, rules);
    &&& routes.len() == ports.len()
    &&& forall|q: int| 0 <= q < routes.len() ==> #[trigger] auto_route_at(
        info,
        ports,
        existing_auto + static_routes,
        routes,
        q,
    )
}

/// The subdomain before sanitizing for the `i`-th of `ports` of the
/// container named `name`.
fn raw_subdomain_at(name: &str, ports: &Vec<(u16, Option<String>)>, i: usize) -> (r: String)
    requires
        i < ports.len(),
    ensures
        r@ == raw_subdomain(name@, ports.deep_view(), i as int),
{
    proof {
        reveal_strlit("{name}");
    }
    match &ports[i].1 {
        Some(tmpl) => replace_str(tmpl.as_str(), NAME_PLACEHOLDER, name),
        None => if ports.len() == 1 {
            owned(name)
        } else {
            let num = decimal_string(ports[i].0 as u64);
            concat3(name, "-", num.as_str())
        },
    }
}

/// The subdomain each port to route of the container would get when no
/// other route uses it: the sanitized raw subdomain.
pub open spec fn subdomain_bases_spec(info: ContainerInfoView, rules: Seq<StaticRouteRuleView>) -> Seq<Seq<char>> {
    let ports = resolve_ports_spec(info, rules);
    Seq::new(ports.len(), |q: int| sanitize_subdomain_spec(raw_subdomain(info.name, ports, q)))
}

/// The subdomain each port to route of the container would get when no
/// other route uses it, in the order of the ports.
pub fn subdomain_bases(info: &ContainerInfo, route_rules: &Vec<StaticRouteRule>) -> (r: Vec<String>)
    ensures
        r.deep_view() == subdomain_bases_spec(info.deep_view(), route_rules.deep_view()),
{
    let ports = resolve_ports(info, route_rules);
    let ghost pv = ports.deep_view();
    let mut r: Vec<String> = Vec::new();
    let mut i: usize = 0;
    while i < ports.len()
        invariant
            i <= ports.len(),
            pv == ports.deep_view(),
            r.len() == i,
            forall|q: int| 0 <= q < i ==> #[trigger] r@[q]@ == sanitize_subdomain_spec(raw_subdomain(info.name@, pv, q)),
        decreases ports.len() - i,
    {
        let raw = raw_subdomain_at(info.name.as_str(), &ports, i);
        r.push(sanitize_subdomain(raw.as_str()));
        i = i + 1;
    }
    assert(r.deep_view() =~= subdomain_bases_spec(info.deep_view(), route_rules.deep_view()));
    r
}

/// The routes for a newly seen container.
pub fn build_auto_routes(
    info: &ContainerInfo,
    route_rules: &Vec<StaticRouteRule>,
    existing_auto: &Vec<Gateway>,
    static_routes: &Vec<Gateway>,
) -> (r: Vec<Gateway>)
    ensures
        auto_routes_spec(
            info.deep_view(),
            route_rules.deep_view(),
            existing_auto.deep_view(),
            static_routes.deep_view(),
            r.deep_view(),
        ),
{
    let ports = resolve_ports(info, route_rules);
    let ghost pv = ports.deep_view();
    let ghost iv = info.deep_view();
    let ghost taken0 = existing_auto.deep_view() + static_routes.deep_view();
    let mut routes: Vec<Gateway> = Vec::new();
    if ports.len() == 0 {
        assert(routes.deep_view() =~= Seq::<GatewayView>::empty());
        return routes;
    }
    let mut i: usize = 0;
    while i < ports.len()
        invariant
            i <= ports.len(),
            pv == ports.deep_view(),
            iv == info.deep_view(),
            taken0 == existing_auto.deep_view() + static_routes.deep_view(),
            pv == resolve_ports_spec(iv, route_rules.deep_view()),
            routes.len() == i,
            forall|q: int| 0 <= q < i ==> #[trigger] auto_route_at(iv, pv, taken0, routes.deep_view(), q),
        decreases ports.len() - i,
    {
        let port = ports[i].0;
        let raw = raw_subdomain_at(info.name.as_str(), &ports, i);
        let base = sanitize_subdomain(raw.as_str());
        let subdomain = resolve_collision(base.as_str(), existing_auto, static_routes, &routes);
        let ghost before = routes.deep_view();
        routes.push(Gateway {
            subdomain,
            target_host: info.name.clone(),
            port,
            source: GatewaySource::Auto,
            container_id: Some(info.id.clone()),
            container_name: Some(info.name.clone()),
        });
        proof {
            let rv = routes.deep_view();
            assert(rv.take(i as int) =~= before);
            assert(auto_route_at(iv, pv, taken0, rv, i as int));
            assert forall|q: int| 0 <= q < i + 1 implies #[trigger] auto_route_at(iv, pv, taken0, rv, q) by {
                if q < i {
                    assert(rv.take(q) =~= before.take(q));
                    assert(rv[q] == before[q]);
                    assert(auto_route_at(iv, pv, taken0, before, q));
                }
            }
        }
        i = i + 1;
    }
    routes
}

/// All routes: the static ones first, then the discovered ones, in order.
pub fn combine_routes(static_routes: &Vec<Gateway>, auto_routes: &Vec<Gateway>) -> (r: Vec<Gateway>)
    ensures
        r.deep_view() == static_routes.deep_view() + auto_routes.deep_view(),
{
    let mut combined = copy_gateways(static_routes);
    let ghost first = combined.deep_view();
    let mut i: usize = 0;
    while i < auto_routes.len()
        invariant
            i <= auto_routes.len(),
            first == static_routes.deep_view(),
            combined.deep_view() == first + auto_routes.deep_view().take(i as int),
        decreases auto_routes.len() - i,
    {
        let g = copy_gateway(&auto_routes[i]);
        let ghost before = combined.deep_view();
        combined.push(g);
        assert(combined.deep_view() =~= before.push(g.deep_view()));
        assert(auto_routes.deep_view().take(i + 1) =~= auto_routes.deep_view().take(i as int).push(g.deep_view()));
        i = i + 1;
    }
    assert(auto_routes.deep_view().take(auto_routes.len() as int) =~= auto_routes.deep_view());
    combined
}

} // verus!
