//! What the gateway knows of Docker: the names it uses, the routing facts it
//! reads from a container, and the decisions it takes on what Docker reports.
use vstd::prelude::*;

use crate::routing::parse_u16;
use crate::string_map::StringMap;
use crate::text::{chars_of, concat3, contains_seq, contains_str, owned, parse_u16_spec, str_eq, string_of};

verus! {

/// The Docker network that Caddy and the routed containers share.
pub const NETWORK_NAME: &'static str = "pulse-gateway";

/// The name of the Caddy container that the gateway manages.
pub const CADDY_CONTAINER_NAME: &'static str = "pulse-caddy";

/// Information extracted from a running container for routing purposes.
#[derive(Debug)]
pub struct ContainerInfo {
    pub id: String,
    pub name: String,
    pub image: String,
    pub labels: StringMap,
    pub ports: Vec<u16>,
    pub on_network: bool,
}

/// The mathematical value of a [`ContainerInfo`].
pub struct ContainerInfoView {
    pub id: Seq<char>,
    pub name: Seq<char>,
    pub image: Seq<char>,
    pub labels: Map<Seq<char>, Seq<char>>,
    pub ports: Seq<u16>,
    pub on_network: bool,
}

impl DeepView for ContainerInfo {
    type V = ContainerInfoView;

    open spec fn deep_view(&self) -> ContainerInfoView {
        ContainerInfoView {
            id: self.id@,
            name: self.name@,
            image: self.image@,
            labels: self.labels@,
            ports: self.ports@,
            on_network: self.on_network,
        }
    }
}

/// The environment entry that makes Caddy's admin API listen on all
/// interfaces, so that the host can reach it.
pub const CADDY_ADMIN_ENV: &'static str = "CADDY_ADMIN=0.0.0.0:2019";

// ---------------------------------------------------------------------------
// Error messages
// ---------------------------------------------------------------------------

/// The message shown for a Docker error whose text is `err`: a hint to start
/// Docker when the text shows that Docker could not be reached, otherwise
/// the context followed by the error text.
pub open spec fn docker_err_spec(context: Seq<char>, err: Seq<char>) -> Seq<char> {
    if contains_seq(err, "client error (Connect)"@) || contains_seq(err, "No such file or directory"@)
        || contains_seq(err, "connection refused"@) {
        "Docker does not appear to be running. Please start Docker Desktop and try again."@
    } else {
        context + ": "@ + err
    }
}

/// The message shown for a Docker error with text `err` met while doing `context`.
pub fn docker_err(context: &str, err: &str) -> (r: String)
    ensures
        r@ == docker_err_spec(context@, err@),
{
    if contains_str(err, "client error (Connect)") || contains_str(err, "No such file or directory")
        || contains_str(err, "connection refused") {
        owned("Docker does not appear to be running. Please start Docker Desktop and try again.")
    } else {
        concat3(context, ": ", err)
    }
}

// ---------------------------------------------------------------------------
// The shared network
// ---------------------------------------------------------------------------

/// Whether one of the networks that Docker lists is the gateway's network.
pub fn network_exists(names: &Vec<Option<String>>) -> (r: bool)
    ensures
        r == exists|i: int| 0 <= i < names.len() && #[trigger] names.deep_view()[i] == Some(NETWORK_NAME@),
{
    let ghost nv = names.deep_view();
    let mut i: usize = 0;
    while i < names.len()
        invariant
            i <= names.len(),
            nv == names.deep_view(),
            forall|j: int| 0 <= j < i ==> #[trigger] nv[j] != Some(NETWORK_NAME@),
        decreases names.len() - i,
    {
        if let Some(n) = &names[i] {
            if str_eq(n.as_str(), NETWORK_NAME) {
                assert(nv[i as int] == Some(NETWORK_NAME@));
                return true;
            }
        }
        i = i + 1;
    }
    false
}

/// Whether a container is on the gateway's network, given the names of the
/// networks it is attached to.
pub fn attached_to_network(networks: &Vec<String>) -> (r: bool)
    ensures
        r == networks.deep_view().contains(NETWORK_NAME@),
{
    let ghost nv = networks.deep_view();
    let mut i: usize = 0;
    while i < networks.len()
        invariant
            i <= networks.len(),
            nv == networks.deep_view(),
            forall|j: int| 0 <= j < i ==> #[trigger] nv[j] != NETWORK_NAME@,
        decreases networks.len() - i,
    {
        if str_eq(networks[i].as_str(), NETWORK_NAME) {
            assert(nv[i as int] == NETWORK_NAME@);
            return true;
        }
        i = i + 1;
    }
    false
}

// ---------------------------------------------------------------------------
// The Caddy container
// ---------------------------------------------------------------------------

/// The `KEY=value` entry of an environment variable.
pub open spec fn env_entry(k: Seq<char>, v: Seq<char>) -> Seq<char> {
    k + "="@ + v
}

/// The environment of the Caddy container: the admin setting, then one
/// `KEY=value` entry per variable, in order.
pub open spec fn caddy_env_spec(env_vars: Seq<(Seq<char>, Seq<char>)>) -> Seq<Seq<char>> {
    seq![CADDY_ADMIN_ENV@] + env_vars.map_values(|kv: (Seq<char>, Seq<char>)| env_entry(kv.0, kv.1))
}

/// The environment of the Caddy container for the given variables.
pub fn caddy_env(env_vars: &Vec<(String, String)>) -> (r: Vec<String>)
    ensures
        r.deep_view() == caddy_env_spec(env_vars.deep_view()),
{
    let ghost ev = env_vars.deep_view();
    let mut r: Vec<String> = Vec::new();
    r.push(owned(CADDY_ADMIN_ENV));
    let mut i: usize = 0;
    while i < env_vars.len()
        invariant
            i <= env_vars.len(),
            ev == env_vars.deep_view(),
            r.len() == i + 1,
            r@[0]@ == CADDY_ADMIN_ENV@,
            forall|j: int| 0 <= j < i ==> #[trigger] r@[j + 1]@ == env_entry(ev[j].0, ev[j].1),
        decreases env_vars.len() - i,
    {
        r.push(concat3(env_vars[i].0.as_str(), "=", env_vars[i].1.as_str()));
        i = i + 1;
    }
    assert(r.deep_view() =~= caddy_env_spec(ev)) by {
        assert forall|j: int| 1 <= j < r.len() implies #[trigger] r.deep_view()[j] == caddy_env_spec(ev)[j] by {
            assert(r@[(j - 1) + 1]@ == env_entry(ev[j - 1].0, ev[j - 1].1));
        }
    }
    r
}

/// `s` is one of the entries of `env`.
pub open spec fn env_has(env: Seq<Seq<char>>, s: Seq<char>) -> bool {
    exists|i: int| 0 <= i < env.len() && #[trigger] env[i] == s
}

/// The Caddy container must be made anew when it runs another image, lacks
/// the admin setting, or lacks one of the expected `KEY=value` entries.
pub open spec fn needs_recreate_spec(
    current_image: Seq<char>,
    current_env: Seq<Seq<char>>,
    expected_image: Seq<char>,
    expected_env: Seq<(Seq<char>, Seq<char>)>,
) -> bool {
    ||| current_image != expected_image
    ||| !env_has(current_env, CADDY_ADMIN_ENV@)
    ||| exists|i: int| 0 <= i < expected_env.len() && !env_has(current_env, #[trigger] env_entry(expected_env[i].0, expected_env[i].1))
}

/// Whether `s` is one of the entries of `env`.
fn env_contains(env: &Vec<String>, s: &str) -> (r: bool)
    ensures
        r == env_has(env.deep_view(), s@),
{
    let ghost ev = env.deep_view();
    let mut i: usize = 0;
    while i < env.len()
        invariant
            i <= env.len(),
            ev == env.deep_view(),
            forall|j: int| 0 <= j < i ==> #[trigger] ev[j] != s@,
        decreases env.len() - i,
    {
        if str_eq(env[i].as_str(), s) {
            assert(ev[i as int] == s@);
            return true;
        }
        i = i + 1;
    }
    false
}

/// Whether the existing Caddy container, running `current_image` with
/// `current_env`, must be made anew for `expected_image` and `expected_env`.
pub fn needs_recreate(
    current_image: &str,
    current_env: &Vec<String>,
    expected_image: &str,
    expected_env: &Vec<(String, String)>,
) -> (r: bool)
    ensures
        r == needs_recreate_spec(current_image@, current_env.deep_view(), expected_image@, expected_env.deep_view()),
{
    let ghost ee = expected_env.deep_view();
    if !str_eq(current_image, expected_image) {
        return true;
    }
    if !env_contains(current_env, CADDY_ADMIN_ENV) {
        return true;
    }
    let mut i: usize = 0;
    while i < expected_env.len()
        invariant
            i <= expected_env.len(),
            ee == expected_env.deep_view(),
            forall|j: int| 0 <= j < i ==> env_has(current_env.deep_view(), #[trigger] env_entry(ee[j].0, ee[j].1)),
        decreases expected_env.len() - i,
    {
        let entry = concat3(expected_env[i].0.as_str(), "=", expected_env[i].1.as_str());
        assert(entry@ == env_entry(ee[i as int].0, ee[i as int].1));
        if !env_contains(current_env, entry.as_str()) {
            assert(!env_has(current_env.deep_view(), env_entry(ee[i as int].0, ee[i as int].1)));
            return true;
        }
        i = i + 1;
    }
    false
}

/// Whether the existing Caddy container must be made anew, given what
/// inspecting it gave: its image and environment, or nothing when the
/// inspection failed (which counts as yes).
pub fn recreate_after_inspect(
    inspected: Option<(String, Vec<String>)>,
    expected_image: &str,
    expected_env: &Vec<(String, String)>,
) -> (r: bool)
    ensures
        inspected is None ==> r,
        inspected matches Some(cur) ==> r == needs_recreate_spec(
            cur.0@,
            cur.1.deep_view(),
            expected_image@,
            expected_env.deep_view(),
        ),
{
    match inspected {
        None => true,
        Some((image, env)) => needs_recreate(image.as_str(), &env, expected_image, expected_env),
    }
}

/// A port of the Caddy container published on the host: the container port
/// (such as `443/tcp`), the host address and the host port.
#[derive(Debug)]
pub struct PortBindingSpec {
    pub container_port: String,
    pub host_ip: String,
    pub host_port: String,
}

/// The mathematical value of a [`PortBindingSpec`].
pub struct PortBindingSpecView {
    pub container_port: Seq<char>,
    pub host_ip: Seq<char>,
    pub host_port: Seq<char>,
}

impl DeepView for PortBindingSpec {
    type V = PortBindingSpecView;

    open spec fn deep_view(&self) -> PortBindingSpecView {
        PortBindingSpecView {
            container_port: self.container_port@,
            host_ip: self.host_ip@,
            host_port: self.host_port@,
        }
    }
}

/// A named Docker volume mounted into the Caddy container at `target`.
#[derive(Debug)]
pub struct VolumeSpec {
    pub source: String,
    pub target: String,
}

/// The mathematical value of a [`VolumeSpec`].
pub struct VolumeSpecView {
    pub source: Seq<char>,
    pub target: Seq<char>,
}

impl DeepView for VolumeSpec {
    type V = VolumeSpecView;

    open spec fn deep_view(&self) -> VolumeSpecView {
        VolumeSpecView { source: self.source@, target: self.target@ }
    }
}

/// How the Caddy container is created.
#[derive(Debug)]
pub struct CaddyContainerSpec {
    pub name: String,
    pub image: String,
    pub env: Vec<String>,
    pub network_mode: String,
    pub volumes: Vec<VolumeSpec>,
    pub port_bindings: Vec<PortBindingSpec>,
    pub restart_policy: String,
}

/// The mathematical value of a [`CaddyContainerSpec`].
pub struct CaddyContainerSpecView {
    pub name: Seq<char>,
    pub image: Seq<char>,
    pub env: Seq<Seq<char>>,
    pub network_mode: Seq<char>,
    pub volumes: Seq<VolumeSpecView>,
    pub port_bindings: Seq<PortBindingSpecView>,
    pub restart_policy: Seq<char>,
}

impl DeepView for CaddyContainerSpec {
    type V = CaddyContainerSpecView;

    open spec fn deep_view(&self) -> CaddyContainerSpecView {
        CaddyContainerSpecView {
            name: self.name@,
            image: self.image@,
            env: self.env.deep_view(),
            network_mode: self.network_mode@,
            volumes: self.volumes.deep_view(),
            port_bindings: self.port_bindings.deep_view(),
            restart_policy: self.restart_policy@,
        }
    }
}

/// The Caddy container: named `pulse-caddy`, running `image` with the
/// environment of [`caddy_env_spec`], on the gateway's network, keeping its
/// configuration and data in the volumes `pulse-caddy-config` (at `/config`)
/// and `pulse-caddy-data` (at `/data`), publishing 443 and 80 on all host
/// addresses and the admin port 2019 on the loopback address only, and
/// restarted unless stopped.
pub open spec fn caddy_container_spec_view(
    image: Seq<char>,
    env_vars: Seq<(Seq<char>, Seq<char>)>,
) -> CaddyContainerSpecView {
    CaddyContainerSpecView {
        name: CADDY_CONTAINER_NAME@,
        image,
        env: caddy_env_spec(env_vars),
        network_mode: NETWORK_NAME@,
        volumes: seq![
            VolumeSpecView { source: "pulse-caddy-config"@, target: "/config"@ },
            VolumeSpecView { source: "pulse-caddy-data"@, target: "/data"@ },
        ],
        port_bindings: seq![
            PortBindingSpecView { container_port: "443/tcp"@, host_ip: "0.0.0.0"@, host_port: "443"@ },
            PortBindingSpecView { container_port: "80/tcp"@, host_ip: "0.0.0.0"@, host_port: "80"@ },
            PortBindingSpecView { container_port: "2019/tcp"@, host_ip: "127.0.0.1"@, host_port: "2019"@ },
        ],
        restart_policy: "unless-stopped"@,
    }
}

fn port_binding(container_port: &str, host_ip: &str, host_port: &str) -> (r: PortBindingSpec)
    ensures
        r.deep_view() == (PortBindingSpecView {
            container_port: container_port@,
            host_ip: host_ip@,
            host_port: host_port@,
        }),
{
    PortBindingSpec {
        container_port: owned(container_port),
        host_ip: owned(host_ip),
        host_port: owned(host_port),
    }
}

/// How to create the Caddy container for `image` and the environment variables.
pub fn caddy_container_spec(image: &str, env_vars: &Vec<(String, String)>) -> (r: CaddyContainerSpec)
    ensures
        r.deep_view() == caddy_container_spec_view(image@, env_vars.deep_view()),
{
    let mut volumes: Vec<VolumeSpec> = Vec::new();
    volumes.push(VolumeSpec { source: owned("pulse-caddy-config"), target: owned("/config") });
    volumes.push(VolumeSpec { source: owned("pulse-caddy-data"), target: owned("/data") });
    let mut port_bindings: Vec<PortBindingSpec> = Vec::new();
    port_bindings.push(port_binding("443/tcp", "0.0.0.0", "443"));
    port_bindings.push(port_binding("80/tcp", "0.0.0.0", "80"));
    port_bindings.push(port_binding("2019/tcp", "127.0.0.1", "2019"));
    let r = CaddyContainerSpec {
        name: owned(CADDY_CONTAINER_NAME),
        image: owned(image),
        env: caddy_env(env_vars),
        network_mode: owned(NETWORK_NAME),
        volumes,
        port_bindings,
        restart_policy: owned("unless-stopped"),
    };
    assert(r.volumes.deep_view() =~= caddy_container_spec_view(image@, env_vars.deep_view()).volumes);
    assert(r.port_bindings.deep_view() =~= caddy_container_spec_view(image@, env_vars.deep_view()).port_bindings);
    r
}

/// What to do to have a running Caddy container.
#[derive(Debug, PartialEq, Eq, Structural)]
pub enum CaddyAction {
    /// There is none: pull the image, create the container and start it.
    Create,
    /// There is one, but it is outdated: stop and remove it, then create anew.
    Recreate,
    /// There is an up-to-date one that is not running: start it.
    Start,
    /// There is an up-to-date one and it runs: nothing to do.
    Keep,
}

/// Decides how to get a running Caddy container, given the state of the
/// existing one (when there is one) and whether it must be made anew.
pub fn plan_caddy(existing_state: Option<&str>, recreate: bool) -> (r: CaddyAction)
    ensures
        existing_state is None ==> r == CaddyAction::Create,
        existing_state matches Some(st) ==> r == (if recreate {
            CaddyAction::Recreate
        } else if st@ != "running"@ {
            CaddyAction::Start
        } else {
            CaddyAction::Keep
        }),
{
    match existing_state {
        None => CaddyAction::Create,
        Some(st) => if recreate {
            CaddyAction::Recreate
        } else if !str_eq(st, "running") {
            CaddyAction::Start
        } else {
            CaddyAction::Keep
        },
    }
}

// ---------------------------------------------------------------------------
// Reading a container
// ---------------------------------------------------------------------------

/// `s` without its leading `/` characters.
pub open spec fn trim_leading_slashes(s: Seq<char>) -> Seq<char>
    decreases s.len(),
{
    if s.len() > 0 && s[0] == '/' {
        trim_leading_slashes(s.drop_first())
    } else {
        s
    }
}

/// The container's name as Docker reports it, without the leading `/`.
pub fn container_name(raw: &str) -> (r: String)
    ensures
        r@ == trim_leading_slashes(raw@),
{
    let cs = chars_of(raw);
    let mut start: usize = 0;
    assert(cs@.skip(0) =~= cs@);
    while start < cs.len() && cs[start] == '/'
        invariant
            start <= cs.len(),
            cs@ == raw@,
            trim_leading_slashes(raw@) == trim_leading_slashes(cs@.skip(start as int)),
        decreases cs.len() - start,
    {
        assert(cs@.skip(start as int).drop_first() =~= cs@.skip(start + 1));
        start = start + 1;
    }
    let mut out: Vec<char> = Vec::new();
    let mut j: usize = start;
    while j < cs.len()
        invariant
            start <= j <= cs.len(),
            out@ == cs@.subrange(start as int, j as int),
        decreases cs.len() - j,
    {
        out.push(cs[j]);
        j = j + 1;
        assert(out@ =~= cs@.subrange(start as int, j as int));
    }
    assert(cs@.skip(start as int) =~= cs@.subrange(start as int, cs.len() as int));
    string_of(&out)
}

/// The part of `s` before its first `/` (all of `s` when there is none).
pub open spec fn before_slash(s: Seq<char>) -> Seq<char>
    decreases s.len(),
{
    if s.len() == 0 {
        s
    } else if s[0] == '/' {
        Seq::empty()
    } else {
        seq![s[0]] + before_slash(s.drop_first())
    }
}

/// The port of an exposed-port key such as `8080/tcp`, when it has one.
pub open spec fn exposed_port_spec(key: Seq<char>) -> Option<u16> {
    parse_u16_spec(before_slash(key))
}

/// The ports of the exposed-port keys that name a valid port, in order.
pub open spec fn exposed_ports_spec(keys: Seq<Seq<char>>) -> Seq<u16>
    decreases keys.len(),
{
    if keys.len() == 0 {
        Seq::empty()
    } else {
        let r = exposed_ports_spec(keys.drop_last());
        match exposed_port_spec(keys.last()) {
            Some(p) => r.push(p),
            None => r,
        }
    }
}

/// The part of `key` before its first `/`.
fn port_part(key: &str) -> (r: String)
    ensures
        r@ == before_slash(key@),
{
    let cs = chars_of(key);
    let mut k: usize = 0;
    while k < cs.len() && cs[k] != '/'
        invariant
            k <= cs.len(),
            cs@ == key@,
            forall|j: int| 0 <= j < k ==> cs@[j] != '/',
        decreases cs.len() - k,
    {
        k = k + 1;
    }
    let mut out: Vec<char> = Vec::new();
    let mut j: usize = 0;
    while j < k
        invariant
            j <= k <= cs.len(),
            out@ == cs@.take(j as int),
        decreases k - j,
    {
        out.push(cs[j]);
        j = j + 1;
        assert(out@ =~= cs@.take(j as int));
    }
    proof {
        lemma_before_slash(cs@, k as int);
    }
    string_of(&out)
}

proof fn lemma_before_slash(s: Seq<char>, k: int)
    requires
        0 <= k <= s.len(),
        forall|j: int| 0 <= j < k ==> s[j] != '/',
        k == s.len() || s[k] == '/',
    ensures
        before_slash(s) == s.take(k),
    decreases s.len(),
{
    if s.len() == 0 {
        assert(s.take(k) =~= s);
    } else if k == 0 {
        assert(s.take(0) =~= Seq::<char>::empty());
    } else {
        let t = s.drop_first();
        assert forall|j: int| 0 <= j < k - 1 implies t[j] != '/' by {
            assert(t[j] == s[j + 1]);
        }
        lemma_before_slash(t, k - 1);
        assert(s.take(k) =~= seq![s[0]] + t.take(k - 1));
    }
}

/// The ports of the container's exposed-port keys (such as `8080/tcp`).
pub fn exposed_ports(keys: &Vec<String>) -> (r: Vec<u16>)
    ensures
        r@ == exposed_ports_spec(keys.deep_view()),
{
    let ghost kv = keys.deep_view();
    let mut r: Vec<u16> = Vec::new();
    let mut i: usize = 0;
    while i < keys.len()
        invariant
            i <= keys.len(),
            kv == keys.deep_view(),
            r@ == exposed_ports_spec(kv.take(i as int)),
        decreases keys.len() - i,
    {
        assert(kv.take(i + 1).drop_last() =~= kv.take(i as int));
        let part = port_part(keys[i].as_str());
        if let Some(p) = parse_u16(part.as_str()) {
            r.push(p);
        }
        i = i + 1;
    }
    assert(kv.take(keys.len() as int) =~= kv);
    r
}

/// The ids of the listed containers that have one, in order.
pub open spec fn present_ids(ids: Seq<Option<Seq<char>>>) -> Seq<Seq<char>>
    decreases ids.len(),
{
    if ids.len() == 0 {
        Seq::empty()
    } else {
        let r = present_ids(ids.drop_last());
        match ids.last() {
            Some(id) => r.push(id),
            None => r,
        }
    }
}

/// The ids of the listed containers.
pub fn running_ids(ids: Vec<Option<String>>) -> (r: Vec<String>)
    ensures
        r.deep_view() == present_ids(ids.deep_view()),
{
    let ghost iv = ids.deep_view();
    let mut r: Vec<String> = Vec::new();
    let mut i: usize = 0;
    while i < ids.len()
        invariant
            i <= ids.len(),
            iv == ids.deep_view(),
            r.deep_view() == present_ids(iv.take(i as int)),
        decreases ids.len() - i,
    {
        assert(iv.take(i + 1).drop_last() =~= iv.take(i as int));
        if let Some(id) = &ids[i] {
            let ghost before = r.deep_view();
            r.push(id.clone());
            assert(r.deep_view() =~= before.push(id@));
        }
        i = i + 1;
    }
    assert(iv.take(ids.len() as int) =~= iv);
    r
}

} // verus!
