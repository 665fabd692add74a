//! The decisions of the container watcher: what a Docker event means, what a
//! started container needs, which routes a stopped container takes away, and
//! how the bounded event log grows.
use vstd::prelude::*;

use crate::clock::{chrono_now, clock_text};
use crate::docker::{ContainerInfo, CADDY_CONTAINER_NAME};
use crate::models::{Gateway, GatewayView, LogEntry, LogEntryView, StaticRouteRule};
use crate::routing::{
    auto_route_at, auto_routes_spec, build_auto_routes, lemma_choice_renames, name_taken,
    resolve_ports_spec, should_skip, should_skip_spec, subdomain_bases, subdomain_bases_spec,
};
use crate::text::{concat3, owned, str_eq};

verus! {

// ---------------------------------------------------------------------------
// The event log
// ---------------------------------------------------------------------------

/// The most entries the event log keeps.
pub const MAX_LOG_ENTRIES: usize = 200;

/// The log after appending `e` to `log`: the last [`MAX_LOG_ENTRIES`]
/// entries of `log` followed by `e`.
pub open spec fn appended_log(log: Seq<LogEntryView>, e: LogEntryView) -> Seq<LogEntryView> {
    let all = log.push(e);
    if all.len() > MAX_LOG_ENTRIES {
        all.skip(all.len() - MAX_LOG_ENTRIES)
    } else {
        all
    }
}

/// Appends `entry` to the event log, dropping the oldest entries beyond
/// [`MAX_LOG_ENTRIES`].
pub fn append_log(log: &mut Vec<LogEntry>, entry: LogEntry)
    ensures
        final(log).deep_view() == appended_log(old(log).deep_view(), entry.deep_view()),
        final(log).len() <= MAX_LOG_ENTRIES,
{
    let ghost before = log.deep_view();
    let ghost e = entry.deep_view();
    log.push(entry);
    assert(log.deep_view() =~= before.push(e));
    let len = log.len();
    if len > MAX_LOG_ENTRIES {
        let ghost all = log.deep_view();
        let tail = log.split_off(len - MAX_LOG_ENTRIES);
        *log = tail;
        assert(log.deep_view() =~= all.skip(len - MAX_LOG_ENTRIES));
    }
}

/// A log entry stamped with the current time of day.
pub fn new_log_entry(level: &str, message: &str) -> (r: LogEntry)
    ensures
        r.level@ == level@,
        r.message@ == message@,
        exists|secs: nat| r.timestamp@ == clock_text(secs),
{
    LogEntry { timestamp: chrono_now(), level: owned(level), message: owned(message) }
}

// ---------------------------------------------------------------------------
// Docker events
// ---------------------------------------------------------------------------

/// What a Docker container event asks of the watcher.
#[derive(Debug, PartialEq, Eq)]
pub enum ContainerEvent {
    /// The container with this id started.
    Start(String),
    /// The container with this id stopped; the action was `stop` or `die`.
    Stop(String, String),
    /// Nothing to do.
    Ignore,
}

/// The mathematical value of a [`ContainerEvent`].
pub enum ContainerEventView {
    Start(Seq<char>),
    Stop(Seq<char>, Seq<char>),
    Ignore,
}

impl DeepView for ContainerEvent {
    type V = ContainerEventView;

    open spec fn deep_view(&self) -> ContainerEventView {
        match self {
            ContainerEvent::Start(id) => ContainerEventView::Start(id@),
            ContainerEvent::Stop(id, action) => ContainerEventView::Stop(id@, action@),
            ContainerEvent::Ignore => ContainerEventView::Ignore,
        }
    }
}

/// An event without a container id is ignored; `start` starts the
/// container, `stop` and `die` stop it, and every other action is ignored.
pub open spec fn classify_event_spec(action: Option<Seq<char>>, id: Option<Seq<char>>) -> ContainerEventView {
    let id = match id {
        Some(i) => i,
        None => Seq::empty(),
    };
    let action = match action {
        Some(a) => a,
        None => Seq::empty(),
    };
    if id.len() == 0 {
        ContainerEventView::Ignore
    } else if action == "start"@ {
        ContainerEventView::Start(id)
    } else if action == "stop"@ || action == "die"@ {
        ContainerEventView::Stop(id, action)
    } else {
        ContainerEventView::Ignore
    }
}

/// What a Docker event with this action and actor id asks of the watcher.
pub fn classify_event(action: Option<&str>, container_id: Option<&str>) -> (r: ContainerEvent)
    ensures
        r.deep_view() == classify_event_spec(
            match action {
                Some(a) => Some(a@),
                None => None,
            },
            match container_id {
                Some(i) => Some(i@),
                None => None,
            },
        ),
{
    let id: &str = match container_id {
        Some(i) => i,
        None => "",
    };
    let act: &str = match action {
        Some(a) => a,
        None => "",
    };
    proof {
        reveal_strlit("");
        assert(""@ =~= Seq::<char>::empty());
    }
    if id.is_empty() {
        ContainerEvent::Ignore
    } else if str_eq(act, "start") {
        ContainerEvent::Start(owned(id))
    } else if str_eq(act, "stop") || str_eq(act, "die") {
        ContainerEvent::Stop(owned(id), owned(act))
    } else {
        ContainerEvent::Ignore
    }
}

// ---------------------------------------------------------------------------
// Started containers
// ---------------------------------------------------------------------------

/// What to do about a container that started.
#[derive(Debug)]
pub enum StartPlan {
    /// The Caddy container itself restarted: push all routes again.
    RepushRoutes,
    /// The container is not routed.
    Skip,
    /// Route the container: attach it to the network first when `attach`,
    /// then add `routes` (none when it exposes no port); `renamed` tells,
    /// route by route, whether its subdomain was taken and a suffix was added.
    Route { attach: bool, routes: Vec<Gateway>, renamed: Vec<bool> },
}

/// Decides what a started container needs: Caddy's own restart re-pushes
/// the routes, a container left out of routing is skipped, and any other
/// container is attached to the network when it is not on it and gets the
/// routes that [`build_auto_routes`] makes for it.
pub fn plan_container_start(
    info: &ContainerInfo,
    route_rules: &Vec<StaticRouteRule>,
    existing_auto: &Vec<Gateway>,
    static_routes: &Vec<Gateway>,
) -> (r: StartPlan)
    ensures
        (r is RepushRoutes) == (info.name@ == CADDY_CONTAINER_NAME@),
        (r is Skip) == (info.name@ != CADDY_CONTAINER_NAME@ && should_skip_spec(info.deep_view())),
        r matches StartPlan::Route { attach, routes, renamed } ==> {
            &&& !should_skip_spec(info.deep_view())
            &&& attach == !info.on_network
            &&& auto_routes_spec(
                info.deep_view(),
                route_rules.deep_view(),
                existing_auto.deep_view(),
                static_routes.deep_view(),
                routes.deep_view(),
            )
            &&& renamed.len() == routes.len()
            &&& forall|q: int| 0 <= q < routes.len() ==> {
                &&& #[trigger] renamed@[q] == (routes@[q].subdomain@
                    != subdomain_bases_spec(info.deep_view(), route_rules.deep_view())[q])
                &&& renamed@[q] == name_taken(
                    existing_auto.deep_view() + static_routes.deep_view() + routes.deep_view().take(q),
                    subdomain_bases_spec(info.deep_view(), route_rules.deep_view())[q],
                )
            }
        },
{
    if str_eq(info.name.as_str(), CADDY_CONTAINER_NAME) {
        return StartPlan::RepushRoutes;
    }
    if should_skip(info) {
        return StartPlan::Skip;
    }
    let routes = build_auto_routes(info, route_rules, existing_auto, static_routes);
    let bases = subdomain_bases(info, route_rules);
    let ghost iv = info.deep_view();
    let ghost rv = routes.deep_view();
    let ghost bv = bases.deep_view();
    let ghost taken = existing_auto.deep_view() + static_routes.deep_view();
    let ghost ports = resolve_ports_spec(iv, route_rules.deep_view());
    assert(bv.len() == rv.len());
    let mut renamed: Vec<bool> = Vec::new();
    let mut i: usize = 0;
    while i < routes.len()
        invariant
            i <= routes.len(),
            bases.len() == routes.len(),
            rv == routes.deep_view(),
            bv == bases.deep_view(),
            bv == subdomain_bases_spec(iv, route_rules.deep_view()),
            taken == existing_auto.deep_view() + static_routes.deep_view(),
            ports == resolve_ports_spec(iv, route_rules.deep_view()),
            auto_routes_spec(iv, route_rules.deep_view(), existing_auto.deep_view(), static_routes.deep_view(), rv),
            renamed.len() == i,
            forall|q: int| 0 <= q < i ==> {
                &&& #[trigger] renamed@[q] == (rv[q].subdomain != bv[q])
                &&& renamed@[q] == name_taken(taken + rv.take(q), bv[q])
            },
        decreases routes.len() - i,
    {
        proof {
            assert(auto_route_at(iv, ports, taken, rv, i as int));
            lemma_choice_renames(bv[i as int], taken + rv.take(i as int), rv[i as int].subdomain);
        }
        let differs = !str_eq(routes[i].subdomain.as_str(), bases[i].as_str());
        assert(routes@[i as int].subdomain@ == rv[i as int].subdomain);
        assert(bases@[i as int]@ == bv[i as int]);
        renamed.push(differs);
        i = i + 1;
    }
    StartPlan::Route { attach: !info.on_network, routes, renamed }
}

/// Adds the routes made for a started container to the discovered routes;
/// tells whether there are new routes to push.
pub fn apply_start(auto: &mut Vec<Gateway>, routes: Vec<Gateway>) -> (push: bool)
    ensures
        final(auto).deep_view() == old(auto).deep_view() + routes.deep_view(),
        push == (routes.len() > 0),
{
    let push = routes.len() > 0;
    let ghost before = auto.deep_view();
    let ghost added = routes.deep_view();
    let mut routes = routes;
    auto.append(&mut routes);
    assert(auto.deep_view() =~= before + added);
    push
}

// ---------------------------------------------------------------------------
// Stopped containers
// ---------------------------------------------------------------------------

/// The route belongs to the container with id `id`.
pub open spec fn belongs_to(g: GatewayView, id: Seq<char>) -> bool {
    g.container_id == Some(id)
}

/// The routes of `routes` that do not belong to container `id`, in order.
pub open spec fn routes_without(routes: Seq<GatewayView>, id: Seq<char>) -> Seq<GatewayView>
    decreases routes.len(),
{
    if routes.len() == 0 {
        Seq::empty()
    } else {
        let r = routes_without(routes.drop_last(), id);
        if belongs_to(routes.last(), id) {
            r
        } else {
            r.push(routes.last())
        }
    }
}

/// How a removed route is described: `subdomain (container name)`, with
/// `unknown` when the route has no container name.
pub open spec fn removal_note(g: GatewayView) -> Seq<char> {
    g.subdomain + " ("@ + match g.container_name {
        Some(n) => n,
        None => "unknown"@,
    } + ")"@
}

/// The descriptions of the routes of `routes` that belong to container `id`, in order.
pub open spec fn removal_notes(routes: Seq<GatewayView>, id: Seq<char>) -> Seq<Seq<char>>
    decreases routes.len(),
{
    if routes.len() == 0 {
        Seq::empty()
    } else {
        let r = removal_notes(routes.drop_last(), id);
        if belongs_to(routes.last(), id) {
            r.push(removal_note(routes.last()))
        } else {
            r
        }
    }
}

/// Removes the routes of the container with id `container_id`, keeping the
/// others in order, and describes each removed route.
pub fn remove_container_routes(gateways: &mut Vec<Gateway>, container_id: &str) -> (r: Vec<String>)
    ensures
        final(gateways).deep_view() == routes_without(old(gateways).deep_view(), container_id@),
        r.deep_view() == removal_notes(old(gateways).deep_view(), container_id@),
{
    let ghost old_view = gateways.deep_view();
    let mut all: Vec<Gateway> = Vec::new();
    std::mem::swap(&mut all, gateways);
    assert(all.deep_view() == old_view);
    let mut kept: Vec<Gateway> = Vec::new();
    let mut notes: Vec<String> = Vec::new();
    let mut i: usize = 0;
    while i < all.len()
        invariant
            i <= all.len(),
            old_view == all.deep_view(),
            kept.deep_view() == routes_without(old_view.take(i as int), container_id@),
            notes.deep_view() == removal_notes(old_view.take(i as int), container_id@),
        decreases all.len() - i,
    {
        let g = &all[i];
        let ghost gv = g.deep_view();
        assert(old_view.take(i + 1).drop_last() =~= old_view.take(i as int));
        assert(old_view.take(i + 1).last() == gv);
        let mine = match &g.container_id {
            Some(cid) => str_eq(cid.as_str(), container_id),
            None => false,
        };
        if mine {
            let name: &str = match &g.container_name {
                Some(n) => n.as_str(),
                None => "unknown",
            };
            let note = concat3(g.subdomain.as_str(), " (", name);
            let mut full = note;
            full.append(")");
            let ghost before = notes.deep_view();
            notes.push(full);
            assert(notes.deep_view() =~= before.push(removal_note(gv)));
        } else {
            let ghost before = kept.deep_view();
            kept.push(crate::models::copy_gateway(g));
            assert(kept.deep_view() =~= before.push(gv));
        }
        i = i + 1;
    }
    assert(old_view.take(all.len() as int) =~= old_view);
    *gateways = kept;
    notes
}

} // verus!
