//! How dashboard instances share one status table: who owns it, how reports
//! reach the owner, and what the owner publishes to the other instances.
use vstd::prelude::*;
use crate::agents::{AgentReport, AgentTable, AgentView};
use crate::dashboard::{App, PipeReport, manifest_agents, AgentSnapshot, opt_view, owns, same_but_agents, applied, located, refreshed, refreshed_focus,
    live_terminals, reconciled, discovered_all, paneless_or_live, refresh_reads, contents_effect, contents_changes};
use crate::detect::{activity, views};
use crate::model::{PaneManifest, TabInfo};
use crate::idset::IdSet;
use crate::model::{PaneInfo, PluginInfo, all_panes};
use crate::text::{chars_of, equal_chars, parse_usize, push_all, string_of, usize_parse};

verus! {

/// The text of a plugin's role.
pub open spec fn role_of(p: PluginInfo) -> Option<Seq<char>> {
    opt_view(p.role)
}

/// The id of the first plugin loaded from `url` whose role is `monitor`.
pub open spec fn monitor_of(plugins: Seq<(u32, PluginInfo)>, url: Seq<char>) -> Option<u32>
    decreases plugins.len(),
{
    if plugins.len() == 0 {
        None
    } else if plugins[0].1.location@ == url && role_of(plugins[0].1) == Some("monitor"@) {
        Some(plugins[0].0)
    } else {
        monitor_of(plugins.drop_first(), url)
    }
}

/// Whether the optional string `s` holds `text`.
fn holds_text(s: &Option<String>, text: &Vec<char>) -> (r: bool)
    ensures
        r == (opt_view(*s) == Some(text@)),
{
    match s {
        Some(v) => equal_chars(&chars_of(v.as_str()), text),
        None => false,
    }
}

/// The background monitor among the loaded plugins: the first one, in the
/// given order, loaded from `url` with the role `monitor`.
pub fn monitor_source(plugins: &[(u32, PluginInfo)], url: &str) -> (r: Option<u32>)
    ensures
        r == monitor_of(plugins@, url@),
{
    let want = chars_of(url);
    let monitor = chars_of("monitor");
    let mut i: usize = 0;
    assert(plugins@.skip(0) =~= plugins@);
    while i < plugins.len()
        invariant
            i <= plugins@.len(),
            want@ == url@,
            monitor@ == "monitor"@,
            monitor_of(plugins@, url@) == monitor_of(plugins@.skip(i as int), url@),
        decreases plugins@.len() - i,
    {
        assert(plugins@.skip(i as int).drop_first() =~= plugins@.skip(i + 1));
        assert(plugins@.skip(i as int)[0] == plugins@[i as int]);
        let p = &plugins[i].1;
        if equal_chars(&chars_of(p.location.as_str()), &want) && holds_text(&p.role, &monitor) {
            return Some(plugins[i].0);
        }
        i = i + 1;
    }
    None
}

/// What the host should do after a session update.
pub enum SessionStep {
    /// Nothing more.
    Nothing,
    /// This instance owns the table: publish the agents.
    Publish,
    /// Load the background monitor; this instance is the first of its kind.
    LaunchMonitor,
    /// Ask the (new) status source for a snapshot.
    RequestSync,
}

/// What publishing the agents asks of the host.
pub struct Publication {
    /// The instances to send the snapshot to, in increasing id order.
    pub recipients: Vec<u32>,
    /// Whether to start the timer that writes the checkpoint.
    pub start_checkpoint_timer: bool,
}

/// The dashboards that receive published snapshots: live plugin panes loaded
/// from this plugin's URL and instances that asked to observe, except this one.
pub open spec fn peers_of(app: App) -> Set<u32> {
    let all = all_panes(app.pane_manifest.panes@);
    Set::new(
        |id: u32|
            ((exists|j: int|
                0 <= j < all.len() && all[j].is_plugin && !all[j].exited && opt_view(all[j].plugin_url)
                    == opt_view(app.plugin_url) && #[trigger] all[j].id == id)
                || app.status_observers@.contains(id)) && app.plugin_id != Some(id),
    )
}

/// Who a publication reaches: every peer when the table changed since the
/// last snapshot, else only the peers that have not had it.
pub open spec fn publish_recipients(app: App) -> Set<u32> {
    if !published_as(app.last_published, app.agents@, opt_view(app.error)) {
        peers_of(app)
    } else {
        peers_of(app).difference(app.published_peers@)
    }
}

/// The last snapshot holds the current agents and error, and every peer has had it.
pub open spec fn in_sync(app: App) -> bool {
    published_as(app.last_published, app.agents@, opt_view(app.error)) && app.published_peers@ == peers_of(app)
}

/// The last published snapshot holds these agents and this error.
pub open spec fn published_as(last: Option<AgentSnapshot>, agents: Seq<AgentView>, error: Option<Seq<char>>) -> bool {
    match last {
        Some(s) => s.agents@ == agents && opt_view(s.error) == error,
        None => false,
    }
}

/// Whether two optional strings hold the same text.
fn same_text(a: &Option<String>, b: &Option<String>) -> (r: bool)
    ensures
        r == (opt_view(*a) == opt_view(*b)),
{
    match (a, b) {
        (Some(x), Some(y)) => equal_chars(&chars_of(x.as_str()), &chars_of(y.as_str())),
        (None, None) => true,
        _ => false,
    }
}

/// A copy of an optional string.
pub(crate) fn copy_text(a: &Option<String>) -> (r: Option<String>)
    ensures
        r == *a,
{
    match a {
        Some(x) => Some(x.clone()),
        None => None,
    }
}

/// The text of each argument pair.
pub open spec fn arg_views(args: Seq<(String, String)>) -> Seq<(Seq<char>, Seq<char>)> {
    args.map_values(|a: (String, String)| (a.0@, a.1@))
}

/// The value of the first argument named `key`.
pub open spec fn arg_value(args: Seq<(Seq<char>, Seq<char>)>, key: Seq<char>) -> Option<Seq<char>>
    decreases args.len(),
{
    if args.len() == 0 {
        None
    } else if args[0].0 == key {
        Some(args[0].1)
    } else {
        arg_value(args.drop_first(), key)
    }
}

/// Where a report came from: the command-line pipe it arrived on, or, for a
/// report another instance forwarded, the pipe named in its arguments.
pub open spec fn report_origin(r: PipeReport) -> Option<Seq<char>> {
    match r.cli_pipe_id {
        Some(p) => Some(p@),
        None => arg_value(arg_views(r.args@), "origin_pipe_id"@),
    }
}

/// The arguments a report is forwarded with: the command-line pipe it
/// arrived on as its origin, else its own arguments.
pub open spec fn forwarded_arg_views(r: PipeReport) -> Seq<(Seq<char>, Seq<char>)> {
    match r.cli_pipe_id {
        Some(p) => seq![("origin_pipe_id"@, p@)],
        None => arg_views(r.args@),
    }
}

impl PipeReport {
    /// Where the report came from (see `report_origin`).
    pub fn origin(&self) -> (r: Option<String>)
        ensures
            opt_view(r) == report_origin(*self),
    {
        match &self.cli_pipe_id {
            Some(p) => return Some(p.clone()),
            None => {},
        }
        let key = chars_of("origin_pipe_id");
        let ghost av = arg_views(self.args@);
        let mut i: usize = 0;
        assert(av.skip(0) =~= av);
        while i < self.args.len()
            invariant
                i <= self.args@.len(),
                av == arg_views(self.args@),
                key@ == "origin_pipe_id"@,
                arg_value(av, key@) == arg_value(av.skip(i as int), key@),
                self.cli_pipe_id is None,
            decreases self.args@.len() - i,
        {
            assert(av.skip(i as int).drop_first() =~= av.skip(i + 1));
            assert(av.skip(i as int)[0] == (self.args@[i as int].0@, self.args@[i as int].1@));
            if equal_chars(&chars_of(self.args[i].0.as_str()), &key) {
                return Some(self.args[i].1.clone());
            }
            i = i + 1;
        }
        None
    }

    /// The arguments to forward the report with (see `forwarded_arg_views`).
    pub fn forwarded_args(&self) -> (r: Vec<(String, String)>)
        ensures
            arg_views(r@) == forwarded_arg_views(*self),
    {
        match &self.cli_pipe_id {
            Some(p) => {
                let r = vec![(string_of(chars_of("origin_pipe_id").as_slice()), p.clone())];
                assert(arg_views(r@) =~= forwarded_arg_views(*self));
                r
            },
            None => {
                let mut r: Vec<(String, String)> = Vec::new();
                let mut i: usize = 0;
                while i < self.args.len()
                    invariant
                        i <= self.args@.len(),
                        arg_views(r@) == arg_views(self.args@).take(i as int),
                    decreases self.args@.len() - i,
                {
                    let ghost before = r@;
                    let pair = (self.args[i].0.clone(), self.args[i].1.clone());
                    assert(pair.0@ == self.args@[i as int].0@ && pair.1@ == self.args@[i as int].1@);
                    r.push(pair);
                    assert(r@ == before.push(pair));
                    assert(arg_views(r@) =~= arg_views(before).push((pair.0@, pair.1@)));
                    assert(arg_views(r@) =~= arg_views(self.args@).take(i + 1));
                    i = i + 1;
                }
                assert(arg_views(self.args@).take(self.args@.len() as int) =~= arg_views(self.args@));
                r
            },
        }
    }
}

impl App {
    /// Marks a checkpoint as due; true when the timer must be started (none was due).
    pub fn schedule_checkpoint(&mut self) -> (r: bool)
        ensures
            final(self).checkpoint_pending,
            r == !old(self).checkpoint_pending,
            same_but_agents(App { checkpoint_pending: true, ..*old(self) }, *final(self)),
            final(self).agents == old(self).agents,
    {
        if !self.checkpoint_pending {
            self.checkpoint_pending = true;
            true
        } else {
            false
        }
    }

    /// The dashboards that receive published snapshots (see `peers_of`).
    pub fn peers(&self) -> (r: IdSet)
        ensures
            r@ == peers_of(*self),
    {
        let ghost all = all_panes(self.pane_manifest.panes@);
        let mut set = IdSet::new();
        let entries = &self.pane_manifest.panes;
        let mut i: usize = 0;
        let ghost target = Set::new(
            |id: u32|
                exists|j: int|
                    0 <= j < all.len() && all[j].is_plugin && !all[j].exited && opt_view(all[j].plugin_url)
                        == opt_view(self.plugin_url) && #[trigger] all[j].id == id,
        );
        proof {
            crate::model::lemma_all_panes_split(self.pane_manifest.panes@, 0);
        }
        assert(entries@.take(0) =~= Seq::<(usize, Vec<PaneInfo>)>::empty());
        while i < entries.len()
            invariant
                i <= entries@.len(),
                entries@ == self.pane_manifest.panes@,
                all == all_panes(entries@),
                forall|id: u32| #[trigger] set@.contains(id) <==> (exists|j: int|
                    0 <= j < all_panes(entries@.take(i as int)).len() && all[j].is_plugin && !all[j].exited
                        && opt_view(all[j].plugin_url) == opt_view(self.plugin_url) && all[j].id == id)
                        && self.plugin_id != Some(id),
                all_panes(entries@.take(i as int)).is_prefix_of(all),
            decreases entries@.len() - i,
        {
            let panes = &entries[i].1;
            let ghost base = all_panes(entries@.take(i as int)).len();
            proof {
                crate::model::lemma_all_panes_split(entries@, i as int);
            }
            let mut j: usize = 0;
            while j < panes.len()
                invariant
                    j <= panes@.len(),
                    i < entries@.len(),
                    panes@ == entries@[i as int].1@,
                    entries@ == self.pane_manifest.panes@,
                    all == all_panes(entries@),
                    base == all_panes(entries@.take(i as int)).len(),
                    all_panes(entries@.take(i + 1)) == all_panes(entries@.take(i as int)) + panes@,
                    all_panes(entries@.take(i + 1)).is_prefix_of(all),
                    forall|id: u32| #[trigger] set@.contains(id) <==> (exists|w: int|
                        0 <= w < base + j && all[w].is_plugin && !all[w].exited
                            && opt_view(all[w].plugin_url) == opt_view(self.plugin_url) && all[w].id == id)
                            && self.plugin_id != Some(id),
                decreases panes@.len() - j,
            {
                let p = &panes[j];
                assert(all[base + j] == panes@[j as int]) by {
                    assert(all_panes(entries@.take(i + 1))[base + j] == panes@[j as int]);
                }
                let own = match self.plugin_id {
                    Some(me) => me == p.id,
                    None => false,
                };
                if p.is_plugin && !p.exited && same_text(&p.plugin_url, &self.plugin_url) && !own {
                    set.insert(p.id);
                }
                proof {
                    assert forall|id: u32| #[trigger] set@.contains(id) <==> (exists|w: int|
                        0 <= w < base + j + 1 && all[w].is_plugin && !all[w].exited
                            && opt_view(all[w].plugin_url) == opt_view(self.plugin_url) && all[w].id == id)
                            && self.plugin_id != Some(id) by {
                        if id == p.id && p.is_plugin && !p.exited && opt_view(p.plugin_url) == opt_view(self.plugin_url) {
                            assert(all[base + j].id == id);
                        }
                    }
                }
                j = j + 1;
            }
            assert(all_panes(entries@.take(i + 1)).len() == base + panes@.len());
            i = i + 1;
        }
        assert(entries@.take(entries@.len() as int) =~= entries@);
        let observers = self.status_observers.to_vec();
        let mut k: usize = 0;
        while k < observers.len()
            invariant
                k <= observers@.len(),
                observers@.to_set() == self.status_observers@,
                forall|id: u32| #[trigger] set@.contains(id) <==> (target.contains(id)
                    || exists|w: int| 0 <= w < k && observers@[w] == id) && self.plugin_id != Some(id),
            decreases observers@.len() - k,
        {
            let id = observers[k];
            let own = match self.plugin_id {
                Some(me) => me == id,
                None => false,
            };
            if !own {
                set.insert(id);
            }
            proof {
                assert forall|x: u32| #[trigger] set@.contains(x) <==> (target.contains(x)
                    || exists|w: int| 0 <= w < k + 1 && observers@[w] == x) && self.plugin_id != Some(x) by {
                    if x == id {
                        assert(observers@[k as int] == x);
                    }
                }
            }
            k = k + 1;
        }
        proof {
            assert forall|id: u32| set@.contains(id) <==> peers_of(*self).contains(id) by {
                if self.status_observers@.contains(id) {
                    assert(observers@.to_set().contains(id));
                    assert(observers@.contains(id));
                }
                if exists|w: int| 0 <= w < observers@.len() && observers@[w] == id {
                    let w = choose|w: int| 0 <= w < observers@.len() && observers@[w] == id;
                    assert(observers@.contains(id));
                }
            }
            assert(set@ =~= peers_of(*self));
        }
        set
    }

    /// Publishes the agents to the other dashboards. A changed table goes to
    /// every peer and makes a checkpoint due; an unchanged one goes only to
    /// peers that have not had it. Only the owner publishes.
    pub fn publish_agents(&mut self) -> (r: Publication)
        ensures
            !owns(*old(self)) ==> *final(self) == *old(self) && r.recipients@.len() == 0 && !r.start_checkpoint_timer,
            owns(*old(self)) ==> ({
                let changed = !published_as(old(self).last_published, old(self).agents@, opt_view(old(self).error));
                let peers = peers_of(*old(self));
                &&& r.recipients@.to_set() == if changed { peers } else { peers.difference(old(self).published_peers@) }
                &&& r.recipients@.to_set() == publish_recipients(*old(self))
                &&& in_sync(*final(self))
                &&& crate::idset::increasing(r.recipients@)
                &&& final(self).published_peers@ == peers
                &&& published_as(final(self).last_published, old(self).agents@, opt_view(old(self).error))
                &&& r.start_checkpoint_timer == (changed && !old(self).checkpoint_pending)
                &&& final(self).checkpoint_pending == (old(self).checkpoint_pending || changed)
            }),
            final(self).agents == old(self).agents,
            final(self).error == old(self).error,
            final(self).tabs == old(self).tabs,
            final(self).pane_manifest == old(self).pane_manifest,
            final(self).plugin_id == old(self).plugin_id,
            final(self).status_source == old(self).status_source,
            final(self).is_monitor == old(self).is_monitor,
            same_but_agents(
                App {
                    last_published: final(self).last_published,
                    published_peers: final(self).published_peers,
                    checkpoint_pending: final(self).checkpoint_pending,
                    ..*old(self)
                },
                *final(self),
            ),
    {
        if !self.owns_status() {
            return Publication { recipients: Vec::new(), start_checkpoint_timer: false };
        }
        let changed = match &self.last_published {
            Some(last) => !(last.agents.same_as(&self.agents) && same_text(&last.error, &self.error)),
            None => true,
        };
        let peers = self.peers();
        let mut recipients = IdSet::new();
        let all = peers.to_vec();
        let mut i: usize = 0;
        while i < all.len()
            invariant
                i <= all@.len(),
                all@.to_set() == peers@,
                crate::idset::increasing(all@),
                forall|id: u32| #[trigger] recipients@.contains(id) <==> exists|w: int|
                    0 <= w < i && all@[w] == id && (changed || !self.published_peers@.contains(id)),
            decreases all@.len() - i,
        {
            let id = all[i];
            if changed || !self.published_peers.contains(id) {
                recipients.insert(id);
            }
            proof {
                assert forall|x: u32| #[trigger] recipients@.contains(x) <==> exists|w: int|
                    0 <= w < i + 1 && all@[w] == x && (changed || !self.published_peers@.contains(x)) by {
                    if x == id {
                        assert(all@[i as int] == x);
                    }
                }
            }
            i = i + 1;
        }
        let start = if changed {
            self.schedule_checkpoint()
        } else {
            false
        };
        proof {
            assert forall|id: u32| recipients@.contains(id) <==> (if changed { peers@ } else {
                peers@.difference(self.published_peers@) }).contains(id) by {
                if peers@.contains(id) {
                    assert(all@.to_set().contains(id));
                    assert(all@.contains(id));
                }
                if recipients@.contains(id) {
                    let w = choose|w: int| 0 <= w < all@.len() && all@[w] == id && (changed || !self.published_peers@.contains(id));
                    assert(all@.contains(id));
                }
            }
        }
        let snapshot = AgentSnapshot { agents: self.agents.duplicate(), error: copy_text(&self.error) };
        self.last_published = Some(snapshot);
        self.published_peers = peers;
        let out = recipients.to_vec();
        proof {
            assert(out@.to_set() =~= if changed { peers_of(*old(self)) } else { peers_of(*old(self)).difference(old(self).published_peers@) });
            assert(peers_of(*self) =~= peers_of(*old(self)));
        }
        Publication { recipients: out, start_checkpoint_timer: start }
    }
}

/// The location of the plugin with key `id`: that of the first entry for it.
pub open spec fn plugin_location(plugins: Seq<(u32, PluginInfo)>, id: u32) -> Option<Seq<char>>
    decreases plugins.len(),
{
    if plugins.len() == 0 {
        None
    } else if plugins[0].0 == id {
        Some(plugins[0].1.location@)
    } else {
        plugin_location(plugins.drop_first(), id)
    }
}

/// The ids of the plugins loaded from `url`, in order.
pub open spec fn loaded_from(plugins: Seq<(u32, PluginInfo)>, url: Seq<char>) -> Seq<u32>
    decreases plugins.len(),
{
    if plugins.len() == 0 {
        seq![]
    } else {
        let rest = loaded_from(plugins.drop_last(), url);
        if plugins.last().1.location@ == url {
            rest.push(plugins.last().0)
        } else {
            rest
        }
    }
}

/// What the host should do about a pipe report.
#[derive(Clone, Copy, Debug, PartialEq, Eq, Structural)]
pub enum ReportRoute {
    /// This instance owns the table: read and apply the report here.
    Apply,
    /// A broadcast report that only the owner takes: ignore it.
    Drop,
    /// Forward the report to the owner.
    Forward(u32),
    /// Keep the report until the owner is known.
    Hold,
}

/// The views of the remembered reports.
pub open spec fn seen_views(seen: Seq<(String, String)>) -> Seq<(Seq<char>, Seq<char>)> {
    seen.map_values(|e: (String, String)| (e.0@, e.1@))
}

/// The remembered reports after one from `origin` with `payload` is taken:
/// it is appended, and the oldest is dropped beyond 64.
pub open spec fn remembered(seen: Seq<(Seq<char>, Seq<char>)>, origin: Seq<char>, payload: Seq<char>) -> Seq<(Seq<char>, Seq<char>)> {
    let s = seen.push((origin, payload));
    if s.len() > 64 {
        s.drop_first()
    } else {
        s
    }
}

/// The index of the first plugin with key `id`.
fn plugin_index(plugins: &[(u32, PluginInfo)], id: u32) -> (r: Option<usize>)
    ensures
        r matches Some(i) ==> i < plugins@.len() && plugin_location(plugins@, id) == Some(plugins@[i as int].1.location@),
        r is None ==> plugin_location(plugins@, id) is None,
{
    let mut i: usize = 0;
    assert(plugins@.skip(0) =~= plugins@);
    while i < plugins.len()
        invariant
            i <= plugins@.len(),
            plugin_location(plugins@, id) == plugin_location(plugins@.skip(i as int), id),
        decreases plugins@.len() - i,
    {
        assert(plugins@.skip(i as int).drop_first() =~= plugins@.skip(i + 1));
        assert(plugins@.skip(i as int)[0] == plugins@[i as int]);
        if plugins[i].0 == id {
            return Some(i);
        }
        i = i + 1;
    }
    None
}

/// The other plugins loaded from the same location as plugin `own_id`, in
/// order: the instances a stop request closes besides this one.
pub open spec fn others_at(plugins: Seq<(u32, PluginInfo)>, own_id: u32, location: Seq<char>) -> Seq<u32>
    decreases plugins.len(),
{
    if plugins.len() == 0 {
        seq![]
    } else {
        let rest = others_at(plugins.drop_last(), own_id, location);
        let p = plugins.last();
        if p.1.location@ == location && p.0 != own_id {
            rest.push(p.0)
        } else {
            rest
        }
    }
}

/// The plugins that share plugin `own_id`'s location, other than it; none
/// when `own_id` is not among the plugins.
pub fn peers_at_location(plugins: &[(u32, PluginInfo)], own_id: u32) -> (r: Vec<u32>)
    ensures
        r@ == match plugin_location(plugins@, own_id) {
            Some(location) => others_at(plugins@, own_id, location),
            None => seq![],
        },
{
    let mut out: Vec<u32> = Vec::new();
    let own = match plugin_index(plugins, own_id) {
        Some(i) => i,
        None => return out,
    };
    let location = chars_of(plugins[own].1.location.as_str());
    let mut i: usize = 0;
    assert(plugins@.take(0) =~= Seq::<(u32, PluginInfo)>::empty());
    while i < plugins.len()
        invariant
            i <= plugins@.len(),
            plugin_location(plugins@, own_id) == Some(location@),
            out@ == others_at(plugins@.take(i as int), own_id, location@),
        decreases plugins@.len() - i,
    {
        assert(plugins@.take(i + 1).drop_last() =~= plugins@.take(i as int));
        assert(plugins@.take(i + 1).last() == plugins@[i as int]);
        if plugins[i].0 != own_id && equal_chars(&chars_of(plugins[i].1.location.as_str()), &location) {
            out.push(plugins[i].0);
        }
        i = i + 1;
    }
    assert(plugins@.take(plugins@.len() as int) =~= plugins@);
    out
}

impl App {
    /// Takes the session's loaded plugins (in id order): learns this
    /// plugin's URL and the status source, and says what to do next.
    pub fn update_session(&mut self, plugins: Vec<(u32, PluginInfo)>) -> (r: SessionStep)
        ensures
            plugins@.len() == 0 || old(self).plugin_id is None ==> *final(self) == *old(self) && r is Nothing,
            plugins@.len() > 0 && old(self).plugin_id is Some ==> ({
                let id = old(self).plugin_id->0;
                let url = match plugin_location(plugins@, id) {
                    Some(l) => Some(l),
                    None => opt_view(old(self).plugin_url),
                };
                &&& opt_view(final(self).plugin_url) == url
                &&& url is None ==> final(self).status_source == old(self).status_source
                    && final(self).monitor_start_pending == old(self).monitor_start_pending && r is Nothing
                &&& url is Some ==> {
                    let source = monitor_of(plugins@, url->0);
                    let peers = loaded_from(plugins@, url->0);
                    let pending = source is None && old(self).monitor_start_pending;
                    let owner = old(self).is_monitor && source == old(self).plugin_id;
                    &&& final(self).status_source == source
                    &&& owner ==> r is Publish && final(self).status_observers@ == peers.to_set()
                        && final(self).monitor_start_pending == pending
                    &&& !owner && source is None && !pending && peers.len() > 0 && peers[0] == id
                        ==> r is LaunchMonitor && final(self).monitor_start_pending
                    &&& !owner && !(source is None && !pending && peers.len() > 0 && peers[0] == id)
                        ==> final(self).monitor_start_pending == pending
                            && (if source != old(self).status_source { r is RequestSync } else { r is Nothing })
                    &&& !owner ==> final(self).status_observers == old(self).status_observers
                }
            }),
            final(self).agents == old(self).agents,
            final(self).error == old(self).error,
            final(self).plugin_id == old(self).plugin_id,
            final(self).is_monitor == old(self).is_monitor,
            final(self).pane_manifest == old(self).pane_manifest,
            final(self).tabs == old(self).tabs,
    {
        if plugins.len() == 0 {
            return SessionStep::Nothing;
        }
        let id = match self.plugin_id {
            Some(id) => id,
            None => return SessionStep::Nothing,
        };
        match plugin_index(plugins.as_slice(), id) {
            Some(i) => {
                self.plugin_url = Some(plugins[i].1.location.clone());
            },
            None => {},
        }
        let url = match &self.plugin_url {
            Some(u) => u.clone(),
            None => return SessionStep::Nothing,
        };
        let want = chars_of(url.as_str());
        let mut peers: Vec<u32> = Vec::new();
        let mut k: usize = 0;
        assert(plugins@.take(0) =~= Seq::<(u32, PluginInfo)>::empty());
        while k < plugins.len()
            invariant
                k <= plugins@.len(),
                want@ == url@,
                peers@ == loaded_from(plugins@.take(k as int), url@),
            decreases plugins@.len() - k,
        {
            assert(plugins@.take(k + 1).drop_last() =~= plugins@.take(k as int));
            assert(plugins@.take(k + 1).last() == plugins@[k as int]);
            if equal_chars(&chars_of(plugins[k].1.location.as_str()), &want) {
                peers.push(plugins[k].0);
            }
            k = k + 1;
        }
        assert(plugins@.take(plugins@.len() as int) =~= plugins@);
        let source = monitor_source(plugins.as_slice(), url.as_str());
        let previous = self.status_source;
        self.status_source = source;
        if source.is_some() {
            self.monitor_start_pending = false;
        }
        if self.owns_status() {
            let mut observers = IdSet::new();
            let mut j: usize = 0;
            while j < peers.len()
                invariant
                    j <= peers@.len(),
                    observers@ == peers@.take(j as int).to_set(),
                decreases peers@.len() - j,
            {
                observers.insert(peers[j]);
                assert(peers@.take(j + 1) =~= peers@.take(j as int).push(peers@[j as int]));
                proof {
                    Seq::<u32>::lemma_to_set_insert_commutes(peers@.take(j as int), peers@[j as int]);
                    assert(peers@.take(j as int) + seq![peers@[j as int]] =~= peers@.take(j + 1));
                    assert(observers@ =~= peers@.take(j + 1).to_set());
                }
                j = j + 1;
            }
            assert(peers@.take(peers@.len() as int) =~= peers@);
            self.status_observers = observers;
            return SessionStep::Publish;
        }
        if source.is_none() && !self.monitor_start_pending && peers.len() > 0 && peers[0] == id {
            self.monitor_start_pending = true;
            return SessionStep::LaunchMonitor;
        }
        if source != previous {
            return SessionStep::RequestSync;
        }
        SessionStep::Nothing
    }

    /// Takes a snapshot from the status source; true when it changed the agents
    /// or the error. The owner, and any other sender, is ignored.
    pub fn accept_snapshot(&mut self, source: u32, snapshot: AgentSnapshot) -> (r: bool)
        ensures
            owns(*old(self)) || old(self).status_source != Some(source) ==> *final(self) == *old(self) && !r,
            !owns(*old(self)) && old(self).status_source == Some(source) ==> {
                &&& final(self).agents@ == snapshot.agents@
                &&& final(self).error == snapshot.error
                &&& r == !(old(self).agents@ == snapshot.agents@ && opt_view(old(self).error) == opt_view(snapshot.error))
                &&& same_but_agents(App { error: snapshot.error, ..*old(self) }, *final(self))
            },
    {
        let from_source = match self.status_source {
            Some(s) => s == source,
            None => false,
        };
        if self.owns_status() || !from_source {
            return false;
        }
        let changed = !(self.agents.same_as(&snapshot.agents) && same_text(&self.error, &snapshot.error));
        self.agents = snapshot.agents;
        self.error = snapshot.error;
        changed
    }

    /// Where a pipe report goes: the owner applies it; another instance
    /// forwards a private report to the status source, or holds it until
    /// the source is known, and ignores a broadcast one.
    pub fn route_report(&self, is_private: bool) -> (r: ReportRoute)
        ensures
            owns(*self) ==> r == ReportRoute::Apply,
            !owns(*self) && !is_private ==> r == ReportRoute::Drop,
            !owns(*self) && is_private ==> r == match self.status_source {
                Some(s) => ReportRoute::Forward(s),
                None => ReportRoute::Hold,
            },
    {
        if self.owns_status() {
            return ReportRoute::Apply;
        }
        if !is_private {
            return ReportRoute::Drop;
        }
        match self.status_source {
            Some(s) => ReportRoute::Forward(s),
            None => ReportRoute::Hold,
        }
    }

    /// Keeps a private report until the status source is known: it goes to
    /// the end of the queue, and nothing else changes.
    pub fn hold_report(&mut self, report: PipeReport)
        ensures
            final(self).pending_reports@ == old(self).pending_reports@.push(report),
            final(self).agents == old(self).agents,
            same_but_agents(App { pending_reports: final(self).pending_reports, ..*old(self) }, *final(self)),
    {
        self.pending_reports.push(report);
    }

    /// The held reports to take up again: once the status source is known,
    /// all of them in arrival order, and the queue is emptied; before, none,
    /// and they stay held.
    pub fn take_held_reports(&mut self) -> (r: Vec<PipeReport>)
        ensures
            old(self).status_source is Some ==> r@ == old(self).pending_reports@ && final(self).pending_reports@.len() == 0,
            old(self).status_source is None ==> r@.len() == 0 && final(self).pending_reports == old(self).pending_reports,
            final(self).agents == old(self).agents,
            same_but_agents(App { pending_reports: final(self).pending_reports, ..*old(self) }, *final(self)),
    {
        let mut taken: Vec<PipeReport> = Vec::new();
        if self.status_source.is_some() {
            std::mem::swap(&mut taken, &mut self.pending_reports);
        }
        taken
    }

    /// Whether a report from `origin` with `payload` was already taken.
    fn already_seen(&self, origin: &String, payload: &String) -> (r: bool)
        ensures
            r == seen_views(self.seen_reports@).contains((origin@, payload@)),
    {
        let o = chars_of(origin.as_str());
        let p = chars_of(payload.as_str());
        let ghost sv = seen_views(self.seen_reports@);
        let mut i: usize = 0;
        while i < self.seen_reports.len()
            invariant
                i <= self.seen_reports@.len(),
                sv == seen_views(self.seen_reports@),
                o@ == origin@,
                p@ == payload@,
                forall|k: int| 0 <= k < i ==> #[trigger] sv[k] != (origin@, payload@),
            decreases self.seen_reports@.len() - i,
        {
            let e = &self.seen_reports[i];
            assert(sv[i as int] == (e.0@, e.1@));
            if equal_chars(&chars_of(e.0.as_str()), &o) && equal_chars(&chars_of(e.1.as_str()), &p) {
                assert(sv[i as int] == (origin@, payload@));
                return true;
            }
            i = i + 1;
        }
        false
    }

    /// Takes a report read from the pipe as the owner. A report already
    /// taken from the same origin pipe is ignored (false); otherwise it is
    /// remembered, and a valid report is applied and the current view read,
    /// while an invalid one becomes the error (true).
    pub fn receive_parsed_report(
        &mut self,
        origin: Option<String>,
        payload: String,
        parsed: Result<AgentReport, String>,
    ) -> (r: bool)
        ensures
            ({
                let duplicate = origin is Some && seen_views(old(self).seen_reports@).contains((origin->0@, payload@));
                &&& duplicate ==> *final(self) == *old(self) && !r
                &&& !duplicate ==> r
                &&& !duplicate ==> seen_views(final(self).seen_reports@) == match origin {
                    Some(o) => remembered(seen_views(old(self).seen_reports@), o@, payload@),
                    None => seen_views(old(self).seen_reports@),
                }
                &&& !duplicate && parsed is Ok && owns(*old(self)) ==> {
                    let s = applied(old(self).agents@, old(self).focused_pane_id,
                        located(old(self).agents@, old(self).pane_manifest.panes@, old(self).tabs@, parsed->Ok_0@));
                    &&& final(self).agents@ == refreshed(s, old(self).tabs@, old(self).pane_manifest.panes@)
                    &&& final(self).focused_pane_id == refreshed_focus(old(self).tabs@, old(self).pane_manifest.panes@, old(self).focused_pane_id)
                    &&& final(self).error is None
                }
                &&& !duplicate && parsed is Ok && !owns(*old(self)) ==> {
                    &&& final(self).agents@ == applied(old(self).agents@, old(self).focused_pane_id,
                        located(old(self).agents@, old(self).pane_manifest.panes@, old(self).tabs@, parsed->Ok_0@))
                    &&& final(self).focused_pane_id == old(self).focused_pane_id
                    &&& final(self).error is None
                }
                &&& !duplicate && parsed is Err ==> {
                    &&& final(self).agents@ == old(self).agents@
                    &&& opt_view(final(self).error) == Some("invalid status report: "@ + parsed->Err_0@)
                }
            }),
            old(self).seen_reports@.len() <= 64 ==> final(self).seen_reports@.len() <= 64,
            final(self).tabs == old(self).tabs,
            final(self).pane_manifest == old(self).pane_manifest,
            final(self).plugin_id == old(self).plugin_id,
            final(self).status_source == old(self).status_source,
            final(self).is_monitor == old(self).is_monitor,
    {
        match &origin {
            Some(o) => {
                if self.already_seen(o, &payload) {
                    return false;
                }
            },
            None => {},
        }
        match origin {
            Some(o) => {
                let ghost before = seen_views(self.seen_reports@);
                self.seen_reports.push_back((o, payload.clone()));
                assert(seen_views(self.seen_reports@) =~= before.push((o@, payload@)));
                if self.seen_reports.len() > 64 {
                    let ghost grown = seen_views(self.seen_reports@);
                    self.seen_reports.pop_front();
                    assert(seen_views(self.seen_reports@) =~= grown.drop_first());
                }
            },
            None => {},
        }
        match parsed {
            Ok(agent) => {
                self.apply_report(agent);
                self.refresh_current_view();
                self.error = None;
            },
            Err(e) => {
                let mut text = chars_of("invalid status report: ");
                push_all(&mut text, &chars_of(e.as_str()));
                self.error = Some(string_of(text.as_slice()));
            },
        }
        true
    }
}

/// Two tabs that hold the same values.
pub open spec fn same_tab(a: TabInfo, b: TabInfo) -> bool {
    &&& a.position == b.position
    &&& a.tab_id == b.tab_id
    &&& a.name@ == b.name@
    &&& a.active == b.active
    &&& a.are_floating_panes_visible == b.are_floating_panes_visible
    &&& a.is_fullscreen_active == b.is_fullscreen_active
    &&& a.is_sync_panes_active == b.is_sync_panes_active
    &&& a.has_bell_notification == b.has_bell_notification
    &&& a.is_flashing_bell == b.is_flashing_bell
    &&& a.other_focused_clients@ == b.other_focused_clients@
    &&& a.panes_to_hide == b.panes_to_hide
    &&& opt_view(a.active_swap_layout_name) == opt_view(b.active_swap_layout_name)
    &&& a.is_swap_layout_dirty == b.is_swap_layout_dirty
    &&& a.viewport_rows == b.viewport_rows
    &&& a.viewport_columns == b.viewport_columns
    &&& a.display_area_rows == b.display_area_rows
    &&& a.display_area_columns == b.display_area_columns
    &&& a.selectable_tiled_panes_count == b.selectable_tiled_panes_count
    &&& a.selectable_floating_panes_count == b.selectable_floating_panes_count
}

/// Two tab lists that hold the same tabs in the same order.
pub open spec fn same_tabs(a: Seq<TabInfo>, b: Seq<TabInfo>) -> bool {
    a.len() == b.len() && forall|i: int| 0 <= i < a.len() ==> #[trigger] same_tab(a[i], b[i])
}

/// Whether two client lists are equal.
fn same_clients(a: &Vec<u16>, b: &Vec<u16>) -> (r: bool)
    ensures
        r == (a@ == b@),
{
    if a.len() != b.len() {
        return false;
    }
    let mut i: usize = 0;
    while i < a.len()
        invariant
            i <= a@.len(),
            a@.len() == b@.len(),
            forall|k: int| 0 <= k < i ==> a@[k] == b@[k],
        decreases a@.len() - i,
    {
        if a[i] != b[i] {
            return false;
        }
        i = i + 1;
    }
    assert(a@ =~= b@);
    true
}

/// Whether two tab lists hold the same tabs.
pub fn tabs_equal(a: &Vec<TabInfo>, b: &Vec<TabInfo>) -> (r: bool)
    ensures
        r == same_tabs(a@, b@),
{
    if a.len() != b.len() {
        return false;
    }
    let mut i: usize = 0;
    while i < a.len()
        invariant
            i <= a@.len(),
            a@.len() == b@.len(),
            forall|k: int| 0 <= k < i ==> #[trigger] same_tab(a@[k], b@[k]),
        decreases a@.len() - i,
    {
        let x = &a[i];
        let y = &b[i];
        let same = x.position == y.position && x.tab_id == y.tab_id
            && equal_chars(&chars_of(x.name.as_str()), &chars_of(y.name.as_str()))
            && x.active == y.active && x.are_floating_panes_visible == y.are_floating_panes_visible
            && x.is_fullscreen_active == y.is_fullscreen_active && x.is_sync_panes_active == y.is_sync_panes_active
            && x.has_bell_notification == y.has_bell_notification && x.is_flashing_bell == y.is_flashing_bell
            && same_clients(&x.other_focused_clients, &y.other_focused_clients)
            && x.panes_to_hide == y.panes_to_hide
            && same_text(&x.active_swap_layout_name, &y.active_swap_layout_name)
            && x.is_swap_layout_dirty == y.is_swap_layout_dirty
            && x.viewport_rows == y.viewport_rows && x.viewport_columns == y.viewport_columns
            && x.display_area_rows == y.display_area_rows && x.display_area_columns == y.display_area_columns
            && x.selectable_tiled_panes_count == y.selectable_tiled_panes_count
            && x.selectable_floating_panes_count == y.selectable_floating_panes_count;
        assert(same == same_tab(a@[i as int], b@[i as int]));
        if !same {
            return false;
        }
        i = i + 1;
    }
    true
}

/// The readings of a render report: each pane with what its screen shows.
pub open spec fn readings(panes: Seq<(u32, Vec<String>)>) -> Seq<(u32, Option<bool>)> {
    panes.map_values(|p: (u32, Vec<String>)| (p.0, activity(views(p.1@))))
}

/// The screens of a render report read in order: the agents, the recovered
/// readings, and whether the agents changed.
pub open spec fn contents_fold(
    s: Seq<AgentView>,
    recovered: Set<u32>,
    focused: Option<u32>,
    entries: Seq<(usize, Vec<crate::model::PaneInfo>)>,
    tabs: Seq<TabInfo>,
    rs: Seq<(u32, Option<bool>)>,
) -> (Seq<AgentView>, Set<u32>, bool)
    decreases rs.len(),
{
    if rs.len() == 0 {
        (s, recovered, false)
    } else {
        let (s1, r1) = contents_effect(s, recovered, focused, entries, tabs, rs[0].0, rs[0].1);
        let c1 = contents_changes(s, recovered, rs[0].0, rs[0].1);
        let (s2, r2, c2) = contents_fold(s1, r1, focused, entries, tabs, rs.drop_first());
        (s2, r2, c1 || c2)
    }
}

/// The kind of a pipe message, by its name.
#[derive(Clone, Copy, Debug, PartialEq, Eq, Structural)]
pub enum PipeKind {
    /// `codex_status`: a lifecycle report.
    StatusReport,
    /// `show_dashboard`: open the dashboard.
    ShowDashboard,
    /// `sync_agents`: a dashboard asks the owner for a snapshot.
    SyncAgents,
    /// `agent_snapshot`: the owner's published snapshot.
    AgentSnapshot,
    /// `stop_dashboard`: close every instance.
    StopDashboard,
    /// `list_agents`: print the agents to the command line.
    ListAgents,
    Other,
}

/// The kind that a pipe message's name gives it.
pub open spec fn pipe_kind_of(name: Seq<char>) -> PipeKind {
    if name == "codex_status"@ {
        PipeKind::StatusReport
    } else if name == "show_dashboard"@ {
        PipeKind::ShowDashboard
    } else if name == "sync_agents"@ {
        PipeKind::SyncAgents
    } else if name == "agent_snapshot"@ {
        PipeKind::AgentSnapshot
    } else if name == "stop_dashboard"@ {
        PipeKind::StopDashboard
    } else if name == "list_agents"@ {
        PipeKind::ListAgents
    } else {
        PipeKind::Other
    }
}

/// Classifies a pipe message by its name.
pub fn pipe_kind(name: &str) -> (r: PipeKind)
    ensures
        r == pipe_kind_of(name@),
{
    let n = chars_of(name);
    if equal_chars(&n, &chars_of("codex_status")) {
        PipeKind::StatusReport
    } else if equal_chars(&n, &chars_of("show_dashboard")) {
        PipeKind::ShowDashboard
    } else if equal_chars(&n, &chars_of("sync_agents")) {
        PipeKind::SyncAgents
    } else if equal_chars(&n, &chars_of("agent_snapshot")) {
        PipeKind::AgentSnapshot
    } else if equal_chars(&n, &chars_of("stop_dashboard")) {
        PipeKind::StopDashboard
    } else if equal_chars(&n, &chars_of("list_agents")) {
        PipeKind::ListAgents
    } else {
        PipeKind::Other
    }
}

impl App {
    /// Reads the plugin's configuration: its id, its role (`monitor` makes
    /// it the background owner) and the tab its dashboard belongs to.
    pub fn load_configuration(&mut self, plugin_id: u32, role: Option<String>, dashboard_tab_id: Option<String>)
        ensures
            final(self).plugin_id == Some(plugin_id),
            final(self).is_monitor == (opt_view(role) == Some("monitor"@)),
            final(self).dashboard_visible == !final(self).is_monitor,
            final(self).status_source == if final(self).is_monitor { Some(plugin_id) } else { old(self).status_source },
            final(self).dashboard_tab_id == match dashboard_tab_id {
                Some(t) => usize_parse(t@),
                None => None,
            },
            final(self).dashboard_named == final(self).dashboard_tab_id is Some,
            final(self).bootstrap_pending,
            final(self).agents == old(self).agents,
            same_but_agents(
                App {
                    plugin_id: final(self).plugin_id,
                    is_monitor: final(self).is_monitor,
                    dashboard_visible: final(self).dashboard_visible,
                    status_source: final(self).status_source,
                    dashboard_tab_id: final(self).dashboard_tab_id,
                    dashboard_named: final(self).dashboard_named,
                    bootstrap_pending: true,
                    ..*old(self)
                },
                *final(self),
            ),
    {
        self.plugin_id = Some(plugin_id);
        self.is_monitor = holds_text(&role, &chars_of("monitor"));
        self.dashboard_visible = !self.is_monitor;
        if self.is_monitor {
            self.status_source = self.plugin_id;
        }
        self.dashboard_tab_id = match &dashboard_tab_id {
            Some(t) => parse_usize(t.as_str()),
            None => None,
        };
        self.dashboard_named = self.dashboard_tab_id.is_some();
        self.bootstrap_pending = true;
    }

    /// Refreshes the agents: the owner clears its error and takes its own
    /// pane manifest again (see `update_pane_manifest`); another instance
    /// answers true, to ask the status source for a snapshot.
    pub fn refresh_agents(&mut self) -> (r: bool)
        ensures
            !owns(*old(self)) ==> *final(self) == *old(self) && r,
            owns(*old(self)) ==> ({
                let entries = old(self).pane_manifest.panes@;
                let s0 = old(self).agents@;
                let s1 = s0.filter(paneless_or_live(live_terminals(entries)));
                let s2 = reconciled(s1, discovered_all(entries, old(self).tabs@, s1));
                &&& !r
                &&& final(self).error is None
                &&& final(self).pane_manifest == old(self).pane_manifest
                &&& final(self).agents@ == refreshed(s2, old(self).tabs@, entries)
                &&& final(self).agents@ == manifest_agents(s0, old(self).tabs@, entries)
                &&& final(self).focused_pane_id == refreshed_focus(old(self).tabs@, entries, old(self).focused_pane_id)
                &&& final(self).recovered_running_panes@ == old(self).recovered_running_panes@.intersect(live_terminals(entries))
            }),
    {
        if !self.owns_status() {
            return true;
        }
        self.error = None;
        let mut manifest = PaneManifest::default();
        std::mem::swap(&mut manifest, &mut self.pane_manifest);
        self.update_pane_manifest(manifest);
        false
    }

    /// Takes a tab update: returns whether to redraw (the tabs or a status
    /// changed) and whether a status changed (to publish).
    pub fn update_tabs(&mut self, tabs: Vec<TabInfo>) -> (r: (bool, bool))
        ensures
            final(self).tabs == tabs,
            owns(*old(self)) ==> final(self).agents@ == refreshed(old(self).agents@, tabs@, old(self).pane_manifest.panes@)
                && final(self).focused_pane_id == refreshed_focus(tabs@, old(self).pane_manifest.panes@, old(self).focused_pane_id)
                && r.1 == refresh_reads(old(self).agents@, tabs@, old(self).pane_manifest.panes@),
            !owns(*old(self)) ==> final(self).agents == old(self).agents && final(self).focused_pane_id == old(self).focused_pane_id && !r.1,
            r.0 == (!same_tabs(old(self).tabs@, tabs@) || r.1),
            final(self).pane_manifest == old(self).pane_manifest,
            same_but_agents(
                App { tabs: final(self).tabs, focused_pane_id: final(self).focused_pane_id, ..*old(self) },
                *final(self),
            ),
    {
        let tabs_changed = !tabs_equal(&self.tabs, &tabs);
        self.tabs = tabs;
        let status_changed = self.refresh_current_view();
        (tabs_changed || status_changed, status_changed)
    }

    /// Reads the screens of a render report as the owner (see
    /// `contents_fold`), then the current view. True when the agents changed.
    pub fn observe_render_report(&mut self, panes: Vec<(u32, Vec<String>)>) -> (r: bool)
        ensures
            !owns(*old(self)) ==> *final(self) == *old(self) && !r,
            owns(*old(self)) ==> ({
                let (s, rec, changed) = contents_fold(old(self).agents@, old(self).recovered_running_panes@,
                    old(self).focused_pane_id, old(self).pane_manifest.panes@, old(self).tabs@, readings(panes@));
                &&& final(self).agents@ == refreshed(s, old(self).tabs@, old(self).pane_manifest.panes@)
                &&& final(self).recovered_running_panes@ == rec
                &&& final(self).focused_pane_id == refreshed_focus(old(self).tabs@, old(self).pane_manifest.panes@, old(self).focused_pane_id)
                &&& r == (changed || refresh_reads(s, old(self).tabs@, old(self).pane_manifest.panes@))
                &&& same_but_agents(
                    App {
                        recovered_running_panes: final(self).recovered_running_panes,
                        focused_pane_id: final(self).focused_pane_id,
                        ..*old(self)
                    },
                    *final(self),
                )
            }),
    {
        if !self.owns_status() {
            return false;
        }
        let ghost rs = readings(panes@);
        let ghost target = contents_fold(self.agents@, self.recovered_running_panes@, self.focused_pane_id,
            self.pane_manifest.panes@, self.tabs@, rs);
        let ghost start = *self;
        let mut changed = false;
        let mut i: usize = 0;
        assert(rs.skip(0) =~= rs);
        while i < panes.len()
            invariant
                i <= panes@.len(),
                rs == readings(panes@),
                owns(*self),
                same_but_agents(App { recovered_running_panes: self.recovered_running_panes, ..start }, *self),
                ({
                    let (sf, rf, cf) = contents_fold(self.agents@, self.recovered_running_panes@, self.focused_pane_id,
                        self.pane_manifest.panes@, self.tabs@, rs.skip(i as int));
                    sf == target.0 && rf == target.1 && (changed || cf) == target.2
                }),
            decreases panes@.len() - i,
        {
            assert(rs.skip(i as int).drop_first() =~= rs.skip(i + 1));
            assert(rs.skip(i as int)[0] == rs[i as int]);
            let c = self.observe_pane_contents(panes[i].0, panes[i].1.as_slice());
            changed = changed || c;
            i = i + 1;
        }
        assert(rs.skip(panes@.len() as int) =~= Seq::<(u32, Option<bool>)>::empty());
        let seen = self.refresh_current_view();
        changed || seen
    }
}

/// The status source found is a plugin loaded from the URL with the role
/// `monitor`, the first such; none is found only when no plugin is one.
pub proof fn law_the_status_source_is_the_first_monitor(plugins: Seq<(u32, PluginInfo)>, url: Seq<char>)
    ensures
        monitor_of(plugins, url) matches Some(id) ==> exists|k: int|
            0 <= k < plugins.len() && (#[trigger] plugins[k]).0 == id && plugins[k].1.location@ == url && opt_view(
                plugins[k].1.role,
            ) == Some("monitor"@) && forall|m: int|
                0 <= m < k ==> !((#[trigger] plugins[m]).1.location@ == url && opt_view(plugins[m].1.role) == Some(
                    "monitor"@,
                )),
        monitor_of(plugins, url) is None ==> forall|k: int|
            0 <= k < plugins.len() ==> !((#[trigger] plugins[k]).1.location@ == url && opt_view(plugins[k].1.role) == Some(
                "monitor"@,
            )),
    decreases plugins.len(),
{
    if plugins.len() > 0 {
        let d = plugins.drop_first();
        law_the_status_source_is_the_first_monitor(d, url);
        if !(plugins[0].1.location@ == url && role_of(plugins[0].1) == Some("monitor"@)) {
            if monitor_of(plugins, url) is Some {
                let k = choose|k: int|
                    0 <= k < d.len() && (#[trigger] d[k]).0 == monitor_of(plugins, url)->0 && d[k].1.location@ == url
                        && opt_view(d[k].1.role) == Some("monitor"@) && forall|m: int|
                        0 <= m < k ==> !((#[trigger] d[m]).1.location@ == url && opt_view(d[m].1.role) == Some(
                            "monitor"@,
                        ));
                assert(plugins[k + 1] == d[k]);
                assert forall|m: int| 0 <= m < k + 1 implies !((#[trigger] plugins[m]).1.location@ == url && opt_view(
                    plugins[m].1.role,
                ) == Some("monitor"@)) by {
                    if m > 0 {
                        assert(plugins[m] == d[m - 1]);
                    }
                }
            } else {
                assert forall|k: int| 0 <= k < plugins.len() implies !((#[trigger] plugins[k]).1.location@ == url
                    && opt_view(plugins[k].1.role) == Some("monitor"@)) by {
                    if k > 0 {
                        assert(plugins[k] == d[k - 1]);
                    }
                }
            }
        } else {
            assert(plugins[0].0 == monitor_of(plugins, url)->0);
        }
    }
}

/// A taken report is remembered as the latest; at most 64 are kept, the
/// oldest forgotten first, and the rest keep their order.
pub proof fn law_taken_reports_are_remembered_newest_last(
    seen: Seq<(Seq<char>, Seq<char>)>,
    origin: Seq<char>,
    payload: Seq<char>,
)
    ensures
        remembered(seen, origin, payload).last() == (origin, payload),
        remembered(seen, origin, payload).contains((origin, payload)),
        seen.len() <= 64 ==> remembered(seen, origin, payload).len() <= 64,
        seen.len() < 64 ==> remembered(seen, origin, payload) == seen.push((origin, payload)),
        remembered(seen, origin, payload).is_suffix_of(seen.push((origin, payload))),
{
    let s = seen.push((origin, payload));
    let r = remembered(seen, origin, payload);
    assert(r[r.len() - 1] == (origin, payload));
    if s.len() > 64 {
        assert(s.subrange(s.len() - r.len(), s.len() as int) =~= r);
    } else {
        assert(s.subrange(0, s.len() as int) =~= s);
    }
}

} // verus!
