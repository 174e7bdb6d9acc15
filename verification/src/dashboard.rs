//! The dashboard's status state: the agent table, what is known of the
//! session's tabs and panes, and the rules that keep them in step.
use std::collections::VecDeque;
use vstd::prelude::*;
use crate::agents::{AgentReport, AgentTable, AgentView, acknowledged, off_pane, not_id, put, restatused, with_location, with_status};
use crate::idset::IdSet;
use crate::model::{PaneInfo, PaneManifest, TabInfo, all_panes, panes_at};
use crate::status::Status;
use crate::text::{starts_with_chars, chars_of, decimal, decimal_chars, equal_chars, push_all, string_of, trim, trim_chars};
use crate::detect::{activity, codex_activity, is_codex_command, starts_codex, views};
use crate::overlay::{FloatingPaneState, PendingFloatingPaneSuppression};

verus! {

/// A pane, told apart by kind: terminal and plugin panes are numbered separately.
#[derive(Clone, Copy, Debug, PartialEq, Eq, Structural)]
pub enum PaneId {
    Terminal(u32),
    Plugin(u32),
}

/// What the status owner publishes to the dashboards: the agents and the last error.
pub struct AgentSnapshot {
    pub agents: AgentTable,
    pub error: Option<String>,
}

/// A status report that came through a pipe, held as plain values.
pub struct PipeReport {
    pub is_private: bool,
    /// The pipe's id, when the report came from the command line.
    pub cli_pipe_id: Option<String>,
    /// The pipe's arguments, each key once.
    pub args: Vec<(String, String)>,
    pub payload: Option<String>,
}

/// The state of one instance of the dashboard plugin.
pub struct App {
    pub agents: AgentTable,
    pub dashboard_tab_id: Option<usize>,
    pub focused_pane_id: Option<u32>,
    /// Panes whose screen showed Codex working without a lifecycle report.
    pub recovered_running_panes: IdSet,
    pub error: Option<String>,
    pub pane_manifest: PaneManifest,
    pub tabs: Vec<TabInfo>,
    pub checkpoint_pending: bool,
    pub bootstrap_pending: bool,
    pub dashboard_named: bool,
    pub dashboard_visible: bool,
    pub plugin_id: Option<u32>,
    /// The plugin instance that owns the status table.
    pub status_source: Option<u32>,
    /// Recently applied reports, by origin pipe and payload.
    pub seen_reports: VecDeque<(String, String)>,
    pub plugin_url: Option<String>,
    pub status_observers: IdSet,
    pub last_published: Option<AgentSnapshot>,
    pub published_peers: IdSet,
    pub is_monitor: bool,
    pub monitor_start_pending: bool,
    /// The floating pane the dashboard was opened over, to restore on close.
    pub visible_floating_pane: Option<FloatingPaneState>,
    /// Floating panes hidden while the dashboard is open.
    pub suppressed_floating_panes: Vec<FloatingPaneState>,
    /// A tab whose floating panes are to be hidden once the manifest lists them.
    pub pending_floating_pane_suppression: Option<PendingFloatingPaneSuppression>,
    /// Private reports that wait, in arrival order, for the status source to be known.
    pub pending_reports: Vec<PipeReport>,
}

impl Default for App {
    fn default() -> (r: Self)
        ensures
            r.agents@.len() == 0,
            r.focused_pane_id is None,
            r.error is None,
            r.tabs@.len() == 0,
            r.pane_manifest.panes@.len() == 0,
            r.plugin_id is None,
            r.status_source is None,
            r.seen_reports@.len() == 0,
            r.plugin_url is None,
            r.last_published is None,
            !r.is_monitor,
            r.recovered_running_panes@ == Set::<u32>::empty(),
            r.visible_floating_pane is None,
            r.suppressed_floating_panes@.len() == 0,
            r.pending_floating_pane_suppression is None,
            r.pending_reports@.len() == 0,
    {
        App {
            agents: AgentTable::new(),
            dashboard_tab_id: None,
            focused_pane_id: None,
            recovered_running_panes: IdSet::new(),
            error: None,
            pane_manifest: PaneManifest::default(),
            tabs: Vec::new(),
            checkpoint_pending: false,
            bootstrap_pending: false,
            dashboard_named: false,
            dashboard_visible: false,
            plugin_id: None,
            status_source: None,
            seen_reports: VecDeque::new(),
            plugin_url: None,
            status_observers: IdSet::new(),
            last_published: None,
            published_peers: IdSet::new(),
            is_monitor: false,
            monitor_start_pending: false,
            visible_floating_pane: None,
            suppressed_floating_panes: Vec::new(),
            pending_floating_pane_suppression: None,
            pending_reports: Vec::new(),
        }
    }
}

/// The text of an optional string.
pub open spec fn opt_view(o: Option<String>) -> Option<Seq<char>> {
    match o {
        Some(s) => Some(s@),
        None => None,
    }
}

/// The stable id of the first tab at `position`.
pub open spec fn tab_id_at(tabs: Seq<TabInfo>, position: usize) -> Option<usize>
    decreases tabs.len(),
{
    if tabs.len() == 0 {
        None
    } else if tabs[0].position == position {
        Some(tabs[0].tab_id)
    } else {
        tab_id_at(tabs.drop_first(), position)
    }
}

/// A tab that an agent's report places it in: by stable id when the report
/// has one, else by position.
pub open spec fn tab_holds_agent(t: TabInfo, a: AgentView) -> bool {
    match a.tab_id {
        Some(id) => t.tab_id == id,
        None => a.tab_position == Some(t.position),
    }
}

/// The first tab that holds the agent.
pub open spec fn tab_of_agent(tabs: Seq<TabInfo>, a: AgentView) -> Option<TabInfo>
    decreases tabs.len(),
{
    if tabs.len() == 0 {
        None
    } else if tab_holds_agent(tabs[0], a) {
        Some(tabs[0])
    } else {
        tab_of_agent(tabs.drop_first(), a)
    }
}

/// The tab name shown for an agent: the name of its tab, or a dash when the
/// tab is unknown or its name is blank.
pub open spec fn agent_tab_label(tabs: Seq<TabInfo>, a: AgentView) -> Seq<char> {
    match tab_of_agent(tabs, a) {
        Some(t) => if trim(t.name@).len() > 0 {
            t.name@
        } else {
            "—"@
        },
        None => "—"@,
    }
}

/// The first agent (in id order) that runs in `pane`.
pub open spec fn agent_on_pane(s: Seq<AgentView>, pane: u32) -> Option<AgentView>
    decreases s.len(),
{
    if s.len() == 0 {
        None
    } else if s[0].pane_id == Some(pane) {
        Some(s[0])
    } else {
        agent_on_pane(s.drop_first(), pane)
    }
}

/// The index of the first agent on `pane`, or the length of `s` when none runs there.
pub open spec fn index_on_pane(s: Seq<AgentView>, pane: u32) -> nat
    decreases s.len(),
{
    if s.len() == 0 {
        0
    } else if s[0].pane_id == Some(pane) {
        0
    } else {
        1 + index_on_pane(s.drop_first(), pane)
    }
}

/// `panes` holds a terminal pane with id `pane`.
pub open spec fn has_terminal(panes: Seq<PaneInfo>, pane: u32) -> bool {
    exists|j: int| 0 <= j < panes.len() && !panes[j].is_plugin && #[trigger] panes[j].id == pane
}

/// `panes` holds a plugin pane with id `plugin`.
pub open spec fn has_plugin(panes: Seq<PaneInfo>, plugin: u32) -> bool {
    exists|j: int| 0 <= j < panes.len() && panes[j].is_plugin && #[trigger] panes[j].id == plugin
}

/// The position of the first manifest entry that holds terminal pane `pane`.
pub open spec fn position_of_terminal(entries: Seq<(usize, Vec<PaneInfo>)>, pane: u32) -> Option<usize>
    decreases entries.len(),
{
    if entries.len() == 0 {
        None
    } else if has_terminal(entries[0].1@, pane) {
        Some(entries[0].0)
    } else {
        position_of_terminal(entries.drop_first(), pane)
    }
}

/// The position of the first manifest entry that holds plugin pane `plugin`.
pub open spec fn position_of_plugin(entries: Seq<(usize, Vec<PaneInfo>)>, plugin: u32) -> Option<usize>
    decreases entries.len(),
{
    if entries.len() == 0 {
        None
    } else if has_plugin(entries[0].1@, plugin) {
        Some(entries[0].0)
    } else {
        position_of_plugin(entries.drop_first(), plugin)
    }
}

/// Where terminal pane `pane` is known to be: the location recorded by the
/// first agent on it when that agent has one, else the tab whose manifest
/// entry holds the pane, else nowhere.
pub open spec fn known_location(
    agents: Seq<AgentView>,
    entries: Seq<(usize, Vec<PaneInfo>)>,
    tabs: Seq<TabInfo>,
    pane: u32,
) -> (Option<usize>, Option<usize>) {
    match agent_on_pane(agents, pane) {
        Some(a) if a.tab_id is Some || a.tab_position is Some => (a.tab_id, a.tab_position),
        _ => match position_of_terminal(entries, pane) {
            Some(p) => (tab_id_at(tabs, p), Some(p)),
            None => (None, None),
        },
    }
}

/// `a` or, when it is absent, `b`.
pub open spec fn or_else<T>(a: Option<T>, b: Option<T>) -> Option<T> {
    match a {
        Some(x) => Some(x),
        None => b,
    }
}

/// A report completed with the location known for its pane.
pub open spec fn located(
    agents: Seq<AgentView>,
    entries: Seq<(usize, Vec<PaneInfo>)>,
    tabs: Seq<TabInfo>,
    a: AgentView,
) -> AgentView {
    match a.pane_id {
        Some(p) => {
            let (t, q) = known_location(agents, entries, tabs, p);
            AgentView { tab_id: or_else(a.tab_id, t), tab_position: or_else(a.tab_position, q), ..a }
        },
        None => a,
    }
}

/// The agents with the report `a` applied. A removal forgets the id and
/// every agent on the report's pane. Any other report replaces every agent on
/// its pane and is stored under its id; a completed result for the focused
/// pane is stored as already read.
pub open spec fn applied(agents: Seq<AgentView>, focused: Option<u32>, a: AgentView) -> Seq<AgentView> {
    if a.remove {
        let s = agents.filter(not_id(a.id));
        match a.pane_id {
            Some(p) => s.filter(off_pane(p)),
            None => s,
        }
    } else {
        let b = if a.status == Status::Done && a.pane_id is Some && a.pane_id == focused {
            with_status(a, Status::Idle)
        } else {
            a
        };
        let s = match a.pane_id {
            Some(p) => agents.filter(off_pane(p)),
            None => agents,
        };
        put(s, b)
    }
}

/// The owner of the status table: an instance outside Zellij, or the
/// background monitor when it is the known status source.
pub open spec fn owns(app: App) -> bool {
    app.plugin_id is None || (app.is_monitor && app.status_source == app.plugin_id)
}

/// `b` differs from `a` at most in its agents.
pub open spec fn same_but_agents(a: App, b: App) -> bool {
    &&& a.dashboard_tab_id == b.dashboard_tab_id
    &&& a.focused_pane_id == b.focused_pane_id
    &&& a.recovered_running_panes == b.recovered_running_panes
    &&& a.error == b.error
    &&& a.pane_manifest == b.pane_manifest
    &&& a.tabs == b.tabs
    &&& a.checkpoint_pending == b.checkpoint_pending
    &&& a.bootstrap_pending == b.bootstrap_pending
    &&& a.dashboard_named == b.dashboard_named
    &&& a.dashboard_visible == b.dashboard_visible
    &&& a.plugin_id == b.plugin_id
    &&& a.status_source == b.status_source
    &&& a.seen_reports == b.seen_reports
    &&& a.plugin_url == b.plugin_url
    &&& a.status_observers == b.status_observers
    &&& a.last_published == b.last_published
    &&& a.published_peers == b.published_peers
    &&& a.is_monitor == b.is_monitor
    &&& a.monitor_start_pending == b.monitor_start_pending
    &&& a.visible_floating_pane == b.visible_floating_pane
    &&& a.suppressed_floating_panes == b.suppressed_floating_panes
    &&& a.pending_floating_pane_suppression == b.pending_floating_pane_suppression
    &&& a.pending_reports == b.pending_reports
}

impl App {
    /// Whether this instance owns the status table.
    pub fn owns_status(&self) -> (r: bool)
        ensures
            r == owns(*self),
    {
        self.plugin_id.is_none() || (self.is_monitor && self.status_source == self.plugin_id)
    }

    /// The stable id of the first tab at `tab_position`.
    pub fn tab_id_at_position(&self, tab_position: usize) -> (r: Option<usize>)
        ensures
            r == tab_id_at(self.tabs@, tab_position),
    {
        let mut i: usize = 0;
        assert(self.tabs@.skip(0) =~= self.tabs@);
        while i < self.tabs.len()
            invariant
                i <= self.tabs@.len(),
                tab_id_at(self.tabs@, tab_position) == tab_id_at(self.tabs@.skip(i as int), tab_position),
            decreases self.tabs@.len() - i,
        {
            assert(self.tabs@.skip(i as int).drop_first() =~= self.tabs@.skip(i + 1));
            if self.tabs[i].position == tab_position {
                return Some(self.tabs[i].tab_id);
            }
            i = i + 1;
        }
        None
    }

    /// The index of the first tab that holds `agent`.
    fn tab_index_of_agent(&self, agent: &AgentReport) -> (r: Option<usize>)
        ensures
            r matches Some(i) ==> i < self.tabs@.len() && tab_of_agent(self.tabs@, agent@) == Some(self.tabs@[i as int]),
            r is None ==> tab_of_agent(self.tabs@, agent@) is None,
    {
        let mut i: usize = 0;
        assert(self.tabs@.skip(0) =~= self.tabs@);
        while i < self.tabs.len()
            invariant
                i <= self.tabs@.len(),
                tab_of_agent(self.tabs@, agent@) == tab_of_agent(self.tabs@.skip(i as int), agent@),
            decreases self.tabs@.len() - i,
        {
            assert(self.tabs@.skip(i as int).drop_first() =~= self.tabs@.skip(i + 1));
            assert(self.tabs@.skip(i as int)[0] == self.tabs@[i as int]);
            let t = &self.tabs[i];
            let holds = match agent.tab_id {
                Some(id) => t.tab_id == id,
                None => match agent.tab_position {
                    Some(p) => p == t.position,
                    None => false,
                },
            };
            if holds {
                return Some(i);
            }
            i = i + 1;
        }
        None
    }

    /// The name of the tab that holds `agent`, or a dash.
    pub fn agent_tab_name(&self, agent: &AgentReport) -> (r: String)
        ensures
            r@ == agent_tab_label(self.tabs@, agent@),
    {
        match self.tab_index_of_agent(agent) {
            Some(i) => {
                let t = &self.tabs[i];
                let name = chars_of(t.name.as_str());
                if trim_chars(&name).len() > 0 {
                    return t.name.clone();
                }
            },
            None => {},
        }
        let dash = chars_of("—");
        string_of(dash.as_slice())
    }

    /// The first agent, in id order, on terminal pane `pane`.
    fn agent_index_on_pane(&self, pane: u32) -> (r: Option<usize>)
        ensures
            r matches Some(i) ==> i < self.agents@.len() && agent_on_pane(self.agents@, pane) == Some(
                self.agents@[i as int],
            ) && self.agents@[i as int].pane_id == Some(pane),
            r is None ==> agent_on_pane(self.agents@, pane) is None,
            r is None ==> forall|k: int|
                0 <= k < self.agents@.len() ==> #[trigger] self.agents@[k].pane_id != Some(pane),
            r matches Some(i) ==> i == index_on_pane(self.agents@, pane),
            r is None ==> index_on_pane(self.agents@, pane) == self.agents@.len(),
    {
        let values = self.agents.values();
        let mut i: usize = 0;
        assert(self.agents@.skip(0) =~= self.agents@);
        while i < values.len()
            invariant
                i <= values@.len(),
                values@.len() == self.agents@.len(),
                forall|k: int| 0 <= k < values@.len() ==> #[trigger] values@[k]@ == self.agents@[k],
                agent_on_pane(self.agents@, pane) == agent_on_pane(self.agents@.skip(i as int), pane),
                index_on_pane(self.agents@, pane) == i + index_on_pane(self.agents@.skip(i as int), pane),
                forall|k: int| 0 <= k < i ==> #[trigger] self.agents@[k].pane_id != Some(pane),
            decreases values@.len() - i,
        {
            assert(self.agents@.skip(i as int).drop_first() =~= self.agents@.skip(i + 1));
            assert(values@[i as int]@ == self.agents@[i as int]);
            let hit = match values[i].pane_id {
                Some(p) => p == pane,
                None => false,
            };
            if hit {
                return Some(i);
            }
            i = i + 1;
        }
        None
    }

    /// The position of the first manifest entry that holds terminal pane `pane`.
    fn terminal_position(&self, pane: u32) -> (r: Option<usize>)
        ensures
            r == position_of_terminal(self.pane_manifest.panes@, pane),
    {
        let entries = &self.pane_manifest.panes;
        let mut i: usize = 0;
        assert(entries@.skip(0) =~= entries@);
        while i < entries.len()
            invariant
                i <= entries@.len(),
                entries@ == self.pane_manifest.panes@,
                position_of_terminal(entries@, pane) == position_of_terminal(entries@.skip(i as int), pane),
            decreases entries@.len() - i,
        {
            assert(entries@.skip(i as int).drop_first() =~= entries@.skip(i + 1));
            let panes = &entries[i].1;
            let mut j: usize = 0;
            let mut found = false;
            while j < panes.len()
                invariant
                    j <= panes@.len(),
                    panes@ == entries@[i as int].1@,
                    i < entries@.len(),
                    entries@ == self.pane_manifest.panes@,
                    position_of_terminal(entries@, pane) == position_of_terminal(entries@.skip(i as int), pane),
                    found == has_terminal(panes@.take(j as int), pane),
                decreases panes@.len() - j,
            {
                assert(panes@.take(j + 1).drop_last() =~= panes@.take(j as int));
                if !panes[j].is_plugin && panes[j].id == pane {
                    assert(panes@.take(j + 1)[j as int] == panes@[j as int]);
                    found = true;
                } else if found {
                    let ghost w = choose|w: int| 0 <= w < j && !panes@.take(j as int)[w].is_plugin
                        && #[trigger] panes@.take(j as int)[w].id == pane;
                    assert(panes@.take(j + 1)[w] == panes@.take(j as int)[w]);
                } else {
                    assert forall|w: int| 0 <= w < j + 1 && !panes@.take(j + 1)[w].is_plugin
                        implies #[trigger] panes@.take(j + 1)[w].id != pane by {
                        if w < j {
                            assert(panes@.take(j + 1)[w] == panes@.take(j as int)[w]);
                        }
                    }
                }
                j = j + 1;
            }
            assert(panes@.take(panes@.len() as int) =~= panes@);
            assert(entries@.skip(i as int)[0] == entries@[i as int]);
            if found {
                return Some(entries[i].0);
            }
            i = i + 1;
        }
        None
    }

    /// The position of the first manifest entry that holds plugin pane `plugin_id`.
    pub fn plugin_tab_position(&self, plugin_id: u32) -> (r: Option<usize>)
        ensures
            r == position_of_plugin(self.pane_manifest.panes@, plugin_id),
    {
        let entries = &self.pane_manifest.panes;
        let mut i: usize = 0;
        assert(entries@.skip(0) =~= entries@);
        while i < entries.len()
            invariant
                i <= entries@.len(),
                entries@ == self.pane_manifest.panes@,
                position_of_plugin(entries@, plugin_id) == position_of_plugin(entries@.skip(i as int), plugin_id),
            decreases entries@.len() - i,
        {
            assert(entries@.skip(i as int).drop_first() =~= entries@.skip(i + 1));
            let panes = &entries[i].1;
            let mut j: usize = 0;
            let mut found = false;
            while j < panes.len()
                invariant
                    j <= panes@.len(),
                    panes@ == entries@[i as int].1@,
                    i < entries@.len(),
                    entries@ == self.pane_manifest.panes@,
                    position_of_plugin(entries@, plugin_id) == position_of_plugin(entries@.skip(i as int), plugin_id),
                    found == has_plugin(panes@.take(j as int), plugin_id),
                decreases panes@.len() - j,
            {
                assert(panes@.take(j + 1).drop_last() =~= panes@.take(j as int));
                if panes[j].is_plugin && panes[j].id == plugin_id {
                    assert(panes@.take(j + 1)[j as int] == panes@[j as int]);
                    found = true;
                } else if found {
                    let ghost w = choose|w: int| 0 <= w < j && panes@.take(j as int)[w].is_plugin
                        && #[trigger] panes@.take(j as int)[w].id == plugin_id;
                    assert(panes@.take(j + 1)[w] == panes@.take(j as int)[w]);
                } else {
                    assert forall|w: int| 0 <= w < j + 1 && panes@.take(j + 1)[w].is_plugin
                        implies #[trigger] panes@.take(j + 1)[w].id != plugin_id by {
                        if w < j {
                            assert(panes@.take(j + 1)[w] == panes@.take(j as int)[w]);
                        }
                    }
                }
                j = j + 1;
            }
            assert(panes@.take(panes@.len() as int) =~= panes@);
            assert(entries@.skip(i as int)[0] == entries@[i as int]);
            if found {
                return Some(entries[i].0);
            }
            i = i + 1;
        }
        None
    }

    /// Where terminal pane `pane_id` is known to be (see `known_location`).
    pub fn known_tab_location(&self, pane_id: u32) -> (r: (Option<usize>, Option<usize>))
        ensures
            r == known_location(self.agents@, self.pane_manifest.panes@, self.tabs@, pane_id),
    {
        match self.agent_index_on_pane(pane_id) {
            Some(i) => {
                let a = &self.agents.values()[i];
                if a.tab_id.is_some() || a.tab_position.is_some() {
                    return (a.tab_id, a.tab_position);
                }
            },
            None => {},
        }
        match self.terminal_position(pane_id) {
            Some(p) => (self.tab_id_at_position(p), Some(p)),
            None => (None, None),
        }
    }
}

impl App {
    /// Applies one lifecycle report (see `applied`), after completing its
    /// tab location from what is known of its pane.
    pub fn apply_report(&mut self, agent: AgentReport)
        ensures
            final(self).agents@ == applied(
                old(self).agents@,
                old(self).focused_pane_id,
                located(old(self).agents@, old(self).pane_manifest.panes@, old(self).tabs@, agent@),
            ),
            same_but_agents(*old(self), *final(self)),
    {
        let mut agent = agent;
        match agent.pane_id {
            Some(p) => {
                let (known_tab, known_position) = self.known_tab_location(p);
                if agent.tab_id.is_none() {
                    agent.tab_id = known_tab;
                }
                if agent.tab_position.is_none() {
                    agent.tab_position = known_position;
                }
            },
            None => {},
        }
        if agent.remove {
            self.agents.remove(agent.id.as_str());
            match agent.pane_id {
                Some(p) => self.agents.remove_pane(p),
                None => {},
            }
        } else {
            let on_focused = match (agent.pane_id, self.focused_pane_id) {
                (Some(p), Some(f)) => p == f,
                _ => false,
            };
            if agent.status == Status::Done && on_focused {
                agent.status = Status::Idle;
            }
            match agent.pane_id {
                Some(p) => self.agents.remove_pane(p),
                None => {},
            }
            self.agents.insert(agent);
        }
    }
}

/// Flags the agents that run in terminal pane `pane`.
pub open spec fn on_pane_flags(s: Seq<AgentView>, pane: u32) -> Seq<bool> {
    Seq::new(s.len(), |i: int| s[i].pane_id == Some(pane))
}

/// An agent that the current view shows: its tab is the active tab (by
/// stable id when both sides know it, else by position), or its pane is visible.
pub open spec fn in_view(r: AgentView, tab_id: Option<usize>, position: usize, visible: Set<u32>) -> bool {
    ||| (r.tab_id is Some && tab_id is Some && r.tab_id == tab_id)
    ||| ((r.tab_id is None || tab_id is None) && r.tab_position == Some(position))
    ||| (r.pane_id is Some && visible.contains(r.pane_id->0))
}

/// Flags the agents that the current view shows.
pub open spec fn in_view_flags(s: Seq<AgentView>, tab_id: Option<usize>, position: usize, visible: Set<u32>) -> Seq<bool> {
    Seq::new(s.len(), |i: int| in_view(s[i], tab_id, position, visible))
}

/// Some flagged agent holds an unread completed result.
pub open spec fn has_unread(s: Seq<AgentView>, flags: Seq<bool>) -> bool {
    exists|i: int| 0 <= i < flags.len() && flags[i] && #[trigger] s[i].status == Status::Done
}

/// The ids of the terminal panes of `panes` that are live and not hidden.
pub open spec fn visible_terminals(panes: Seq<PaneInfo>) -> Set<u32> {
    Set::new(
        |id: u32|
            exists|j: int|
                0 <= j < panes.len() && !panes[j].is_plugin && !panes[j].exited
                    && !panes[j].is_suppressed && #[trigger] panes[j].id == id,
    )
}

/// The terminal pane a pane id names, if any.
pub open spec fn terminal_of(pane: PaneId) -> Option<u32> {
    match pane {
        PaneId::Terminal(p) => Some(p),
        PaneId::Plugin(_) => None,
    }
}

/// The agents after focusing `pane`: completed results on that terminal pane are read.
pub open spec fn after_focus(s: Seq<AgentView>, pane: PaneId) -> Seq<AgentView> {
    match pane {
        PaneId::Terminal(p) => acknowledged(s, on_pane_flags(s, p)),
        PaneId::Plugin(_) => s,
    }
}

/// Focusing `pane` reads an unread result.
pub open spec fn focus_reads(s: Seq<AgentView>, pane: PaneId) -> bool {
    match pane {
        PaneId::Terminal(p) => has_unread(s, on_pane_flags(s, p)),
        PaneId::Plugin(_) => false,
    }
}

/// The agents after viewing the tab at `position` with `pane` focused: the
/// focused pane's results are read and, when the Codex surface is visible,
/// so are those of every agent the view shows.
pub open spec fn after_view(
    s: Seq<AgentView>,
    pane: PaneId,
    surface_visible: bool,
    tab_id: Option<usize>,
    position: usize,
    visible: Set<u32>,
) -> Seq<AgentView> {
    let f = after_focus(s, pane);
    if surface_visible {
        acknowledged(f, in_view_flags(f, tab_id, position, visible))
    } else {
        f
    }
}

/// Viewing reads an unread result.
pub open spec fn view_reads(
    s: Seq<AgentView>,
    pane: PaneId,
    surface_visible: bool,
    tab_id: Option<usize>,
    position: usize,
    visible: Set<u32>,
) -> bool {
    let f = after_focus(s, pane);
    focus_reads(s, pane) || (surface_visible && has_unread(f, in_view_flags(f, tab_id, position, visible)))
}

/// The first active tab.
pub open spec fn active_tab(tabs: Seq<TabInfo>) -> Option<TabInfo>
    decreases tabs.len(),
{
    if tabs.len() == 0 {
        None
    } else if tabs[0].active {
        Some(tabs[0])
    } else {
        active_tab(tabs.drop_first())
    }
}

/// The first focused, shown pane of `panes` on the layer (floating or tiled) in view.
pub open spec fn focused_pane(panes: Seq<PaneInfo>, floating: bool) -> Option<PaneInfo>
    decreases panes.len(),
{
    if panes.len() == 0 {
        None
    } else if panes[0].is_focused && !panes[0].is_suppressed && panes[0].is_floating == floating {
        Some(panes[0])
    } else {
        focused_pane(panes.drop_first(), floating)
    }
}

/// The id of a pane, by kind.
pub open spec fn pane_id_of(p: PaneInfo) -> PaneId {
    if p.is_plugin {
        PaneId::Plugin(p.id)
    } else {
        PaneId::Terminal(p.id)
    }
}

/// What the user currently sees: the active tab's position, the focused
/// pane on its visible layer, and whether the tiled (Codex) layer is in view.
pub open spec fn view_of(tabs: Seq<TabInfo>, entries: Seq<(usize, Vec<PaneInfo>)>) -> Option<(usize, PaneId, bool)> {
    match active_tab(tabs) {
        Some(t) => match focused_pane(crate::model::panes_at(entries, t.position), t.are_floating_panes_visible) {
            Some(p) => Some((t.position, pane_id_of(p), !t.are_floating_panes_visible)),
            None => None,
        },
        None => None,
    }
}

/// The agents after the current view is read (see `after_view`).
pub open spec fn refreshed(s: Seq<AgentView>, tabs: Seq<TabInfo>, entries: Seq<(usize, Vec<PaneInfo>)>) -> Seq<AgentView> {
    match view_of(tabs, entries) {
        Some((position, pane, surface)) => after_view(
            s,
            pane,
            surface,
            tab_id_at(tabs, position),
            position,
            visible_terminals(crate::model::panes_at(entries, position)),
        ),
        None => s,
    }
}

/// Reading the current view reads an unread result.
pub open spec fn refresh_reads(s: Seq<AgentView>, tabs: Seq<TabInfo>, entries: Seq<(usize, Vec<PaneInfo>)>) -> bool {
    match view_of(tabs, entries) {
        Some((position, pane, surface)) => view_reads(
            s,
            pane,
            surface,
            tab_id_at(tabs, position),
            position,
            visible_terminals(crate::model::panes_at(entries, position)),
        ),
        None => false,
    }
}

/// The focused terminal pane after the current view is read.
pub open spec fn refreshed_focus(tabs: Seq<TabInfo>, entries: Seq<(usize, Vec<PaneInfo>)>, focused: Option<u32>) -> Option<u32> {
    match view_of(tabs, entries) {
        Some((_, pane, _)) => terminal_of(pane),
        None => focused,
    }
}


/// The id given to an agent found on pane `pane` without a lifecycle report.
pub open spec fn discovered_id(pane: u32) -> Seq<char> {
    "discovered:pane:"@ + decimal(pane as nat)
}

/// The report made for a Codex pane found without a lifecycle report.
pub open spec fn fresh_agent(pane: u32, worktree: Seq<char>, tab_id: Option<usize>, tab_position: Option<usize>) -> AgentView {
    AgentView {
        id: discovered_id(pane),
        agent: "codex-"@ + decimal(pane as nat),
        status: Status::Idle,
        task: "Discovered running Codex"@,
        worktree: worktree,
        pane_id: Some(pane),
        tab_id: tab_id,
        tab_position: tab_position,
        remove: false,
    }
}

/// A discovered Codex pane: its id, the name of its tab, the tab's stable id
/// and its position.
pub type Discovery = (u32, Seq<char>, Option<usize>, usize);

/// The contents of the discovered panes.
pub open spec fn discovery_views(ds: Seq<(u32, String, Option<usize>, usize)>) -> Seq<Discovery> {
    ds.map_values(|d: (u32, String, Option<usize>, usize)| (d.0, d.1@, d.2, d.3))
}

/// The pane ids of a list of discoveries.
pub open spec fn discovered_panes(ds: Seq<Discovery>) -> Set<u32> {
    Set::new(|p: u32| exists|i: int| 0 <= i < ds.len() && #[trigger] ds[i].0 == p)
}

/// Agents that discovery keeps: those reported by a lifecycle hook, and
/// discovered ones whose pane is still discovered.
pub open spec fn keeps_discovery(ids: Set<u32>) -> spec_fn(AgentView) -> bool {
    |r: AgentView| !"discovered:pane:"@.is_prefix_of(r.id) || (r.pane_id is Some && ids.contains(r.pane_id->0))
}

/// One discovery applied: the first agent on the pane takes the pane's tab
/// location, or a fresh discovered agent is stored for it.
pub open spec fn discovery_step(s: Seq<AgentView>, d: Discovery) -> Seq<AgentView> {
    let k = index_on_pane(s, d.0);
    if k < s.len() {
        s.update(k as int, with_location(s[k as int], d.2, Some(d.3)))
    } else {
        put(s, fresh_agent(d.0, d.1, d.2, Some(d.3)))
    }
}

/// The discoveries applied in order.
pub open spec fn discovery_fold(s: Seq<AgentView>, ds: Seq<Discovery>) -> Seq<AgentView>
    decreases ds.len(),
{
    if ds.len() == 0 {
        s
    } else {
        discovery_fold(discovery_step(s, ds[0]), ds.drop_first())
    }
}

/// The agents reconciled with a list of discoveries: stale discovered agents
/// are dropped, then each discovery is applied.
pub open spec fn reconciled(s: Seq<AgentView>, ds: Seq<Discovery>) -> Seq<AgentView> {
    discovery_fold(s.filter(keeps_discovery(discovered_panes(ds))), ds)
}

/// The argument list of an optional command.
pub open spec fn command_views(c: Option<String>) -> Seq<Seq<char>> {
    match c {
        Some(x) => seq![x@],
        None => seq![],
    }
}

/// A live terminal pane that runs a known agent or whose command starts Codex.
pub open spec fn is_candidate(p: PaneInfo, agents: Seq<AgentView>) -> bool {
    &&& !p.is_plugin
    &&& !p.exited
    &&& (agent_on_pane(agents, p.id) is Some || starts_codex(command_views(p.terminal_command)))
}

/// The first tab at `position`.
pub open spec fn tab_at(tabs: Seq<TabInfo>, position: usize) -> Option<TabInfo>
    decreases tabs.len(),
{
    if tabs.len() == 0 {
        None
    } else if tabs[0].position == position {
        Some(tabs[0])
    } else {
        tab_at(tabs.drop_first(), position)
    }
}

/// The discovery recorded for pane `p` of the tab at `position`.
pub open spec fn discovery_for(p: PaneInfo, tab: Option<TabInfo>, position: usize) -> Discovery {
    (
        p.id,
        match tab {
            Some(t) => t.name@,
            None => seq![],
        },
        match tab {
            Some(t) => Some(t.tab_id),
            None => None,
        },
        position,
    )
}

/// The discoveries among the panes of one tab, in order.
pub open spec fn discovered_in(panes: Seq<PaneInfo>, tab: Option<TabInfo>, position: usize, agents: Seq<AgentView>) -> Seq<Discovery>
    decreases panes.len(),
{
    if panes.len() == 0 {
        seq![]
    } else {
        let d = discovered_in(panes.drop_last(), tab, position, agents);
        if is_candidate(panes.last(), agents) {
            d.push(discovery_for(panes.last(), tab, position))
        } else {
            d
        }
    }
}

/// The discoveries of the whole manifest, tab after tab.
pub open spec fn discovered_all(entries: Seq<(usize, Vec<PaneInfo>)>, tabs: Seq<TabInfo>, agents: Seq<AgentView>) -> Seq<Discovery>
    decreases entries.len(),
{
    if entries.len() == 0 {
        seq![]
    } else {
        let e = entries.last();
        discovered_all(entries.drop_last(), tabs, agents) + discovered_in(e.1@, tab_at(tabs, e.0), e.0, agents)
    }
}

/// Agents without a pane, or whose pane is live.
pub open spec fn paneless_or_live(live: Set<u32>) -> spec_fn(AgentView) -> bool {
    |r: AgentView| r.pane_id is None || live.contains(r.pane_id->0)
}

/// The status a screen shows: running, or done when the prompt is back.
pub open spec fn activity_status(running: bool) -> Status {
    if running {
        Status::Running
    } else {
        Status::Done
    }
}

/// A screen reading is taken: it shows work, or it shows the prompt back on a
/// pane whose work was itself recovered from the screen.
pub open spec fn activity_counts(recovered: Set<u32>, pane: u32, running: bool) -> bool {
    running || recovered.contains(pane)
}

/// The agents and recovered readings after a screen reading `act` of `pane`.
pub open spec fn activity_effect(s: Seq<AgentView>, recovered: Set<u32>, pane: u32, act: Option<bool>) -> (Seq<AgentView>, Set<u32>) {
    match act {
        Some(running) => if activity_counts(recovered, pane, running) {
            (
                restatused(s, on_pane_flags(s, pane), activity_status(running)),
                if running { recovered.insert(pane) } else { recovered.remove(pane) },
            )
        } else {
            (s, recovered)
        },
        None => (s, recovered),
    }
}

/// The reading `act` changes the status of an agent on `pane`.
pub open spec fn activity_changes(s: Seq<AgentView>, recovered: Set<u32>, pane: u32, act: Option<bool>) -> bool {
    match act {
        Some(running) => activity_counts(recovered, pane, running) && exists|i: int|
            0 <= i < s.len() && s[i].pane_id == Some(pane) && #[trigger] s[i].status != activity_status(running),
        None => false,
    }
}

/// The name of the first tab at `position`, or nothing.
pub open spec fn worktree_at(tabs: Seq<TabInfo>, position: Option<usize>) -> Seq<char> {
    match position {
        Some(q) => match tab_at(tabs, q) {
            Some(t) => t.name@,
            None => seq![],
        },
        None => seq![],
    }
}

/// The agents and recovered readings after a screen of `pane` is read: a
/// Codex screen on a pane without an agent first stores a discovered agent
/// there, located in the pane's known tab; then the reading is taken.
pub open spec fn contents_effect(
    s: Seq<AgentView>,
    recovered: Set<u32>,
    focused: Option<u32>,
    entries: Seq<(usize, Vec<PaneInfo>)>,
    tabs: Seq<TabInfo>,
    pane: u32,
    act: Option<bool>,
) -> (Seq<AgentView>, Set<u32>) {
    if act is Some && agent_on_pane(s, pane) is None {
        let (tab_id, position) = known_location(s, entries, tabs, pane);
        let first = applied(s, focused, located(s, entries, tabs, fresh_agent(pane, worktree_at(tabs, position), tab_id, position)));
        activity_effect(first, recovered, pane, act)
    } else {
        activity_effect(s, recovered, pane, act)
    }
}

/// Reading a screen of `pane` changes the agents.
pub open spec fn contents_changes(s: Seq<AgentView>, recovered: Set<u32>, pane: u32, act: Option<bool>) -> bool {
    if act is Some && agent_on_pane(s, pane) is None {
        true
    } else {
        activity_changes(s, recovered, pane, act)
    }
}

/// The ids of the live terminal panes of a manifest.
pub open spec fn live_terminals(entries: Seq<(usize, Vec<PaneInfo>)>) -> Set<u32> {
    let all = crate::model::all_panes(entries);
    Set::new(|id: u32| exists|j: int| 0 <= j < all.len() && !all[j].is_plugin && !all[j].exited && #[trigger] all[j].id == id)
}

/// The agents that a manifest keeps: those without a pane, or on a live terminal.
pub open spec fn pruned(s: Seq<AgentView>, entries: Seq<(usize, Vec<PaneInfo>)>) -> Seq<AgentView> {
    s.filter(paneless_or_live(live_terminals(entries)))
}

/// The owner's agents after a pane manifest: pruned to the live panes,
/// reconciled with the Codex panes found, then the current view read.
pub open spec fn manifest_agents(
    s: Seq<AgentView>,
    tabs: Seq<TabInfo>,
    entries: Seq<(usize, Vec<PaneInfo>)>,
) -> Seq<AgentView> {
    let s1 = pruned(s, entries);
    let s2 = reconciled(s1, discovered_all(entries, tabs, s1));
    refreshed(s2, tabs, entries)
}

/// Whether a pane manifest changes the owner's agents: pruning or
/// reconciling changed them, or the current view read a result.
pub open spec fn manifest_changes(s: Seq<AgentView>, tabs: Seq<TabInfo>, entries: Seq<(usize, Vec<PaneInfo>)>) -> bool {
    let s1 = pruned(s, entries);
    let s2 = reconciled(s1, discovered_all(entries, tabs, s1));
    s1 != s || s2 != s1 || refresh_reads(s2, tabs, entries)
}

/// The URL of this plugin's own pane: that of the first plugin pane with its id.
pub open spec fn own_url(all: Seq<PaneInfo>, plugin: u32) -> Option<Seq<char>>
    decreases all.len(),
{
    if all.len() == 0 {
        None
    } else if all[0].is_plugin && all[0].id == plugin {
        opt_view(all[0].plugin_url)
    } else {
        own_url(all.drop_first(), plugin)
    }
}

impl App {
    /// Records the focused pane; completed results on that terminal pane are
    /// now read. True when one was unread.
    pub fn observe_focused_pane(&mut self, pane_id: PaneId) -> (r: bool)
        ensures
            final(self).focused_pane_id == terminal_of(pane_id),
            final(self).agents@ == after_focus(old(self).agents@, pane_id),
            r == focus_reads(old(self).agents@, pane_id),
            same_but_agents(App { focused_pane_id: final(self).focused_pane_id, ..*old(self) }, *final(self)),
    {
        self.focused_pane_id = match pane_id {
            PaneId::Terminal(p) => Some(p),
            PaneId::Plugin(_) => None,
        };
        match pane_id {
            PaneId::Terminal(p) => {
                let values = self.agents.values();
                let mut flags: Vec<bool> = Vec::new();
                let mut i: usize = 0;
                while i < values.len()
                    invariant
                        i <= values@.len(),
                        values@.len() == self.agents@.len(),
                        forall|k: int| 0 <= k < values@.len() ==> #[trigger] values@[k]@ == self.agents@[k],
                        flags@.len() == i,
                        forall|k: int| 0 <= k < i ==> flags@[k] == ((#[trigger] self.agents@[k]).pane_id == Some(p)),
                    decreases values@.len() - i,
                {
                    assert(values@[i as int]@ == self.agents@[i as int]);
                    let on = match values[i].pane_id {
                        Some(q) => q == p,
                        None => false,
                    };
                    flags.push(on);
                    i = i + 1;
                }
                assert(flags@ =~= on_pane_flags(self.agents@, p));
                self.agents.acknowledge_where(&flags)
            },
            PaneId::Plugin(_) => false,
        }
    }

    /// Completed results of every agent the view of the tab at
    /// `tab_position` shows are read. True when one was unread.
    pub fn observe_active_tab(&mut self, tab_id: Option<usize>, tab_position: usize, visible_pane_ids: &IdSet) -> (r: bool)
        ensures
            final(self).agents@ == acknowledged(
                old(self).agents@,
                in_view_flags(old(self).agents@, tab_id, tab_position, visible_pane_ids@),
            ),
            r == has_unread(old(self).agents@, in_view_flags(old(self).agents@, tab_id, tab_position, visible_pane_ids@)),
            same_but_agents(*old(self), *final(self)),
    {
        let values = self.agents.values();
        let mut flags: Vec<bool> = Vec::new();
        let mut i: usize = 0;
        while i < values.len()
            invariant
                i <= values@.len(),
                values@.len() == self.agents@.len(),
                forall|k: int| 0 <= k < values@.len() ==> #[trigger] values@[k]@ == self.agents@[k],
                flags@.len() == i,
                forall|k: int| 0 <= k < i ==> flags@[k] == in_view(#[trigger] self.agents@[k], tab_id, tab_position, visible_pane_ids@),
            decreases values@.len() - i,
        {
            let a = &values[i];
            assert(values@[i as int]@ == self.agents@[i as int]);
            let stable = match (a.tab_id, tab_id) {
                (Some(x), Some(y)) => x == y,
                _ => false,
            };
            let by_position = (a.tab_id.is_none() || tab_id.is_none()) && match a.tab_position {
                Some(q) => q == tab_position,
                None => false,
            };
            let shown = match a.pane_id {
                Some(q) => visible_pane_ids.contains(q),
                None => false,
            };
            flags.push(stable || by_position || shown);
            i = i + 1;
        }
        assert(flags@ =~= in_view_flags(self.agents@, tab_id, tab_position, visible_pane_ids@));
        self.agents.acknowledge_where(&flags)
    }

    /// The ids of the live, shown terminal panes of the tab at `tab_position`.
    pub fn visible_pane_ids(&self, tab_position: usize) -> (r: IdSet)
        ensures
            r@ == visible_terminals(crate::model::panes_at(self.pane_manifest.panes@, tab_position)),
    {
        let panes = self.pane_manifest.panes_in_tab(tab_position);
        let mut set = IdSet::new();
        let mut j: usize = 0;
        while j < panes.len()
            invariant
                j <= panes@.len(),
                set@ == visible_terminals(panes@.take(j as int)),
            decreases panes@.len() - j,
        {
            let p = &panes[j];
            let ghost before = set@;
            if !p.is_plugin && !p.exited && !p.is_suppressed {
                set.insert(p.id);
            }
            proof {
                let t = panes@.take(j + 1);
                let u = panes@.take(j as int);
                assert forall|id: u32| set@.contains(id) <==> visible_terminals(t).contains(id) by {
                    if visible_terminals(u).contains(id) {
                        let w = choose|w: int| 0 <= w < u.len() && !u[w].is_plugin && !u[w].exited
                            && !u[w].is_suppressed && #[trigger] u[w].id == id;
                        assert(t[w] == u[w]);
                    }
                    if visible_terminals(t).contains(id) {
                        let w = choose|w: int| 0 <= w < t.len() && !t[w].is_plugin && !t[w].exited
                            && !t[w].is_suppressed && #[trigger] t[w].id == id;
                        if w < j {
                            assert(t[w] == u[w]);
                        }
                    }
                    if !p.is_plugin && !p.exited && !p.is_suppressed && id == p.id {
                        assert(t[j as int] == panes@[j as int]);
                    }
                }
                assert(set@ =~= visible_terminals(t));
            }
            j = j + 1;
        }
        assert(panes@.take(panes@.len() as int) =~= panes@);
        set
    }

    /// Records what the user sees of the tab at `tab_position` with `pane_id`
    /// focused (see `after_view`). True when a result was unread.
    pub fn observe_current_view(&mut self, tab_position: usize, pane_id: PaneId, codex_surface_is_visible: bool) -> (r: bool)
        ensures
            final(self).focused_pane_id == terminal_of(pane_id),
            final(self).agents@ == after_view(
                old(self).agents@,
                pane_id,
                codex_surface_is_visible,
                tab_id_at(old(self).tabs@, tab_position),
                tab_position,
                visible_terminals(crate::model::panes_at(old(self).pane_manifest.panes@, tab_position)),
            ),
            r == view_reads(
                old(self).agents@,
                pane_id,
                codex_surface_is_visible,
                tab_id_at(old(self).tabs@, tab_position),
                tab_position,
                visible_terminals(crate::model::panes_at(old(self).pane_manifest.panes@, tab_position)),
            ),
            same_but_agents(App { focused_pane_id: final(self).focused_pane_id, ..*old(self) }, *final(self)),
    {
        let mut status_changed = self.observe_focused_pane(pane_id);
        if codex_surface_is_visible {
            let visible = self.visible_pane_ids(tab_position);
            let tab_id = self.tab_id_at_position(tab_position);
            let seen = self.observe_active_tab(tab_id, tab_position, &visible);
            status_changed = status_changed || seen;
        }
        status_changed
    }

    /// Re-reads the current view (see `view_of`) when this instance owns
    /// the status table. True when a result was unread.
    pub fn refresh_current_view(&mut self) -> (r: bool)
        ensures
            owns(*old(self)) ==> final(self).agents@ == refreshed(old(self).agents@, old(self).tabs@, old(self).pane_manifest.panes@),
            owns(*old(self)) ==> final(self).focused_pane_id == refreshed_focus(old(self).tabs@, old(self).pane_manifest.panes@, old(self).focused_pane_id),
            owns(*old(self)) ==> r == refresh_reads(old(self).agents@, old(self).tabs@, old(self).pane_manifest.panes@),
            !owns(*old(self)) ==> *final(self) == *old(self) && !r,
            same_but_agents(App { focused_pane_id: final(self).focused_pane_id, ..*old(self) }, *final(self)),
    {
        if !self.owns_status() {
            return false;
        }
        let mut i: usize = 0;
        assert(self.tabs@.skip(0) =~= self.tabs@);
        while i < self.tabs.len() && !self.tabs[i].active
            invariant
                i <= self.tabs@.len(),
                active_tab(self.tabs@) == active_tab(self.tabs@.skip(i as int)),
            decreases self.tabs@.len() - i,
        {
            assert(self.tabs@.skip(i as int).drop_first() =~= self.tabs@.skip(i + 1));
            i = i + 1;
        }
        if i == self.tabs.len() {
            return false;
        }
        assert(self.tabs@.skip(i as int)[0] == self.tabs@[i as int]);
        let position = self.tabs[i].position;
        let floating = self.tabs[i].are_floating_panes_visible;
        let panes = self.pane_manifest.panes_in_tab(position);
        let mut j: usize = 0;
        assert(panes@.skip(0) =~= panes@);
        while j < panes.len() && !(panes[j].is_focused && !panes[j].is_suppressed && panes[j].is_floating == floating)
            invariant
                j <= panes@.len(),
                focused_pane(panes@, floating) == focused_pane(panes@.skip(j as int), floating),
            decreases panes@.len() - j,
        {
            assert(panes@.skip(j as int).drop_first() =~= panes@.skip(j + 1));
            j = j + 1;
        }
        if j == panes.len() {
            return false;
        }
        assert(panes@.skip(j as int)[0] == panes@[j as int]);
        let pane = if panes[j].is_plugin {
            PaneId::Plugin(panes[j].id)
        } else {
            PaneId::Terminal(panes[j].id)
        };
        self.observe_current_view(position, pane, !floating)
    }
}

/// The report made for a Codex pane found without a lifecycle report.
pub fn discovered_report(pane_id: u32, worktree: String, tab_id: Option<usize>, tab_position: Option<usize>) -> (r: AgentReport)
    ensures
        r@ == fresh_agent(pane_id, worktree@, tab_id, tab_position),
{
    let digits = decimal_chars(pane_id as u64);
    let mut id = chars_of("discovered:pane:");
    push_all(&mut id, &digits);
    let mut agent = chars_of("codex-");
    push_all(&mut agent, &digits);
    let task = chars_of("Discovered running Codex");
    AgentReport {
        id: string_of(id.as_slice()),
        agent: string_of(agent.as_slice()),
        status: Status::Idle,
        task: string_of(task.as_slice()),
        worktree: worktree,
        pane_id: Some(pane_id),
        tab_id: tab_id,
        tab_position: tab_position,
        remove: false,
    }
}

impl App {
    /// The index of the first tab at `tab_position`.
    fn tab_index_at(&self, tab_position: usize) -> (r: Option<usize>)
        ensures
            r matches Some(i) ==> i < self.tabs@.len() && tab_at(self.tabs@, tab_position) == Some(self.tabs@[i as int]),
            r is None ==> tab_at(self.tabs@, tab_position) is None,
    {
        let mut i: usize = 0;
        assert(self.tabs@.skip(0) =~= self.tabs@);
        while i < self.tabs.len()
            invariant
                i <= self.tabs@.len(),
                tab_at(self.tabs@, tab_position) == tab_at(self.tabs@.skip(i as int), tab_position),
            decreases self.tabs@.len() - i,
        {
            assert(self.tabs@.skip(i as int).drop_first() =~= self.tabs@.skip(i + 1));
            assert(self.tabs@.skip(i as int)[0] == self.tabs@[i as int]);
            if self.tabs[i].position == tab_position {
                return Some(i);
            }
            i = i + 1;
        }
        None
    }

    /// Forgets agents whose pane is gone; agents without a pane stay. Screen
    /// readings are kept only for live panes. True when an agent was forgotten.
    pub fn reconcile_live_panes(&mut self, live_pane_ids: &IdSet) -> (r: bool)
        ensures
            final(self).agents@ == old(self).agents@.filter(paneless_or_live(live_pane_ids@)),
            final(self).recovered_running_panes@ == old(self).recovered_running_panes@.intersect(live_pane_ids@),
            r == (final(self).agents@ != old(self).agents@),
            same_but_agents(App { recovered_running_panes: final(self).recovered_running_panes, ..*old(self) }, *final(self)),
    {
        let before = self.agents.duplicate();
        self.recovered_running_panes.retain_in(live_pane_ids);
        let values = self.agents.values();
        let mut keep: Vec<bool> = Vec::new();
        let mut i: usize = 0;
        while i < values.len()
            invariant
                i <= values@.len(),
                values@.len() == self.agents@.len(),
                forall|k: int| 0 <= k < values@.len() ==> #[trigger] values@[k]@ == self.agents@[k],
                keep@.len() == i,
                forall|k: int| 0 <= k < i ==> keep@[k] == paneless_or_live(live_pane_ids@)(#[trigger] self.agents@[k]),
            decreases values@.len() - i,
        {
            assert(values@[i as int]@ == self.agents@[i as int]);
            let live = match values[i].pane_id {
                Some(p) => live_pane_ids.contains(p),
                None => true,
            };
            keep.push(live);
            i = i + 1;
        }
        proof {
            crate::agents::lemma_masked_filter(self.agents@, keep@, paneless_or_live(live_pane_ids@));
        }
        self.agents.keep_where(&keep);
        !self.agents.same_as(&before)
    }

    /// Takes what a pane's screen shows of Codex's work (see `activity`):
    /// work marks the pane's agents running and remembers the reading; the
    /// prompt coming back on such a pane marks them done. True when a status changed.
    pub fn observe_activity(&mut self, pane_id: u32, viewport: &[String]) -> (r: bool)
        ensures
            (final(self).agents@, final(self).recovered_running_panes@) == activity_effect(
                old(self).agents@, old(self).recovered_running_panes@, pane_id, activity(views(viewport@))),
            r == activity_changes(old(self).agents@, old(self).recovered_running_panes@, pane_id, activity(views(viewport@))),
            same_but_agents(App { recovered_running_panes: final(self).recovered_running_panes, ..*old(self) }, *final(self)),
    {
        let running = match codex_activity(viewport) {
            Some(b) => b,
            None => return false,
        };
        if running {
            self.recovered_running_panes.insert(pane_id);
        } else if !self.recovered_running_panes.remove(pane_id) {
            return false;
        }
        let values = self.agents.values();
        let mut flags: Vec<bool> = Vec::new();
        let mut i: usize = 0;
        while i < values.len()
            invariant
                i <= values@.len(),
                values@.len() == self.agents@.len(),
                forall|k: int| 0 <= k < values@.len() ==> #[trigger] values@[k]@ == self.agents@[k],
                flags@.len() == i,
                forall|k: int| 0 <= k < i ==> flags@[k] == ((#[trigger] self.agents@[k]).pane_id == Some(pane_id)),
            decreases values@.len() - i,
        {
            assert(values@[i as int]@ == self.agents@[i as int]);
            let on = match values[i].pane_id {
                Some(q) => q == pane_id,
                None => false,
            };
            flags.push(on);
            i = i + 1;
        }
        assert(flags@ =~= on_pane_flags(self.agents@, pane_id));
        let status = if running { Status::Running } else { Status::Done };
        self.agents.set_status_where(&flags, status)
    }

    /// Stores `discovered` panes as agents (see `reconciled`). True when the
    /// agents changed.
    pub fn reconcile_discovered_panes(&mut self, discovered: Vec<(u32, String, Option<usize>, usize)>) -> (r: bool)
        ensures
            final(self).agents@ == reconciled(old(self).agents@, discovery_views(discovered@)),
            r == (final(self).agents@ != old(self).agents@),
            same_but_agents(*old(self), *final(self)),
    {
        let before = self.agents.duplicate();
        let ghost dv = discovery_views(discovered@);
        let mut ids = IdSet::new();
        let mut i: usize = 0;
        while i < discovered.len()
            invariant
                i <= discovered@.len(),
                dv == discovery_views(discovered@),
                forall|p: u32| #[trigger] ids@.contains(p) <==> exists|k: int| 0 <= k < i && dv[k].0 == p,
            decreases discovered@.len() - i,
        {
            ids.insert(discovered[i].0);
            proof {
                assert forall|p: u32| #[trigger] ids@.contains(p) <==> exists|k: int| 0 <= k < i + 1 && dv[k].0 == p by {
                    if p == discovered@[i as int].0 {
                        assert(dv[i as int].0 == p);
                    }
                }
            }
            i = i + 1;
        }
        assert(ids@ =~= discovered_panes(dv));
        let prefix = chars_of("discovered:pane:");
        let values = self.agents.values();
        let mut keep: Vec<bool> = Vec::new();
        let mut j: usize = 0;
        while j < values.len()
            invariant
                j <= values@.len(),
                values@.len() == self.agents@.len(),
                forall|k: int| 0 <= k < values@.len() ==> #[trigger] values@[k]@ == self.agents@[k],
                prefix@ == "discovered:pane:"@,
                keep@.len() == j,
                forall|k: int| 0 <= k < j ==> keep@[k] == keeps_discovery(ids@)(#[trigger] self.agents@[k]),
            decreases values@.len() - j,
        {
            assert(values@[j as int]@ == self.agents@[j as int]);
            let id = chars_of(values[j].id.as_str());
            let still = match values[j].pane_id {
                Some(p) => ids.contains(p),
                None => false,
            };
            keep.push(!starts_with_chars(&id, &prefix) || still);
            j = j + 1;
        }
        proof {
            crate::agents::lemma_masked_filter(self.agents@, keep@, keeps_discovery(ids@));
        }
        self.agents.keep_where(&keep);
        let ghost start = self.agents@;
        let mut n: usize = 0;
        assert(dv.skip(0) =~= dv);
        while n < discovered.len()
            invariant
                n <= discovered@.len(),
                dv == discovery_views(discovered@),
                discovery_fold(start, dv) == discovery_fold(self.agents@, dv.skip(n as int)),
                same_but_agents(*old(self), *self),
            decreases discovered@.len() - n,
        {
            let d = &discovered[n];
            assert(dv.skip(n as int).drop_first() =~= dv.skip(n + 1));
            assert(dv.skip(n as int)[0] == dv[n as int]);
            assert(dv[n as int] == (d.0, d.1@, d.2, d.3));
            match self.agent_index_on_pane(d.0) {
                Some(k) => {
                    self.agents.set_location(k, d.2, Some(d.3));
                },
                None => {
                    let report = discovered_report(d.0, d.1.clone(), d.2, Some(d.3));
                    self.agents.insert(report);
                },
            }
            n = n + 1;
        }
        assert(dv.skip(discovered@.len() as int) =~= Seq::<Discovery>::empty());
        !self.agents.same_as(&before)
    }
}

impl App {
    /// Whether pane `p` is a live terminal pane that runs a known agent or
    /// whose command starts Codex.
    fn pane_is_candidate(&self, p: &PaneInfo) -> (r: bool)
        ensures
            r == is_candidate(*p, self.agents@),
    {
        if p.is_plugin || p.exited {
            return false;
        }
        if self.agent_index_on_pane(p.id).is_some() {
            return true;
        }
        match &p.terminal_command {
            Some(c) => {
                let command = vec![c.clone()];
                assert(views(command@) =~= command_views(p.terminal_command));
                is_codex_command(command.as_slice())
            },
            None => {
                assert(command_views(p.terminal_command) =~= Seq::<Seq<char>>::empty());
                assert(!starts_codex(command_views(p.terminal_command)));
                false
            },
        }
    }

    /// The Codex panes of `pane_manifest` (see `discovered_all`).
    pub fn codex_panes(&self, pane_manifest: &PaneManifest) -> (r: Vec<(u32, String, Option<usize>, usize)>)
        ensures
            discovery_views(r@) == discovered_all(pane_manifest.panes@, self.tabs@, self.agents@),
    {
        let entries = &pane_manifest.panes;
        let mut found: Vec<(u32, String, Option<usize>, usize)> = Vec::new();
        let mut i: usize = 0;
        assert(entries@.take(0) =~= Seq::<(usize, Vec<PaneInfo>)>::empty());
        assert(discovery_views(found@) =~= Seq::<Discovery>::empty());
        while i < entries.len()
            invariant
                i <= entries@.len(),
                entries@ == pane_manifest.panes@,
                discovery_views(found@) == discovered_all(entries@.take(i as int), self.tabs@, self.agents@),
            decreases entries@.len() - i,
        {
            let position = entries[i].0;
            let panes = &entries[i].1;
            let tab = self.tab_index_at(position);
            let ghost tabv = tab_at(self.tabs@, position);
            let ghost base = discovery_views(found@);
            assert(entries@.take(i + 1).drop_last() =~= entries@.take(i as int));
            assert(entries@.take(i + 1).last() == entries@[i as int]);
            let mut j: usize = 0;
            assert(panes@.take(0) =~= Seq::<PaneInfo>::empty());
            assert(base + discovered_in(panes@.take(0), tabv, position, self.agents@) =~= base);
            while j < panes.len()
                invariant
                    j <= panes@.len(),
                    panes@ == entries@[i as int].1@,
                    tabv == tab_at(self.tabs@, position),
                    tab matches Some(t) ==> t < self.tabs@.len() && tabv == Some(self.tabs@[t as int]),
                    tab is None ==> tabv is None,
                    discovery_views(found@) == base + discovered_in(panes@.take(j as int), tabv, position, self.agents@),
                decreases panes@.len() - j,
            {
                let p = &panes[j];
                assert(panes@.take(j + 1).drop_last() =~= panes@.take(j as int));
                assert(panes@.take(j + 1).last() == panes@[j as int]);
                if self.pane_is_candidate(p) {
                    let (name, tab_id) = match tab {
                        Some(t) => (self.tabs[t].name.clone(), Some(self.tabs[t].tab_id)),
                        None => (String::new(), None),
                    };
                    let ghost before = found@;
                    found.push((p.id, name, tab_id, position));
                    proof {
                        assert(discovery_views(found@) =~= discovery_views(before).push(discovery_for(panes@[j as int], tabv, position)));
                    }
                }
                j = j + 1;
            }
            assert(panes@.take(panes@.len() as int) =~= panes@);
            i = i + 1;
        }
        assert(entries@.take(entries@.len() as int) =~= entries@);
        found
    }

    /// Finds the Codex panes of `pane_manifest` and reconciles the agents
    /// with them (see `reconciled`). True when the agents changed.
    pub fn discover_codex_panes(&mut self, pane_manifest: &PaneManifest) -> (r: bool)
        ensures
            final(self).agents@ == reconciled(
                old(self).agents@,
                discovered_all(pane_manifest.panes@, old(self).tabs@, old(self).agents@),
            ),
            r == (final(self).agents@ != old(self).agents@),
            same_but_agents(*old(self), *final(self)),
    {
        let discovered = self.codex_panes(pane_manifest);
        self.reconcile_discovered_panes(discovered)
    }

    /// Takes a pane's screen: a Codex screen on a pane without an agent first
    /// records a discovered agent there (true); then the reading is taken
    /// (see `observe_activity`).
    pub fn observe_pane_contents(&mut self, pane_id: u32, viewport: &[String]) -> (r: bool)
        ensures
            (final(self).agents@, final(self).recovered_running_panes@) == contents_effect(
                old(self).agents@,
                old(self).recovered_running_panes@,
                old(self).focused_pane_id,
                old(self).pane_manifest.panes@,
                old(self).tabs@,
                pane_id,
                activity(views(viewport@)),
            ),
            r == contents_changes(old(self).agents@, old(self).recovered_running_panes@, pane_id, activity(views(viewport@))),
            same_but_agents(App { recovered_running_panes: final(self).recovered_running_panes, ..*old(self) }, *final(self)),
    {
        if codex_activity(viewport).is_none() {
            return false;
        }
        if self.agent_index_on_pane(pane_id).is_none() {
            let (tab_id, position) = self.known_tab_location(pane_id);
            let worktree = match position {
                Some(q) => match self.tab_index_at(q) {
                    Some(t) => self.tabs[t].name.clone(),
                    None => String::new(),
                },
                None => String::new(),
            };
            let report = discovered_report(pane_id, worktree, tab_id, position);
            self.apply_report(report);
            self.observe_activity(pane_id, viewport);
            return true;
        }
        self.observe_activity(pane_id, viewport)
    }

    /// The ids of the live terminal panes of `pane_manifest`.
    pub fn live_pane_ids(pane_manifest: &PaneManifest) -> (r: IdSet)
        ensures
            r@ == live_terminals(pane_manifest.panes@),
    {
        let entries = &pane_manifest.panes;
        let mut set = IdSet::new();
        let mut i: usize = 0;
        assert(entries@.skip(0) =~= entries@);
        assert(set@ =~= Set::<u32>::empty());
        while i < entries.len()
            invariant
                i <= entries@.len(),
                live_terminals(entries@) == set@.union(live_terminals(entries@.skip(i as int))),
            decreases entries@.len() - i,
        {
            let panes = &entries[i].1;
            let ghost rest = entries@.skip(i + 1);
            assert(entries@.skip(i as int) =~= seq![entries@[i as int]] + rest);
            assert(all_panes(entries@.skip(i as int)) == panes@ + all_panes(rest)) by {
                assert(entries@.skip(i as int).drop_first() =~= rest);
            }
            let ghost outer = set@;
            let mut j: usize = 0;
            while j < panes.len()
                invariant
                    j <= panes@.len(),
                    panes@ == entries@[i as int].1@,
                    set@ == outer.union(Set::new(|id: u32| exists|w: int| 0 <= w < j && !panes@[w].is_plugin
                        && !panes@[w].exited && #[trigger] panes@[w].id == id)),
                decreases panes@.len() - j,
            {
                let p = &panes[j];
                if !p.is_plugin && !p.exited {
                    set.insert(p.id);
                }
                proof {
                    let a = Set::new(|id: u32| exists|w: int| 0 <= w < j && !panes@[w].is_plugin
                        && !panes@[w].exited && #[trigger] panes@[w].id == id);
                    let b = Set::new(|id: u32| exists|w: int| 0 <= w < j + 1 && !panes@[w].is_plugin
                        && !panes@[w].exited && #[trigger] panes@[w].id == id);
                    assert forall|id: u32| b.contains(id) <==> a.contains(id) || (!p.is_plugin && !p.exited && id == p.id) by {
                        if !p.is_plugin && !p.exited && id == p.id {
                            assert(panes@[j as int].id == id);
                        }
                    }
                    assert(set@ =~= outer.union(b));
                }
                j = j + 1;
            }
            proof {
                let whole = all_panes(entries@.skip(i as int));
                let tail = all_panes(rest);
                let here = Set::new(|id: u32| exists|w: int| 0 <= w < panes@.len() && !panes@[w].is_plugin
                    && !panes@[w].exited && #[trigger] panes@[w].id == id);
                assert forall|id: u32| live_terminals(entries@.skip(i as int)).contains(id) <==> here.contains(id)
                    || live_terminals(rest).contains(id) by {
                    if live_terminals(entries@.skip(i as int)).contains(id) {
                        let w = choose|w: int| 0 <= w < whole.len() && !whole[w].is_plugin && !whole[w].exited
                            && #[trigger] whole[w].id == id;
                        if w < panes@.len() {
                            assert(whole[w] == panes@[w]);
                        } else {
                            assert(whole[w] == tail[w - panes@.len()]);
                        }
                    }
                    if here.contains(id) {
                        let w = choose|w: int| 0 <= w < panes@.len() && !panes@[w].is_plugin
                            && !panes@[w].exited && #[trigger] panes@[w].id == id;
                        assert(whole[w] == panes@[w]);
                    }
                    if live_terminals(rest).contains(id) {
                        let w = choose|w: int| 0 <= w < tail.len() && !tail[w].is_plugin && !tail[w].exited
                            && #[trigger] tail[w].id == id;
                        assert(whole[w + panes@.len()] == tail[w]);
                    }
                }
                assert(live_terminals(entries@) =~= set@.union(live_terminals(rest)));
            }
            i = i + 1;
        }
        assert(live_terminals(entries@.skip(entries@.len() as int)) =~= Set::<u32>::empty()) by {
            assert(entries@.skip(entries@.len() as int) =~= Seq::<(usize, Vec<PaneInfo>)>::empty());
        }
        assert(set@.union(Set::<u32>::empty()) =~= set@);
        set
    }
}

impl App {
    /// The URL of this plugin's own pane in `pane_manifest`.
    fn own_plugin_url(&self, pane_manifest: &PaneManifest, plugin: u32) -> (r: Option<String>)
        ensures
            opt_view(r) == own_url(all_panes(pane_manifest.panes@), plugin),
    {
        let entries = &pane_manifest.panes;
        let mut i: usize = 0;
        assert(entries@.skip(0) =~= entries@);
        while i < entries.len()
            invariant
                i <= entries@.len(),
                entries@ == pane_manifest.panes@,
                own_url(all_panes(entries@), plugin) == own_url(all_panes(entries@.skip(i as int)), plugin),
            decreases entries@.len() - i,
        {
            let panes = &entries[i].1;
            let ghost rest = entries@.skip(i + 1);
            assert(entries@.skip(i as int).drop_first() =~= rest);
            let ghost whole = all_panes(entries@.skip(i as int));
            assert(whole == panes@ + all_panes(rest));
            let mut j: usize = 0;
            assert(whole.skip(0) =~= whole);
            while j < panes.len()
                invariant
                    j <= panes@.len(),
                    whole == panes@ + all_panes(rest),
                    entries@ == pane_manifest.panes@,
                    own_url(all_panes(entries@), plugin) == own_url(whole.skip(j as int), plugin),
                decreases panes@.len() - j,
            {
                assert(whole.skip(j as int).drop_first() =~= whole.skip(j + 1));
                assert(whole.skip(j as int)[0] == panes@[j as int]);
                if panes[j].is_plugin && panes[j].id == plugin {
                    return match &panes[j].plugin_url {
                        Some(u) => Some(u.clone()),
                        None => None,
                    };
                }
                j = j + 1;
            }
            assert(whole.skip(panes@.len() as int) =~= all_panes(rest));
            i = i + 1;
        }
        assert(all_panes(entries@.skip(entries@.len() as int)) =~= Seq::<PaneInfo>::empty()) by {
            assert(entries@.skip(entries@.len() as int) =~= Seq::<(usize, Vec<PaneInfo>)>::empty());
        }
        None
    }

    /// Takes a new pane manifest. The owner first forgets agents whose pane is
    /// gone and reconciles the Codex panes it finds; then the current view is
    /// read. True when the dashboard should redraw.
    pub fn update_pane_manifest(&mut self, pane_manifest: PaneManifest) -> (r: bool)
        ensures
            ({
                let entries = pane_manifest.panes@;
                let s0 = old(self).agents@;
                let s1 = s0.filter(paneless_or_live(live_terminals(entries)));
                let s2 = reconciled(s1, discovered_all(entries, old(self).tabs@, s1));
                &&& final(self).pane_manifest == pane_manifest
                &&& owns(*old(self)) ==> final(self).agents@ == refreshed(s2, old(self).tabs@, entries)
                &&& owns(*old(self)) ==> final(self).focused_pane_id == refreshed_focus(old(self).tabs@, entries, old(self).focused_pane_id)
                &&& owns(*old(self)) ==> final(self).recovered_running_panes@ == old(self).recovered_running_panes@.intersect(live_terminals(entries))
                &&& owns(*old(self)) ==> r == (s1 != s0 || s2 != s1 || refresh_reads(s2, old(self).tabs@, entries))
                &&& !owns(*old(self)) ==> final(self).agents@ == s0 && !r
                &&& !owns(*old(self)) ==> final(self).focused_pane_id == old(self).focused_pane_id
                &&& !owns(*old(self)) ==> final(self).recovered_running_panes == old(self).recovered_running_panes
                &&& old(self).plugin_url is None && old(self).plugin_id is Some ==> opt_view(final(self).plugin_url)
                    == own_url(all_panes(entries), old(self).plugin_id->0)
                &&& old(self).plugin_url is Some || old(self).plugin_id is None ==> final(self).plugin_url == old(self).plugin_url
            }),
            owns(*old(self)) ==> final(self).agents@ == manifest_agents(old(self).agents@, old(self).tabs@, pane_manifest.panes@)
                && r == manifest_changes(old(self).agents@, old(self).tabs@, pane_manifest.panes@),
            final(self).tabs == old(self).tabs,
            final(self).plugin_id == old(self).plugin_id,
            final(self).status_source == old(self).status_source,
            final(self).is_monitor == old(self).is_monitor,
            final(self).error == old(self).error,
            final(self).seen_reports == old(self).seen_reports,
            final(self).status_observers == old(self).status_observers,
            final(self).published_peers == old(self).published_peers,
            final(self).last_published == old(self).last_published,
            final(self).visible_floating_pane == old(self).visible_floating_pane,
            final(self).suppressed_floating_panes == old(self).suppressed_floating_panes,
            final(self).pending_floating_pane_suppression == old(self).pending_floating_pane_suppression,
            final(self).dashboard_visible == old(self).dashboard_visible,
            final(self).dashboard_named == old(self).dashboard_named,
            final(self).checkpoint_pending == old(self).checkpoint_pending,
            final(self).bootstrap_pending == old(self).bootstrap_pending,
            final(self).dashboard_tab_id == old(self).dashboard_tab_id,
            final(self).monitor_start_pending == old(self).monitor_start_pending,
            final(self).pending_reports == old(self).pending_reports,
    {
        if self.plugin_url.is_none() {
            match self.plugin_id {
                Some(id) => {
                    self.plugin_url = self.own_plugin_url(&pane_manifest, id);
                },
                None => {},
            }
        }
        let live = App::live_pane_ids(&pane_manifest);
        let mut should_render = false;
        if self.owns_status() {
            let a = self.reconcile_live_panes(&live);
            let b = self.discover_codex_panes(&pane_manifest);
            should_render = a || b;
        }
        self.pane_manifest = pane_manifest;
        let c = self.refresh_current_view();
        should_render || c
    }
}

} // verus!
