//! Where the dashboard opens, and which floating panes it hides while open.
use vstd::prelude::*;
use crate::dashboard::{App, PaneId, opt_view, pane_id_of, position_of_plugin};
use crate::model::{PaneInfo, TabInfo, panes_at};
use crate::text::{chars_of, equal_chars, push_all, string_of};
use crate::dashboard::same_but_agents;
use crate::sync::same_tab;

verus! {

/// The place and size of a pane.
#[derive(Clone, Copy, Debug, PartialEq, Eq, Structural)]
pub struct PaneRectangle {
    pub x: usize,
    pub y: usize,
    pub width: usize,
    pub height: usize,
}

/// The exact geometry of a pane.
pub fn pane_rectangle(pane: &PaneInfo) -> (r: PaneRectangle)
    ensures
        r == (PaneRectangle { x: pane.pane_x, y: pane.pane_y, width: pane.pane_columns, height: pane.pane_rows }),
{
    PaneRectangle { x: pane.pane_x, y: pane.pane_y, width: pane.pane_columns, height: pane.pane_rows }
}

/// A floating pane hidden (or moved) while the dashboard is open, with the
/// tab it belongs to and the geometry to restore.
#[derive(Clone, Copy, Debug, PartialEq, Eq, Structural)]
pub struct FloatingPaneState {
    pub pane_id: PaneId,
    pub tab_id: Option<usize>,
    pub rectangle: PaneRectangle,
}

/// A tab whose floating panes the dashboard hides once the manifest lists them.
#[derive(Clone, Copy, Debug, PartialEq, Eq, Structural)]
pub struct PendingFloatingPaneSuppression {
    pub tab_position: usize,
    pub tab_id: Option<usize>,
}

/// The order of tab ids as sets of them walk: none first, then by id.
pub open spec fn tab_before(a: Option<usize>, b: Option<usize>) -> bool {
    match (a, b) {
        (None, Some(_)) => true,
        (Some(x), Some(y)) => x < y,
        _ => false,
    }
}

/// Tab ids in strictly increasing order, so none twice.
pub open spec fn tabs_in_order(ids: Seq<Option<usize>>) -> bool {
    forall|i: int, j: int| 0 <= i < j < ids.len() ==> tab_before(#[trigger] ids[i], #[trigger] ids[j])
}

/// The tabs of the panes, in their order.
pub open spec fn pane_tabs(panes: Seq<FloatingPaneState>) -> Seq<Option<usize>> {
    panes.map_values(|p: FloatingPaneState| p.tab_id)
}

/// The tabs of the panes, once each, in order.
pub open spec fn tabs_of_panes(panes: Seq<FloatingPaneState>, ids: Seq<Option<usize>>) -> bool {
    tabs_in_order(ids) && ids.to_set() == pane_tabs(panes).to_set()
}

/// Adds `x` to the ordered ids, where it is not yet.
fn insert_tab(ids: &mut Vec<Option<usize>>, x: Option<usize>)
    requires
        tabs_in_order(old(ids)@),
    ensures
        tabs_in_order(final(ids)@),
        final(ids)@.to_set() == old(ids)@.to_set().insert(x),
{
    let mut p: usize = 0;
    while p < ids.len()
        invariant
            p <= ids@.len(),
            forall|i: int| 0 <= i < p ==> tab_before(#[trigger] ids@[i], x),
        ensures
            p <= ids@.len(),
            forall|i: int| 0 <= i < p ==> tab_before(#[trigger] ids@[i], x),
            p < ids@.len() ==> !tab_before(ids@[p as int], x),
        decreases ids@.len() - p,
    {
        let before = match (ids[p], x) {
            (None, Some(_)) => true,
            (Some(a), Some(b)) => a < b,
            _ => false,
        };
        assert(before == tab_before(ids@[p as int], x));
        if !before {
            break;
        }
        p = p + 1;
    }
    if p < ids.len() && ids[p] == x {
        assert(ids@.to_set().insert(x) =~= ids@.to_set());
        return;
    }
    let ghost old_ids = ids@;
    ids.insert(p, x);
    assert(ids@ =~= old_ids.take(p as int).push(x) + old_ids.skip(p as int));
    assert forall|i: int, j: int| 0 <= i < j < ids@.len() implies tab_before(#[trigger] ids@[i], #[trigger] ids@[j]) by {
        if j < p {
            assert(ids@[i] == old_ids[i] && ids@[j] == old_ids[j]);
        } else if j == p {
            assert(ids@[i] == old_ids[i]);
        } else if i == p {
            assert(ids@[j] == old_ids[j - 1]);
            assert(!tab_before(old_ids[p as int], x));
            if j - 1 > p {
                assert(tab_before(old_ids[p as int], old_ids[j - 1]));
            }
        } else if i < p {
            assert(ids@[i] == old_ids[i] && ids@[j] == old_ids[j - 1]);
        } else {
            assert(ids@[i] == old_ids[i - 1] && ids@[j] == old_ids[j - 1]);
        }
    }
    assert forall|y: Option<usize>| ids@.to_set().contains(y) <==> old_ids.to_set().insert(x).contains(y) by {
        if ids@.contains(y) {
            let i = choose|i: int| 0 <= i < ids@.len() && ids@[i] == y;
            if i < p {
                assert(old_ids[i] == y);
            } else if i > p {
                assert(old_ids[i - 1] == y);
            }
        }
        if old_ids.contains(y) {
            let i = choose|i: int| 0 <= i < old_ids.len() && old_ids[i] == y;
            if i < p {
                assert(ids@[i] == y);
            } else {
                assert(ids@[i + 1] == y);
            }
        }
        if y == x {
            assert(ids@[p as int] == x);
        }
    }
    assert(ids@.to_set() =~= old_ids.to_set().insert(x));
}

/// The tabs of the panes, once each, in order.
fn tabs_to_hide(panes: &Vec<FloatingPaneState>) -> (r: Vec<Option<usize>>)
    ensures
        tabs_of_panes(panes@, r@),
{
    let mut ids: Vec<Option<usize>> = Vec::new();
    let mut k: usize = 0;
    while k < panes.len()
        invariant
            k <= panes@.len(),
            tabs_in_order(ids@),
            ids@.to_set() == panes@.take(k as int).map_values(|p: FloatingPaneState| p.tab_id).to_set(),
        decreases panes@.len() - k,
    {
        insert_tab(&mut ids, panes[k].tab_id);
        assert(panes@.take(k + 1).map_values(|p: FloatingPaneState| p.tab_id) =~= panes@.take(k as int).map_values(
            |p: FloatingPaneState| p.tab_id,
        ).push(panes@[k as int].tab_id));
        proof {
            let before = panes@.take(k as int).map_values(|p: FloatingPaneState| p.tab_id);
            Seq::<Option<usize>>::lemma_to_set_insert_commutes(before, panes@[k as int].tab_id);
            assert(before + seq![panes@[k as int].tab_id] =~= before.push(panes@[k as int].tab_id));
        }
        k = k + 1;
    }
    assert(panes@.take(panes@.len() as int) =~= panes@);
    ids
}

/// The panes that opening the dashboard may reveal: live panes that float or
/// are hidden, in order.
pub open spec fn floating_candidates(panes: Seq<PaneInfo>) -> Seq<PaneId>
    decreases panes.len(),
{
    if panes.len() == 0 {
        seq![]
    } else {
        let rest = floating_candidates(panes.drop_last());
        let p = panes.last();
        if !p.exited && (p.is_floating || p.is_suppressed) {
            rest.push(pane_id_of(p))
        } else {
            rest
        }
    }
}

/// The live panes that float or are hidden, in order.
pub fn floating_pane_candidates(panes: &[PaneInfo]) -> (r: Vec<PaneId>)
    ensures
        r@ == floating_candidates(panes@),
{
    let mut out: Vec<PaneId> = Vec::new();
    let mut i: usize = 0;
    assert(panes@.take(0) =~= Seq::<PaneInfo>::empty());
    while i < panes.len()
        invariant
            i <= panes@.len(),
            out@ == floating_candidates(panes@.take(i as int)),
        decreases panes@.len() - i,
    {
        assert(panes@.take(i + 1).drop_last() =~= panes@.take(i as int));
        assert(panes@.take(i + 1).last() == panes@[i as int]);
        let p = &panes[i];
        if !p.exited && (p.is_floating || p.is_suppressed) {
            if p.is_plugin {
                out.push(PaneId::Plugin(p.id));
            } else {
                out.push(PaneId::Terminal(p.id));
            }
        }
        i = i + 1;
    }
    assert(panes@.take(panes@.len() as int) =~= panes@);
    out
}

/// The focused pane shows the Codex surface: it is known, tiled and shown.
pub open spec fn shows_surface(info: Option<PaneInfo>) -> bool {
    info is Some && !info->0.is_floating && !info->0.is_suppressed
}

/// Whether the focused pane shows the Codex surface.
pub fn codex_surface_is_visible(focused: &Option<PaneInfo>) -> (r: bool)
    ensures
        r == shows_surface(*focused),
{
    match focused {
        Some(p) => !p.is_floating && !p.is_suppressed,
        None => false,
    }
}

/// The focused floating pane whose geometry the dashboard restores on closing.
pub fn visible_floating_pane(pane_id: PaneId, focused: &Option<PaneInfo>, tab_id: Option<usize>) -> (r: Option<FloatingPaneState>)
    ensures
        r == match *focused {
            Some(p) => if p.is_floating && !p.is_suppressed {
                Some(FloatingPaneState {
                    pane_id: pane_id,
                    tab_id: tab_id,
                    rectangle: PaneRectangle { x: p.pane_x, y: p.pane_y, width: p.pane_columns, height: p.pane_rows },
                })
            } else {
                None
            },
            None => None,
        },
{
    match focused {
        Some(p) => if p.is_floating && !p.is_suppressed {
            Some(FloatingPaneState { pane_id, tab_id, rectangle: pane_rectangle(p) })
        } else {
            None
        },
        None => None,
    }
}

/// The states to hide: of each candidate with its live pane information,
/// those still floating, shown and running, in order.
pub open spec fn live_floating(found: Seq<(PaneId, Option<PaneInfo>)>, tab_id: Option<usize>) -> Seq<FloatingPaneState>
    decreases found.len(),
{
    if found.len() == 0 {
        seq![]
    } else {
        let rest = live_floating(found.drop_last(), tab_id);
        let (id, info) = found.last();
        match info {
            Some(p) => if p.is_floating && !p.is_suppressed && !p.exited {
                rest.push(FloatingPaneState {
                    pane_id: id,
                    tab_id: tab_id,
                    rectangle: PaneRectangle { x: p.pane_x, y: p.pane_y, width: p.pane_columns, height: p.pane_rows },
                })
            } else {
                rest
            },
            None => rest,
        }
    }
}

/// The floating panes to hide, from the live information of each candidate.
pub fn live_floating_states(found: &Vec<(PaneId, Option<PaneInfo>)>, tab_id: Option<usize>) -> (r: Vec<FloatingPaneState>)
    ensures
        r@ == live_floating(found@, tab_id),
{
    let mut out: Vec<FloatingPaneState> = Vec::new();
    let mut i: usize = 0;
    assert(found@.take(0) =~= Seq::<(PaneId, Option<PaneInfo>)>::empty());
    while i < found.len()
        invariant
            i <= found@.len(),
            out@ == live_floating(found@.take(i as int), tab_id),
        decreases found@.len() - i,
    {
        assert(found@.take(i + 1).drop_last() =~= found@.take(i as int));
        assert(found@.take(i + 1).last() == found@[i as int]);
        match &found[i].1 {
            Some(p) => {
                if p.is_floating && !p.is_suppressed && !p.exited {
                    out.push(FloatingPaneState { pane_id: found[i].0, tab_id, rectangle: pane_rectangle(p) });
                }
            },
            None => {},
        }
        i = i + 1;
    }
    assert(found@.take(found@.len() as int) =~= found@);
    out
}

/// A dashboard instance already open in a tab: a live plugin pane loaded
/// from this plugin's URL that is not the status source.
pub open spec fn is_dashboard_pane(p: PaneInfo, url: Option<String>, source: Option<u32>) -> bool {
    p.is_plugin && !p.exited && opt_view(p.plugin_url) == opt_view(url) && source != Some(p.id)
}

/// Where `show_dashboard` sends the request.
#[derive(Clone, Copy, Debug, PartialEq, Eq, Structural)]
pub enum DashboardRoute {
    /// Show this instance.
    ShowHere,
    /// Ask the dashboard instance already in the tab to show itself.
    ForwardTo(u32),
    /// Launch a new floating instance in the tab, with the current snapshot.
    LaunchInTab,
}

/// Whether the optional strings hold the same text.
fn same_url(a: &Option<String>, b: &Option<String>) -> (r: bool)
    ensures
        r == (opt_view(*a) == opt_view(*b)),
{
    match (a, b) {
        (Some(x), Some(y)) => equal_chars(&chars_of(x.as_str()), &chars_of(y.as_str())),
        (None, None) => true,
        _ => false,
    }
}

impl App {
    /// The dashboard instance already open in the tab at `tab_position`:
    /// the smallest id among its dashboard panes.
    pub fn dashboard_in_tab(&self, tab_position: usize) -> (r: Option<u32>)
        ensures
            ({
                let panes = panes_at(self.pane_manifest.panes@, tab_position);
                &&& r is None <==> forall|j: int| 0 <= j < panes.len() ==> !#[trigger] is_dashboard_pane(panes[j], self.plugin_url, self.status_source)
                &&& r matches Some(m) ==> (exists|j: int| 0 <= j < panes.len() && #[trigger] is_dashboard_pane(panes[j], self.plugin_url, self.status_source) && panes[j].id == m)
                    && forall|j: int| 0 <= j < panes.len() && #[trigger] is_dashboard_pane(panes[j], self.plugin_url, self.status_source) ==> m <= panes[j].id
            }),
    {
        let panes = self.pane_manifest.panes_in_tab(tab_position);
        let mut best: Option<u32> = None;
        let mut i: usize = 0;
        while i < panes.len()
            invariant
                i <= panes@.len(),
                best is None <==> forall|j: int| 0 <= j < i ==> !#[trigger] is_dashboard_pane(panes@[j], self.plugin_url, self.status_source),
                best matches Some(m) ==> (exists|j: int| 0 <= j < i && #[trigger] is_dashboard_pane(panes@[j], self.plugin_url, self.status_source) && panes@[j].id == m)
                    && forall|j: int| 0 <= j < i && #[trigger] is_dashboard_pane(panes@[j], self.plugin_url, self.status_source) ==> m <= panes@[j].id,
            decreases panes@.len() - i,
        {
            let p = &panes[i];
            let not_source = match self.status_source {
                Some(s) => s != p.id,
                None => true,
            };
            if p.is_plugin && !p.exited && same_url(&p.plugin_url, &self.plugin_url) && not_source {
                assert(is_dashboard_pane(panes@[i as int], self.plugin_url, self.status_source));
                best = match best {
                    Some(m) => if p.id < m { Some(p.id) } else { Some(m) },
                    None => Some(p.id),
                };
            } else {
                assert(!is_dashboard_pane(panes@[i as int], self.plugin_url, self.status_source));
            }
            i = i + 1;
        }
        best
    }

    /// Where to show the dashboard asked for in the tab `tab_id` at
    /// `tab_position`: here when this instance belongs to that tab (by its
    /// configuration or by its pane's place); else by the instance already
    /// in that tab, or by a new one.
    pub fn dashboard_route(&self, tab_id: usize, tab_position: usize, own_plugin_id: u32) -> (r: DashboardRoute)
        ensures
            ({
                let elsewhere = self.dashboard_tab_id != Some(tab_id)
                    && position_of_plugin(self.pane_manifest.panes@, own_plugin_id) != Some(tab_position);
                let panes = panes_at(self.pane_manifest.panes@, tab_position);
                &&& !elsewhere ==> r == DashboardRoute::ShowHere
                &&& elsewhere && (forall|j: int| 0 <= j < panes.len() ==> !#[trigger] is_dashboard_pane(panes[j], self.plugin_url, self.status_source))
                    ==> r == DashboardRoute::LaunchInTab
                &&& elsewhere && (exists|j: int| 0 <= j < panes.len() && #[trigger] is_dashboard_pane(panes[j], self.plugin_url, self.status_source))
                    ==> (r matches DashboardRoute::ForwardTo(m) && (forall|j: int| 0 <= j < panes.len()
                        && #[trigger] is_dashboard_pane(panes[j], self.plugin_url, self.status_source) ==> m <= panes[j].id)
                        && (exists|j: int| 0 <= j < panes.len() && #[trigger] is_dashboard_pane(panes[j], self.plugin_url, self.status_source) && panes[j].id == m))
            }),
    {
        let configured_here = match self.dashboard_tab_id {
            Some(t) => t == tab_id,
            None => false,
        };
        let placed_here = match self.plugin_tab_position(own_plugin_id) {
            Some(p) => p == tab_position,
            None => false,
        };
        if !configured_here && !placed_here {
            match self.dashboard_in_tab(tab_position) {
                Some(id) => DashboardRoute::ForwardTo(id),
                None => DashboardRoute::LaunchInTab,
            }
        } else {
            DashboardRoute::ShowHere
        }
    }

    /// The floating or hidden panes of the tab at `tab_position`, except
    /// this plugin's own pane.
    pub fn suppression_candidates(&self, tab_position: usize, own_plugin_id: u32) -> (r: Vec<PaneId>)
        ensures
            r@ == floating_candidates(panes_at(self.pane_manifest.panes@, tab_position)).filter(
                |p: PaneId| p != PaneId::Plugin(own_plugin_id),
            ),
    {
        let all = floating_pane_candidates(self.pane_manifest.panes_in_tab(tab_position));
        let ghost pred = |p: PaneId| p != PaneId::Plugin(own_plugin_id);
        let mut out: Vec<PaneId> = Vec::new();
        let mut i: usize = 0;
        assert(all@.take(0) =~= Seq::<PaneId>::empty());
        proof {
            reveal(Seq::filter);
        }
        while i < all.len()
            invariant
                i <= all@.len(),
                out@ == all@.take(i as int).filter(pred),
                pred == |p: PaneId| p != PaneId::Plugin(own_plugin_id),
            decreases all@.len() - i,
        {
            proof {
                reveal(Seq::filter);
            }
            assert(all@.take(i + 1).drop_last() =~= all@.take(i as int));
            assert(all@.take(i + 1).last() == all@[i as int]);
            if all[i] != PaneId::Plugin(own_plugin_id) {
                out.push(all[i]);
            }
            i = i + 1;
        }
        assert(all@.take(all@.len() as int) =~= all@);
        out
    }

    /// A copy of the first known tab with stable id `tab_id`.
    pub fn tab_with_id(&self, tab_id: usize) -> (r: Option<TabInfo>)
        ensures
            match r {
                Some(t) => exists|i: int|
                    0 <= i < self.tabs@.len() && self.tabs@[i].tab_id == tab_id && (forall|k: int|
                        0 <= k < i ==> #[trigger] self.tabs@[k].tab_id != tab_id) && same_tab(t, self.tabs@[i]),
                None => forall|k: int| 0 <= k < self.tabs@.len() ==> #[trigger] self.tabs@[k].tab_id != tab_id,
            },
    {
        let mut i: usize = 0;
        while i < self.tabs.len()
            invariant
                i <= self.tabs@.len(),
                forall|k: int| 0 <= k < i ==> #[trigger] self.tabs@[k].tab_id != tab_id,
            decreases self.tabs@.len() - i,
        {
            if self.tabs[i].tab_id == tab_id {
                return Some(self.tabs[i].duplicate());
            }
            i = i + 1;
        }
        None
    }

    /// Remembers `tab` in place of any tab with its stable id; nothing else changes.
    pub fn remember_tab(&mut self, tab: TabInfo)
        ensures
            final(self).tabs@ == old(self).tabs@.filter(|t: TabInfo| t.tab_id != tab.tab_id).push(tab),
            final(self).agents == old(self).agents,
            final(self).pane_manifest == old(self).pane_manifest,
            same_but_agents(App { tabs: final(self).tabs, ..*old(self) }, *final(self)),
    {
        let ghost pred = |t: TabInfo| t.tab_id != tab.tab_id;
        let mut old_tabs: Vec<TabInfo> = Vec::new();
        std::mem::swap(&mut old_tabs, &mut self.tabs);
        let ghost s = old_tabs@;
        let mut kept: Vec<TabInfo> = Vec::new();
        let mut i: usize = 0;
        proof {
            reveal(Seq::filter);
        }
        assert(s.take(0) =~= Seq::<TabInfo>::empty());
        let count = old_tabs.len();
        while old_tabs.len() > 0
            invariant
                i + old_tabs@.len() == s.len(),
                s.len() == count,
                old_tabs@ == s.skip(i as int),
                kept@ == s.take(i as int).filter(pred),
                pred == |t: TabInfo| t.tab_id != tab.tab_id,
                same_but_agents(App { tabs: self.tabs, ..*old(self) }, *self),
                self.agents == old(self).agents,
            decreases old_tabs@.len(),
        {
            proof {
                reveal(Seq::filter);
            }
            let t = old_tabs.remove(0);
            assert(t == s[i as int]);
            assert(old_tabs@ =~= s.skip(i + 1));
            assert(s.take(i + 1).drop_last() =~= s.take(i as int));
            assert(s.take(i + 1).last() == s[i as int]);
            if t.tab_id != tab.tab_id {
                kept.push(t);
            }
            i = i + 1;
        }
        assert(s.take(s.len() as int) =~= s);
        kept.push(tab);
        self.tabs = kept;
    }
}


/// What closing the dashboard restores: the pane it was opened over, the
/// panes it hid, and the tabs whose floating panes to hide again.
pub struct Restoration {
    pub visible_floating_pane: Option<FloatingPaneState>,
    pub shown_panes: Vec<FloatingPaneState>,
    pub tabs_to_hide: Vec<Option<usize>>,
}

impl App {
    /// Opens the dashboard over the current view: remembers the floating
    /// pane it was opened over, hides `panes`, and where the Codex surface
    /// shows but no floating pane is listed yet, hides the tab's floating
    /// panes on the next manifest. True when the pane is still to be named.
    pub fn open_overlay(
        &mut self,
        visible_floating_pane: Option<FloatingPaneState>,
        codex_surface_is_visible: bool,
        tab_position: usize,
        tab_id: Option<usize>,
        panes: Vec<FloatingPaneState>,
    ) -> (r: bool)
        ensures
            final(self).dashboard_visible,
            final(self).dashboard_named,
            r == !old(self).dashboard_named,
            final(self).visible_floating_pane == visible_floating_pane,
            final(self).suppressed_floating_panes@ == panes@,
            final(self).pending_floating_pane_suppression == (if codex_surface_is_visible && panes@.len() == 0 {
                Some(PendingFloatingPaneSuppression { tab_position, tab_id })
            } else {
                None
            }),
            same_but_agents(
                App {
                    dashboard_visible: true,
                    dashboard_named: true,
                    visible_floating_pane: visible_floating_pane,
                    suppressed_floating_panes: final(self).suppressed_floating_panes,
                    pending_floating_pane_suppression: final(self).pending_floating_pane_suppression,
                    ..*old(self)
                },
                *final(self),
            ),
            final(self).agents == old(self).agents,
    {
        self.dashboard_visible = true;
        self.visible_floating_pane = visible_floating_pane;
        self.pending_floating_pane_suppression = if codex_surface_is_visible && panes.len() == 0 {
            Some(PendingFloatingPaneSuppression { tab_position, tab_id })
        } else {
            None
        };
        let rename = !self.dashboard_named;
        self.dashboard_named = true;
        self.suppressed_floating_panes = panes;
        rename
    }

    /// Remembers floating panes hidden while the dashboard is open.
    pub fn suppress_floating_panes(&mut self, panes: Vec<FloatingPaneState>)
        ensures
            final(self).suppressed_floating_panes@ == old(self).suppressed_floating_panes@ + panes@,
            same_but_agents(
                App { suppressed_floating_panes: final(self).suppressed_floating_panes, ..*old(self) },
                *final(self),
            ),
            final(self).agents == old(self).agents,
    {
        let mut k: usize = 0;
        let ghost start = self.suppressed_floating_panes@;
        while k < panes.len()
            invariant
                k <= panes@.len(),
                self.suppressed_floating_panes@ == start + panes@.take(k as int),
                same_but_agents(
                    App { suppressed_floating_panes: self.suppressed_floating_panes, ..*old(self) },
                    *self,
                ),
                self.agents == old(self).agents,
            decreases panes@.len() - k,
        {
            self.suppressed_floating_panes.push(panes[k]);
            k = k + 1;
            assert(self.suppressed_floating_panes@ =~= start + panes@.take(k as int));
        }
        assert(panes@.take(panes@.len() as int) =~= panes@);
    }

    /// Closes the dashboard: forgets the pane it was opened over, the panes
    /// it hid and any pending hiding, and returns what to restore.
    pub fn close_overlay(&mut self) -> (r: Restoration)
        ensures
            !final(self).dashboard_visible,
            final(self).pending_floating_pane_suppression is None,
            final(self).visible_floating_pane is None,
            final(self).suppressed_floating_panes@.len() == 0,
            r.visible_floating_pane == old(self).visible_floating_pane,
            r.shown_panes@ == old(self).suppressed_floating_panes@,
            tabs_of_panes(old(self).suppressed_floating_panes@, r.tabs_to_hide@),
            same_but_agents(
                App {
                    dashboard_visible: false,
                    pending_floating_pane_suppression: None,
                    visible_floating_pane: None,
                    suppressed_floating_panes: final(self).suppressed_floating_panes,
                    ..*old(self)
                },
                *final(self),
            ),
            final(self).agents == old(self).agents,
    {
        self.dashboard_visible = false;
        self.pending_floating_pane_suppression = None;
        let visible = self.visible_floating_pane;
        self.visible_floating_pane = None;
        let mut shown: Vec<FloatingPaneState> = Vec::new();
        std::mem::swap(&mut shown, &mut self.suppressed_floating_panes);
        let tabs = tabs_to_hide(&shown);
        Restoration { visible_floating_pane: visible, shown_panes: shown, tabs_to_hide: tabs }
    }

    /// Records that the focused pane could not be found.
    pub fn focus_unknown(&mut self)
        ensures
            opt_view(final(self).error) == Some("could not determine the focused Zellij pane"@),
            same_but_agents(App { error: final(self).error, ..*old(self) }, *final(self)),
            final(self).agents == old(self).agents,
    {
        self.error = Some(String::from_str("could not determine the focused Zellij pane"));
    }

    /// Records that the floating panes of a tab could not be hidden again.
    pub fn restore_failed(&mut self, error: &str)
        ensures
            opt_view(final(self).error) == Some("could not restore the workbench view: "@ + error@),
            same_but_agents(App { error: final(self).error, ..*old(self) }, *final(self)),
            final(self).agents == old(self).agents,
    {
        let mut message = chars_of("could not restore the workbench view: ");
        push_all(&mut message, &chars_of(error));
        self.error = Some(string_of(message.as_slice()));
    }
}

/// The id of a pane: a plugin's or a terminal's.
pub open spec fn kind_id(p: PaneInfo) -> PaneId {
    if p.is_plugin {
        PaneId::Plugin(p.id)
    } else {
        PaneId::Terminal(p.id)
    }
}

/// The candidates are exactly the live panes that float or are hidden, by
/// id: each such pane is one, and each one is such a pane.
pub proof fn law_candidates_are_the_live_floating_or_hidden_panes(panes: Seq<PaneInfo>)
    ensures
        forall|j: int|
            0 <= j < panes.len() && !(#[trigger] panes[j]).exited && (panes[j].is_floating || panes[j].is_suppressed)
                ==> floating_candidates(panes).contains(kind_id(panes[j])),
        forall|k: int|
            0 <= k < floating_candidates(panes).len() ==> exists|j: int|
                0 <= j < panes.len() && !(#[trigger] panes[j]).exited && (panes[j].is_floating || panes[j].is_suppressed)
                    && kind_id(panes[j]) == #[trigger] floating_candidates(panes)[k],
    decreases panes.len(),
{
    if panes.len() > 0 {
        let d = panes.drop_last();
        law_candidates_are_the_live_floating_or_hidden_panes(d);
        let rest = floating_candidates(d);
        let p = panes.last();
        let r = floating_candidates(panes);
        assert(pane_id_of(p) == kind_id(p));
        assert forall|j: int|
            0 <= j < panes.len() && !(#[trigger] panes[j]).exited && (panes[j].is_floating || panes[j].is_suppressed)
                implies r.contains(kind_id(panes[j])) by {
            if j < panes.len() - 1 {
                assert(panes[j] == d[j]);
                assert(rest.contains(kind_id(d[j])));
                let m = choose|m: int| 0 <= m < rest.len() && rest[m] == kind_id(d[j]);
                assert(r[m] == rest[m]);
            } else {
                assert(r[r.len() - 1] == kind_id(p));
            }
        }
        assert forall|k: int| 0 <= k < r.len() implies exists|j: int|
            0 <= j < panes.len() && !(#[trigger] panes[j]).exited && (panes[j].is_floating || panes[j].is_suppressed)
                && kind_id(panes[j]) == #[trigger] r[k] by {
            if k < rest.len() {
                assert(r[k] == rest[k]);
                let j = choose|j: int|
                    0 <= j < d.len() && !(#[trigger] d[j]).exited && (d[j].is_floating || d[j].is_suppressed)
                        && kind_id(d[j]) == rest[k];
                assert(panes[j] == d[j]);
            } else {
                assert(panes[panes.len() - 1] == p);
            }
        }
    }
}

/// The state of pane `id`, from its live information `p`, in tab `tab_id`.
pub open spec fn state_of(id: PaneId, p: PaneInfo, tab_id: Option<usize>) -> FloatingPaneState {
    FloatingPaneState {
        pane_id: id,
        tab_id: tab_id,
        rectangle: PaneRectangle { x: p.pane_x, y: p.pane_y, width: p.pane_columns, height: p.pane_rows },
    }
}

/// A candidate whose live information shows it floating, shown and running.
pub open spec fn still_floating(e: (PaneId, Option<PaneInfo>)) -> bool {
    e.1 is Some && e.1->0.is_floating && !e.1->0.is_suppressed && !e.1->0.exited
}

/// The panes hidden on opening are exactly the candidates found still
/// floating, shown and running, each with that pane's geometry and the tab.
pub proof fn law_hidden_panes_are_the_live_floating_ones(found: Seq<(PaneId, Option<PaneInfo>)>, tab_id: Option<usize>)
    ensures
        forall|j: int|
            0 <= j < found.len() && still_floating(#[trigger] found[j]) ==> live_floating(found, tab_id).contains(
                state_of(found[j].0, found[j].1->0, tab_id),
            ),
        forall|k: int|
            0 <= k < live_floating(found, tab_id).len() ==> exists|j: int|
                0 <= j < found.len() && still_floating(#[trigger] found[j]) && #[trigger] live_floating(found, tab_id)[k]
                    == state_of(found[j].0, found[j].1->0, tab_id),
    decreases found.len(),
{
    if found.len() > 0 {
        let d = found.drop_last();
        law_hidden_panes_are_the_live_floating_ones(d, tab_id);
        let rest = live_floating(d, tab_id);
        let r = live_floating(found, tab_id);
        assert forall|j: int| 0 <= j < found.len() && still_floating(#[trigger] found[j]) implies r.contains(
            state_of(found[j].0, found[j].1->0, tab_id),
        ) by {
            let st = state_of(found[j].0, found[j].1->0, tab_id);
            if j < found.len() - 1 {
                assert(found[j] == d[j]);
                assert(rest.contains(st));
                let m = choose|m: int| 0 <= m < rest.len() && rest[m] == st;
                assert(r[m] == rest[m]);
            } else {
                assert(r[r.len() - 1] == st);
            }
        }
        assert forall|k: int| 0 <= k < r.len() implies exists|j: int|
            0 <= j < found.len() && still_floating(#[trigger] found[j]) && #[trigger] r[k] == state_of(found[j].0, found[j].1->0, tab_id) by {
            if k < rest.len() {
                assert(r[k] == rest[k]);
                let j = choose|j: int|
                    0 <= j < d.len() && still_floating(#[trigger] d[j]) && rest[k] == state_of(d[j].0, d[j].1->0, tab_id);
                assert(found[j] == d[j]);
            } else {
                assert(found[found.len() - 1] == found.last());
            }
        }
    }
}

} // verus!
