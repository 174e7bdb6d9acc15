//! What the logic reads of Zellij's session state: tabs, panes, the pane
//! manifest and loaded plugins, held as plain values.
use vstd::prelude::*;

verus! {

/// One tab of the session, as Zellij reports it.
pub struct TabInfo {
    /// Zero-based position of the tab in the tab line.
    pub position: usize,
    /// Identity of the tab that survives moves and renames.
    pub tab_id: usize,
    pub name: String,
    pub active: bool,
    pub are_floating_panes_visible: bool,
    pub is_fullscreen_active: bool,
    pub is_sync_panes_active: bool,
    pub has_bell_notification: bool,
    pub is_flashing_bell: bool,
    /// Other clients whose focus is on this tab.
    pub other_focused_clients: Vec<u16>,
    /// How many suppressed panes the tab holds.
    pub panes_to_hide: usize,
    pub active_swap_layout_name: Option<String>,
    /// Whether the layout was changed by hand, away from the swap layouts.
    pub is_swap_layout_dirty: bool,
    pub viewport_rows: usize,
    pub viewport_columns: usize,
    pub display_area_rows: usize,
    pub display_area_columns: usize,
    pub selectable_tiled_panes_count: usize,
    pub selectable_floating_panes_count: usize,
}

impl Default for TabInfo {
    fn default() -> (r: Self)
        ensures
            r.position == 0,
            r.tab_id == 0,
            r.name@.len() == 0,
            !r.active,
            !r.are_floating_panes_visible,
            !r.is_fullscreen_active,
            !r.is_sync_panes_active,
            !r.has_bell_notification,
            !r.is_flashing_bell,
            r.other_focused_clients@.len() == 0,
            r.panes_to_hide == 0,
            r.active_swap_layout_name is None,
            !r.is_swap_layout_dirty,
            r.viewport_rows == 0,
            r.viewport_columns == 0,
            r.display_area_rows == 0,
            r.display_area_columns == 0,
            r.selectable_tiled_panes_count == 0,
            r.selectable_floating_panes_count == 0,
    {
        TabInfo {
            position: 0,
            tab_id: 0,
            name: String::new(),
            active: false,
            are_floating_panes_visible: false,
            is_fullscreen_active: false,
            is_sync_panes_active: false,
            has_bell_notification: false,
            is_flashing_bell: false,
            other_focused_clients: Vec::new(),
            panes_to_hide: 0,
            active_swap_layout_name: None,
            is_swap_layout_dirty: false,
            viewport_rows: 0,
            viewport_columns: 0,
            display_area_rows: 0,
            display_area_columns: 0,
            selectable_tiled_panes_count: 0,
            selectable_floating_panes_count: 0,
        }
    }
}

impl TabInfo {
    /// A copy of the tab.
    pub fn duplicate(&self) -> (r: TabInfo)
        ensures
            r.position == self.position,
            r.tab_id == self.tab_id,
            r.name@ == self.name@,
            r.active == self.active,
            r.are_floating_panes_visible == self.are_floating_panes_visible,
            r.is_fullscreen_active == self.is_fullscreen_active,
            r.is_sync_panes_active == self.is_sync_panes_active,
            r.has_bell_notification == self.has_bell_notification,
            r.is_flashing_bell == self.is_flashing_bell,
            r.other_focused_clients@ == self.other_focused_clients@,
            r.panes_to_hide == self.panes_to_hide,
            r.active_swap_layout_name == self.active_swap_layout_name,
            r.is_swap_layout_dirty == self.is_swap_layout_dirty,
            r.viewport_rows == self.viewport_rows,
            r.viewport_columns == self.viewport_columns,
            r.display_area_rows == self.display_area_rows,
            r.display_area_columns == self.display_area_columns,
            r.selectable_tiled_panes_count == self.selectable_tiled_panes_count,
            r.selectable_floating_panes_count == self.selectable_floating_panes_count,
    {
        TabInfo {
            position: self.position,
            tab_id: self.tab_id,
            name: self.name.clone(),
            active: self.active,
            are_floating_panes_visible: self.are_floating_panes_visible,
            is_fullscreen_active: self.is_fullscreen_active,
            is_sync_panes_active: self.is_sync_panes_active,
            has_bell_notification: self.has_bell_notification,
            is_flashing_bell: self.is_flashing_bell,
            other_focused_clients: self.other_focused_clients.clone(),
            panes_to_hide: self.panes_to_hide,
            active_swap_layout_name: crate::sync::copy_text(&self.active_swap_layout_name),
            is_swap_layout_dirty: self.is_swap_layout_dirty,
            viewport_rows: self.viewport_rows,
            viewport_columns: self.viewport_columns,
            display_area_rows: self.display_area_rows,
            display_area_columns: self.display_area_columns,
            selectable_tiled_panes_count: self.selectable_tiled_panes_count,
            selectable_floating_panes_count: self.selectable_floating_panes_count,
        }
    }
}

/// One pane of the session, as Zellij reports it.
pub struct PaneInfo {
    /// The pane's id; terminal and plugin panes are numbered separately.
    pub id: u32,
    pub is_plugin: bool,
    pub is_focused: bool,
    pub is_floating: bool,
    pub is_suppressed: bool,
    pub exited: bool,
    pub title: String,
    /// The command the terminal pane runs, when Zellij knows it.
    pub terminal_command: Option<String>,
    /// The URL a plugin pane was loaded from.
    pub plugin_url: Option<String>,
    pub pane_x: usize,
    pub pane_y: usize,
    pub pane_columns: usize,
    pub pane_rows: usize,
}

impl Default for PaneInfo {
    fn default() -> (r: Self)
        ensures
            r.id == 0,
            !r.is_plugin,
            !r.is_focused,
            !r.is_floating,
            !r.is_suppressed,
            !r.exited,
            r.title@.len() == 0,
            r.terminal_command is None,
            r.plugin_url is None,
            r.pane_x == 0,
            r.pane_y == 0,
            r.pane_columns == 0,
            r.pane_rows == 0,
    {
        PaneInfo {
            id: 0,
            is_plugin: false,
            is_focused: false,
            is_floating: false,
            is_suppressed: false,
            exited: false,
            title: String::new(),
            terminal_command: None,
            plugin_url: None,
            pane_x: 0,
            pane_y: 0,
            pane_columns: 0,
            pane_rows: 0,
        }
    }
}

impl PaneInfo {
    /// A copy of the pane.
    pub fn duplicate(&self) -> (r: PaneInfo)
        ensures
            r == *self,
    {
        PaneInfo {
            id: self.id,
            is_plugin: self.is_plugin,
            is_focused: self.is_focused,
            is_floating: self.is_floating,
            is_suppressed: self.is_suppressed,
            exited: self.exited,
            title: self.title.clone(),
            terminal_command: match &self.terminal_command {
                Some(c) => Some(c.clone()),
                None => None,
            },
            plugin_url: match &self.plugin_url {
                Some(u) => Some(u.clone()),
                None => None,
            },
            pane_x: self.pane_x,
            pane_y: self.pane_y,
            pane_columns: self.pane_columns,
            pane_rows: self.pane_rows,
        }
    }
}

/// The panes of every tab: each entry holds a tab position and the panes
/// shown in that tab.
pub struct PaneManifest {
    pub panes: Vec<(usize, Vec<PaneInfo>)>,
}

impl Default for PaneManifest {
    fn default() -> (r: Self)
        ensures
            r.panes@.len() == 0,
    {
        PaneManifest { panes: Vec::new() }
    }
}

/// A loaded plugin instance: where it was loaded from and the role its
/// configuration gives it.
pub struct PluginInfo {
    pub location: String,
    pub role: Option<String>,
}

/// The panes listed for the tab at `position`: those of the first entry for
/// that position, or none.
pub open spec fn panes_at(entries: Seq<(usize, Vec<PaneInfo>)>, position: usize) -> Seq<PaneInfo>
    decreases entries.len(),
{
    if entries.len() == 0 {
        seq![]
    } else if entries[0].0 == position {
        entries[0].1@
    } else {
        panes_at(entries.drop_first(), position)
    }
}

/// All panes of the manifest, tab after tab.
pub open spec fn all_panes(entries: Seq<(usize, Vec<PaneInfo>)>) -> Seq<PaneInfo>
    decreases entries.len(),
{
    if entries.len() == 0 {
        seq![]
    } else {
        entries[0].1@ + all_panes(entries.drop_first())
    }
}

/// Splitting the manifest splits its list of panes.
pub proof fn lemma_all_panes_split(entries: Seq<(usize, Vec<PaneInfo>)>, i: int)
    requires
        0 <= i <= entries.len(),
    ensures
        all_panes(entries) == all_panes(entries.take(i)) + all_panes(entries.skip(i)),
        all_panes(entries.take(i)).is_prefix_of(all_panes(entries)),
        i < entries.len() ==> all_panes(entries.take(i + 1)) == all_panes(entries.take(i)) + entries[i].1@,
    decreases i,
{
    if i == 0 {
        assert(entries.take(0) =~= Seq::<(usize, Vec<PaneInfo>)>::empty());
        assert(entries.skip(0) =~= entries);
        assert(all_panes(entries) =~= Seq::<PaneInfo>::empty() + all_panes(entries));
    } else {
        let d = entries.drop_first();
        lemma_all_panes_split(d, i - 1);
        assert(entries.take(i).drop_first() =~= d.take(i - 1));
        assert(entries.take(i)[0] == entries[0]);
        assert(entries.skip(i) =~= d.skip(i - 1));
        assert(all_panes(entries) =~= all_panes(entries.take(i)) + all_panes(entries.skip(i)));
    }
    if i < entries.len() {
        let t = entries.take(i + 1);
        lemma_all_panes_split_first(t, i);
        assert(t.take(i) =~= entries.take(i));
        assert(t[i] == entries[i]);
    }
}

proof fn lemma_all_panes_split_first(t: Seq<(usize, Vec<PaneInfo>)>, i: int)
    requires
        0 <= i,
        t.len() == i + 1,
    ensures
        all_panes(t) == all_panes(t.take(i)) + t[i].1@,
    decreases i,
{
    if i == 0 {
        assert(t.drop_first() =~= Seq::<(usize, Vec<PaneInfo>)>::empty());
        assert(t.take(0) =~= Seq::<(usize, Vec<PaneInfo>)>::empty());
        assert(all_panes(t.drop_first()) == Seq::<PaneInfo>::empty());
        assert(all_panes(t) =~= t[0].1@);
        assert(all_panes(t.take(0)) + t[0].1@ =~= t[0].1@);
    } else {
        let d = t.drop_first();
        lemma_all_panes_split_first(d, i - 1);
        assert(t.take(i).drop_first() =~= d.take(i - 1));
        assert(t.take(i)[0] == t[0]);
        assert(all_panes(t) =~= all_panes(t.take(i)) + t[i].1@);
    }
}

impl PaneManifest {
    /// The panes of the tab at `position` (the first entry for it), or an
    /// empty slice.
    pub fn panes_in_tab(&self, position: usize) -> (r: &[PaneInfo])
        ensures
            r@ == panes_at(self.panes@, position),
    {
        let mut i: usize = 0;
        assert(self.panes@.skip(0) =~= self.panes@);
        while i < self.panes.len()
            invariant
                i <= self.panes@.len(),
                panes_at(self.panes@, position) == panes_at(self.panes@.skip(i as int), position),
            decreases self.panes@.len() - i,
        {
            assert(self.panes@.skip(i as int).drop_first() =~= self.panes@.skip(i + 1));
            if self.panes[i].0 == position {
                return self.panes[i].1.as_slice();
            }
            i = i + 1;
        }
        &[]
    }
}

} // verus!
