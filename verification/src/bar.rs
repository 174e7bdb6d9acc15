//! The tab bar's state: the tabs it shows, its own place in the session,
//! and what it decides on each event.
use vstd::prelude::*;
use crate::model::{all_panes, panes_at, PaneInfo, PaneManifest, TabInfo};
use crate::sync::{same_tabs, tabs_equal};
use crate::tabbar::{
    capped, decorated_name, rendered_tab, separator_for, tab_style, tab_width, LinePart,
    PaletteColor, PluginCapabilities, Styling,
};
use crate::text::{chars_of, decimal, decimal_chars, equal_chars, parse_u32, string_of, u32_parse};

verus! {

/// What the tab bar keeps between events.
pub struct TabBar {
    pub tabs: Vec<TabInfo>,
    /// The active tab, counted from 1 (0 before any tab update).
    pub active_tab_idx: usize,
    /// The parts of the tab line last drawn.
    pub tab_line: Vec<LinePart>,
    pub hide_swap_layout_indication: bool,
    /// A plugin pane that this bar is to take the place of, once both show.
    pub replace_pane: Option<u32>,
    pub permissions_granted: bool,
    /// The position of the tab that shows this bar.
    pub own_tab_position: Option<usize>,
    pub panes: PaneManifest,
    /// The command that clears finished badges, when configured.
    pub badge_command: Option<String>,
}

impl Default for TabBar {
    fn default() -> (r: Self)
        ensures
            r.tabs@.len() == 0,
            r.active_tab_idx == 0,
            r.tab_line@.len() == 0,
            !r.hide_swap_layout_indication,
            r.replace_pane is None,
            !r.permissions_granted,
            r.own_tab_position is None,
            r.panes.panes@.len() == 0,
            r.badge_command is None,
    {
        TabBar {
            tabs: Vec::new(),
            active_tab_idx: 0,
            tab_line: Vec::new(),
            hide_swap_layout_indication: false,
            replace_pane: None,
            permissions_granted: false,
            own_tab_position: None,
            panes: PaneManifest::default(),
            badge_command: None,
        }
    }
}

/// What a mode update does with key bindings.
#[derive(Clone, Copy, Debug, PartialEq, Eq, Structural)]
pub enum KeybindStep {
    /// It brings none and some are remembered: it takes the remembered ones.
    UseRemembered,
    /// It brings some: they are remembered.
    Remember,
    /// It brings none and none are remembered: nothing to do.
    Keep,
}

/// What a mode update does with key bindings, given whether it brings any
/// and whether some are remembered from before.
pub fn keybind_step(brings_none: bool, none_remembered: bool) -> (r: KeybindStep)
    ensures
        r == if brings_none && !none_remembered {
            KeybindStep::UseRemembered
        } else if !brings_none {
            KeybindStep::Remember
        } else {
            KeybindStep::Keep
        },
{
    if brings_none && !none_remembered {
        KeybindStep::UseRemembered
    } else if !brings_none {
        KeybindStep::Remember
    } else {
        KeybindStep::Keep
    }
}

/// The views of an optional string.
pub open spec fn opt_chars(s: Option<String>) -> Option<Seq<char>> {
    match s {
        Some(t) => Some(t@),
        None => None,
    }
}

/// The index of the first active tab.
pub open spec fn first_active(tabs: Seq<TabInfo>) -> Option<int>
    decreases tabs.len(),
{
    if tabs.len() == 0 {
        None
    } else if tabs[0].active {
        Some(0)
    } else {
        match first_active(tabs.drop_first()) {
            Some(i) => Some(i + 1),
            None => None,
        }
    }
}

/// Whether a pane of the manifest is the plugin `id`.
pub open spec fn shows_plugin(panes: Seq<PaneInfo>, id: u32) -> bool {
    exists|i: int| 0 <= i < panes.len() && #[trigger] panes[i].is_plugin && panes[i].id == id
}

/// The position of the first tab of the manifest that shows plugin `id`.
pub open spec fn tab_showing(entries: Seq<(usize, Vec<PaneInfo>)>, id: u32) -> Option<usize>
    decreases entries.len(),
{
    if entries.len() == 0 {
        None
    } else if shows_plugin(entries[0].1@, id) {
        Some(entries[0].0)
    } else {
        tab_showing(entries.drop_first(), id)
    }
}

/// The first active tab at the bar's own position.
pub open spec fn own_active_tab(tabs: Seq<TabInfo>, own: Option<usize>) -> Option<TabInfo>
    decreases tabs.len(),
{
    if tabs.len() == 0 {
        None
    } else if tabs[0].active && own == Some(tabs[0].position) {
        Some(tabs[0])
    } else {
        own_active_tab(tabs.drop_first(), own)
    }
}

/// Whether a pane is the one the user works in on a tab whose floating
/// panes are shown (`floating`) or hidden.
pub open spec fn is_working_pane(p: PaneInfo, floating: bool) -> bool {
    p.is_focused && !p.is_plugin && !p.is_suppressed && p.is_floating == floating
}

/// The first pane the user works in.
pub open spec fn working_pane(panes: Seq<PaneInfo>, floating: bool) -> Option<PaneInfo>
    decreases panes.len(),
{
    if panes.len() == 0 {
        None
    } else if is_working_pane(panes[0], floating) {
        Some(panes[0])
    } else {
        working_pane(panes.drop_first(), floating)
    }
}

/// The pipe message that asks to clear the finished badges.
pub open spec fn clear_done_message() -> Seq<char> {
    "zellij_codex_clear_done"@
}

/// The program that clears finished badges, with its leading arguments:
/// the configured command, or the badge script run through the shell.
pub open spec fn badge_program(badge_command: Option<Seq<char>>) -> Seq<Seq<char>> {
    match badge_command {
        Some(c) => seq![c],
        None => seq![
            "/bin/sh"@,
            "-c"@,
            "exec \"$HOME/.local/bin/zellij-codex-badges\" \"$@\""@,
            "zellij-codex-clear-done"@,
        ],
    }
}

/// The command that clears the finished badge of pane `pane_id` in `session`.
pub open spec fn clear_done_args(badge_command: Option<Seq<char>>, session: Seq<char>, pane_id: u32) -> Seq<Seq<char>> {
    badge_program(badge_command) + seq![
        "--session"@,
        session,
        "--clear-done"@,
        "--pane-id"@,
        decimal(pane_id as nat),
    ]
}

/// The command a clear-done message starts, if the bar handles it: the
/// message must be that one, permissions granted, the bar's own tab active,
/// the session named and a pane worked in on that tab.
pub open spec fn clear_done_request(bar: TabBar, name: Seq<char>, session: Option<Seq<char>>) -> Option<Seq<Seq<char>>> {
    if name != clear_done_message() || !bar.permissions_granted {
        None
    } else {
        match own_active_tab(bar.tabs@, bar.own_tab_position) {
            None => None,
            Some(tab) => match session {
                None => None,
                Some(s) => match working_pane(panes_at(bar.panes.panes@, tab.position), tab.are_floating_panes_visible) {
                    None => None,
                    Some(p) => Some(clear_done_args(opt_chars(bar.badge_command), s, p.id)),
                },
            },
        }
    }
}

/// The name shown for a tab: "Enter name..." for the active tab while it is
/// renamed and has no name yet, else its name.
pub open spec fn shown_name(tab: TabInfo, renaming: bool) -> Seq<char> {
    if tab.active && renaming && tab.name@.len() == 0 {
        "Enter name..."@
    } else {
        tab.name@
    }
}

/// The position of the last active tab, or 0.
pub open spec fn last_active_position(tabs: Seq<TabInfo>) -> usize
    decreases tabs.len(),
{
    if tabs.len() == 0 {
        0
    } else if tabs.last().active {
        tabs.last().position
    } else {
        last_active_position(tabs.drop_last())
    }
}

/// Whether `part` is tab `i` of the line, styled (every other tab alternate).
pub open spec fn styled_as(
    part: LinePart,
    tab: TabInfo,
    i: int,
    renaming: bool,
    palette: Styling,
    capabilities: PluginCapabilities,
) -> bool {
    let name = decorated_name(shown_name(tab, renaming), tab);
    &&& part.part@ == rendered_tab(name, tab, i % 2 == 1 && capabilities.arrow_fonts, palette, separator_for(capabilities))
    &&& part.len == capped(tab_width(name, tab, palette, separator_for(capabilities)))
    &&& part.tab_index == Some(tab.position)
}

/// The texts of the parts, one after the other.
pub open spec fn line_text(parts: Seq<LinePart>) -> Seq<char>
    decreases parts.len(),
{
    if parts.len() == 0 {
        seq![]
    } else {
        line_text(parts.drop_last()) + parts.last().part@
    }
}

/// The escape code that fills the rest of the line with `background`.
pub open spec fn fill_code(background: PaletteColor) -> Seq<char> {
    match background {
        PaletteColor::Rgb(r, g, b) => "\u{1b}[48;2;"@ + decimal(r as nat) + ";"@ + decimal(g as nat) + ";"@
            + decimal(b as nat) + "m\u{1b}[0K"@,
        PaletteColor::EightBit(c) => "\u{1b}[48;5;"@ + decimal(c as nat) + "m\u{1b}[0K"@,
    }
}

/// Appends the characters of a literal.
fn push_str(line: &mut Vec<char>, text: &str)
    ensures
        final(line)@ == old(line)@ + text@,
{
    let t = chars_of(text);
    let mut i: usize = 0;
    let ghost start = line@;
    while i < t.len()
        invariant
            i <= t@.len(),
            t@ == text@,
            line@ == start + t@.take(i as int),
        decreases t@.len() - i,
    {
        line.push(t[i]);
        i = i + 1;
        assert(line@ =~= start + t@.take(i as int));
    }
    assert(t@.take(t@.len() as int) =~= t@);
}

/// Appends the characters of a vector.
fn push_chars(line: &mut Vec<char>, t: &Vec<char>)
    ensures
        final(line)@ == old(line)@ + t@,
{
    let mut i: usize = 0;
    let ghost start = line@;
    while i < t.len()
        invariant
            i <= t@.len(),
            line@ == start + t@.take(i as int),
        decreases t@.len() - i,
    {
        line.push(t[i]);
        i = i + 1;
        assert(line@ =~= start + t@.take(i as int));
    }
    assert(t@.take(t@.len() as int) =~= t@);
}

/// Whether any pane of the manifest is the plugin `id`.
fn manifest_shows(manifest: &PaneManifest, id: u32) -> (r: bool)
    ensures
        r == shows_plugin(all_panes(manifest.panes@), id),
{
    let mut k: usize = 0;
    while k < manifest.panes.len()
        invariant
            k <= manifest.panes@.len(),
            !shows_plugin(all_panes(manifest.panes@.take(k as int)), id),
        decreases manifest.panes@.len() - k,
    {
        proof {
            crate::model::lemma_all_panes_split(manifest.panes@, k as int);
        }
        let panes = &manifest.panes[k].1;
        let mut j: usize = 0;
        while j < panes.len()
            invariant
                j <= panes@.len(),
                k < manifest.panes@.len(),
                panes@ == manifest.panes@[k as int].1@,
                forall|m: int| 0 <= m < j ==> !(#[trigger] panes@[m].is_plugin && panes@[m].id == id),
            decreases panes@.len() - j,
        {
            if panes[j].is_plugin && panes[j].id == id {
                proof {
                    crate::model::lemma_all_panes_split(manifest.panes@, k as int);
                    crate::model::lemma_all_panes_split(manifest.panes@, k + 1);
                    let before = all_panes(manifest.panes@.take(k as int));
                    let whole = all_panes(manifest.panes@);
                    assert(whole[before.len() + j] == panes@[j as int]);
                }
                return true;
            }
            j = j + 1;
        }
        proof {
            crate::model::lemma_all_panes_split(manifest.panes@, k as int);
            let before = all_panes(manifest.panes@.take(k as int));
            let after = all_panes(manifest.panes@.take(k + 1));
            assert(after == before + panes@);
            assert forall|m: int| 0 <= m < after.len() implies !(#[trigger] after[m].is_plugin && after[m].id == id) by {
                if m < before.len() {
                    assert(after[m] == before[m]);
                } else {
                    assert(after[m] == panes@[m - before.len()]);
                }
            }
        }
        k = k + 1;
    }
    assert(manifest.panes@.take(manifest.panes@.len() as int) =~= manifest.panes@);
    false
}

/// The position of the first tab of the manifest that shows plugin `id`.
fn find_tab_showing(manifest: &PaneManifest, id: u32) -> (r: Option<usize>)
    ensures
        r == tab_showing(manifest.panes@, id),
{
    let mut k: usize = 0;
    assert(manifest.panes@.skip(0) =~= manifest.panes@);
    while k < manifest.panes.len()
        invariant
            k <= manifest.panes@.len(),
            tab_showing(manifest.panes@, id) == tab_showing(manifest.panes@.skip(k as int), id),
        decreases manifest.panes@.len() - k,
    {
        assert(manifest.panes@.skip(k as int).drop_first() =~= manifest.panes@.skip(k + 1));
        let panes = &manifest.panes[k].1;
        let mut j: usize = 0;
        while j < panes.len()
            invariant
                j <= panes@.len(),
                k < manifest.panes@.len(),
                panes@ == manifest.panes@[k as int].1@,
                tab_showing(manifest.panes@, id) == tab_showing(manifest.panes@.skip(k as int), id),
                manifest.panes@.skip(k as int).drop_first() == manifest.panes@.skip(k + 1),
                forall|m: int| 0 <= m < j ==> !(#[trigger] panes@[m].is_plugin && panes@[m].id == id),
            decreases panes@.len() - j,
        {
            if panes[j].is_plugin && panes[j].id == id {
                assert(shows_plugin(panes@, id));
                return Some(manifest.panes[k].0);
            }
            j = j + 1;
        }
        k = k + 1;
    }
    None
}

impl TabBar {
    /// Takes the plugin's configuration: the pane to replace, read as a
    /// number; the badge command; and whether to hide the swap layout.
    pub fn configure(
        &mut self,
        replace_pane_id: Option<&str>,
        badge_command: Option<String>,
        hide_swap_layout_indication: Option<&str>,
    )
        ensures
            final(self).replace_pane == (match replace_pane_id {
                Some(s) => u32_parse(s@),
                None => None,
            }),
            opt_chars(final(self).badge_command) == opt_chars(badge_command),
            final(self).hide_swap_layout_indication == (match hide_swap_layout_indication {
                Some(s) => s@ == "true"@,
                None => false,
            }),
            final(self).tabs == old(self).tabs,
            final(self).active_tab_idx == old(self).active_tab_idx,
            final(self).permissions_granted == old(self).permissions_granted,
            final(self).own_tab_position == old(self).own_tab_position,
            final(self).tab_line == old(self).tab_line,
            final(self).panes == old(self).panes,
    {
        self.replace_pane = match replace_pane_id {
            Some(s) => parse_u32(s),
            None => None,
        };
        self.badge_command = badge_command;
        self.hide_swap_layout_indication = match hide_swap_layout_indication {
            Some(s) => equal_chars(&chars_of(s), &chars_of("true")),
            None => false,
        };
    }

    /// Takes a new list of tabs. Where one is active, it becomes the active
    /// tab (counted from 1) and the list is kept; the result says whether
    /// anything changed and tabs are left to draw. `None` where no tab is
    /// active: then nothing changes.
    pub fn on_tab_update(&mut self, tabs: Vec<TabInfo>) -> (r: Option<bool>)
        ensures
            match first_active(tabs@) {
                Some(i) => {
                    &&& r == Some(
                        (old(self).active_tab_idx != i + 1 || !same_tabs(old(self).tabs@, tabs@))
                            && tabs@.len() > 0,
                    )
                    &&& final(self).active_tab_idx == i + 1
                    &&& final(self).tabs@ == tabs@
                },
                None => r is None && *final(self) == *old(self),
            },
            final(self).tab_line@ == old(self).tab_line@,
            final(self).replace_pane == old(self).replace_pane,
            final(self).permissions_granted == old(self).permissions_granted,
            final(self).own_tab_position == old(self).own_tab_position,
            final(self).panes == old(self).panes,
            final(self).badge_command == old(self).badge_command,
            final(self).hide_swap_layout_indication == old(self).hide_swap_layout_indication,
    {
        let mut k: usize = 0;
        assert(tabs@.skip(0) =~= tabs@);
        while k < tabs.len()
            invariant
                k <= tabs@.len(),
                first_active(tabs@) == match first_active(tabs@.skip(k as int)) {
                    Some(i) => Some(i + k),
                    None => None,
                },
                *self == *old(self),
            decreases tabs@.len() - k,
        {
            assert(tabs@.skip(k as int).drop_first() =~= tabs@.skip(k + 1));
            if tabs[k].active {
                let active_tab_idx = k + 1;
                let changed = self.active_tab_idx != active_tab_idx || !tabs_equal(&self.tabs, &tabs);
                self.active_tab_idx = active_tab_idx;
                self.tabs = tabs;
                return Some(changed && self.tabs.len() > 0);
            }
            k = k + 1;
        }
        None
    }

    /// Whether an event that asked for a redraw gets one: only with tabs to draw.
    pub fn may_render(&self, should_render: bool) -> (r: bool)
        ensures
            r == (should_render && self.tabs@.len() > 0),
    {
        should_render && self.tabs.len() > 0
    }

    /// Takes a new pane manifest. Without the permissions granted it is
    /// ignored and nothing changes. Otherwise finds the tab that shows this
    /// bar (plugin `own_id`), and, where the pane to replace and this bar
    /// both show, forgets it and returns it to be replaced now.
    pub fn on_pane_update(&mut self, manifest: PaneManifest, own_id: u32) -> (r: Option<u32>)
        ensures
            !old(self).permissions_granted ==> r is None && *final(self) == *old(self),
            old(self).permissions_granted ==> {
                &&& final(self).own_tab_position == tab_showing(manifest.panes@, own_id)
                &&& final(self).panes == manifest
                &&& match old(self).replace_pane {
                    Some(target) => if shows_plugin(all_panes(manifest.panes@), own_id) && shows_plugin(
                        all_panes(manifest.panes@),
                        target,
                    ) {
                        r == Some(target) && final(self).replace_pane is None
                    } else {
                        r is None && final(self).replace_pane == old(self).replace_pane
                    },
                    None => r is None && final(self).replace_pane is None,
                }
            },
            final(self).tabs == old(self).tabs,
            final(self).active_tab_idx == old(self).active_tab_idx,
            final(self).tab_line == old(self).tab_line,
            final(self).permissions_granted == old(self).permissions_granted,
            final(self).badge_command == old(self).badge_command,
            final(self).hide_swap_layout_indication == old(self).hide_swap_layout_indication,
    {
        if !self.permissions_granted {
            return None;
        }
        self.own_tab_position = find_tab_showing(&manifest, own_id);
        let mut replaced: Option<u32> = None;
        match self.replace_pane {
            Some(target) => {
                if manifest_shows(&manifest, own_id) && manifest_shows(&manifest, target) {
                    self.replace_pane = None;
                    replaced = Some(target);
                }
            },
            None => {},
        }
        self.panes = manifest;
        replaced
    }

    /// The tab a scroll up switches to: the next one, at most the last.
    pub fn scroll_up_target(&self) -> (r: usize)
        ensures
            r == if self.active_tab_idx + 1 < self.tabs@.len() {
                self.active_tab_idx + 1
            } else {
                self.tabs@.len() as int
            },
    {
        let next = self.active_tab_idx.saturating_add(1);
        if next < self.tabs.len() {
            next
        } else {
            self.tabs.len()
        }
    }

    /// The tab a scroll down switches to: the previous one, at least the first.
    pub fn scroll_down_target(&self) -> (r: usize)
        ensures
            r == if self.active_tab_idx > 1 {
                self.active_tab_idx - 1
            } else {
                1
            },
    {
        let previous = self.active_tab_idx.saturating_sub(1);
        if previous > 1 {
            previous
        } else {
            1
        }
    }

    /// The first active tab at the bar's own position.
    fn own_tab(&self) -> (r: Option<&TabInfo>)
        ensures
            match r {
                Some(t) => own_active_tab(self.tabs@, self.own_tab_position) == Some(*t),
                None => own_active_tab(self.tabs@, self.own_tab_position) is None,
            },
    {
        let mut k: usize = 0;
        assert(self.tabs@.skip(0) =~= self.tabs@);
        while k < self.tabs.len()
            invariant
                k <= self.tabs@.len(),
                own_active_tab(self.tabs@, self.own_tab_position) == own_active_tab(
                    self.tabs@.skip(k as int),
                    self.own_tab_position,
                ),
            decreases self.tabs@.len() - k,
        {
            assert(self.tabs@.skip(k as int).drop_first() =~= self.tabs@.skip(k + 1));
            let t = &self.tabs[k];
            let at_own = match self.own_tab_position {
                Some(p) => p == t.position,
                None => false,
            };
            if t.active && at_own {
                return Some(t);
            }
            k = k + 1;
        }
        None
    }

    /// The command that a clear-done pipe message starts, if this bar handles
    /// it (see `clear_done_request`).
    pub fn clear_done_command(&self, message_name: &str, session_name: Option<&str>) -> (r: Option<Vec<String>>)
        ensures
            match r {
                Some(args) => clear_done_request(
                    *self,
                    message_name@,
                    match session_name {
                        Some(s) => Some(s@),
                        None => None,
                    },
                ) == Some(args@.map_values(|a: String| a@)),
                None => clear_done_request(
                    *self,
                    message_name@,
                    match session_name {
                        Some(s) => Some(s@),
                        None => None,
                    },
                ) is None,
            },
    {
        if !equal_chars(&chars_of(message_name), &chars_of("zellij_codex_clear_done")) || !self.permissions_granted {
            return None;
        }
        assert(message_name@ == clear_done_message());
        let tab = match self.own_tab() {
            Some(t) => t,
            None => return None,
        };
        let session = match session_name {
            Some(s) => s,
            None => return None,
        };
        let panes = self.panes.panes_in_tab(tab.position);
        let mut k: usize = 0;
        let floating = tab.are_floating_panes_visible;
        assert(panes@.skip(0) =~= panes@);
        while k < panes.len()
            invariant
                k <= panes@.len(),
                working_pane(panes@, floating) == working_pane(panes@.skip(k as int), floating),
                panes@ == panes_at(self.panes.panes@, tab.position),
                floating == tab.are_floating_panes_visible,
                own_active_tab(self.tabs@, self.own_tab_position) == Some(*tab),
                session_name == Some(session),
                message_name@ == clear_done_message(),
                self.permissions_granted,
            decreases panes@.len() - k,
        {
            assert(panes@.skip(k as int).drop_first() =~= panes@.skip(k + 1));
            let p = &panes[k];
            if p.is_focused && !p.is_plugin && !p.is_suppressed && p.is_floating == floating {
                let pane_id = string_of(decimal_chars(p.id as u64).as_slice());
                let mut command: Vec<String> = Vec::new();
                match &self.badge_command {
                    Some(c) => command.push(c.clone()),
                    None => {
                        command.push(String::from_str("/bin/sh"));
                        command.push(String::from_str("-c"));
                        command.push(String::from_str("exec \"$HOME/.local/bin/zellij-codex-badges\" \"$@\""));
                        command.push(String::from_str("zellij-codex-clear-done"));
                    },
                }
                command.push(String::from_str("--session"));
                command.push(String::from_str(session));
                command.push(String::from_str("--clear-done"));
                command.push(String::from_str("--pane-id"));
                command.push(pane_id);
                assert(command@.map_values(|a: String| a@) =~= clear_done_args(
                    opt_chars(self.badge_command),
                    session@,
                    p.id,
                ));
                return Some(command);
            }
            k = k + 1;
        }
        None
    }

    /// Styles every tab for the tab line, every other one alternate, with
    /// "Enter name..." on the active tab while it is renamed without a name;
    /// and the position of the (last) active tab, or 0.
    pub fn style_tabs(&self, renaming: bool, palette: Styling, capabilities: PluginCapabilities) -> (r: (
        Vec<LinePart>,
        usize,
    ))
        ensures
            r.0@.len() == self.tabs@.len(),
            forall|i: int|
                0 <= i < self.tabs@.len() ==> styled_as(
                    #[trigger] r.0@[i],
                    self.tabs@[i],
                    i,
                    renaming,
                    palette,
                    capabilities,
                ),
            r.1 == last_active_position(self.tabs@),
    {
        let mut all_tabs: Vec<LinePart> = Vec::new();
        let mut active_tab_index: usize = 0;
        let mut is_alternate_tab = false;
        let mut k: usize = 0;
        assert(self.tabs@.take(0) =~= Seq::<TabInfo>::empty());
        while k < self.tabs.len()
            invariant
                k <= self.tabs@.len(),
                all_tabs@.len() == k,
                is_alternate_tab == (k % 2 == 1),
                active_tab_index == last_active_position(self.tabs@.take(k as int)),
                forall|i: int|
                    0 <= i < k ==> styled_as(
                        #[trigger] all_tabs@[i],
                        self.tabs@[i],
                        i,
                        renaming,
                        palette,
                        capabilities,
                    ),
            decreases self.tabs@.len() - k,
        {
            let t = &self.tabs[k];
            assert(self.tabs@.take(k + 1).drop_last() =~= self.tabs@.take(k as int));
            assert(self.tabs@.take(k + 1).last() == self.tabs@[k as int]);
            let mut tabname = t.name.clone();
            if t.active && renaming {
                if tabname.unicode_len() == 0 {
                    tabname = String::from_str("Enter name...");
                }
                active_tab_index = t.position;
            } else if t.active {
                active_tab_index = t.position;
            }
            let tab = tab_style(tabname, t, is_alternate_tab, palette, capabilities);
            all_tabs.push(tab);
            is_alternate_tab = !is_alternate_tab;
            k = k + 1;
        }
        assert(self.tabs@.take(self.tabs@.len() as int) =~= self.tabs@);
        (all_tabs, active_tab_index)
    }

    /// The text the bar prints: the parts of its tab line, then the code that
    /// fills the rest of the line with `background`.
    pub fn line_output(&self, background: PaletteColor) -> (r: String)
        ensures
            r@ == line_text(self.tab_line@) + fill_code(background),
    {
        let mut out: Vec<char> = Vec::new();
        let mut k: usize = 0;
        assert(self.tab_line@.take(0) =~= Seq::<LinePart>::empty());
        while k < self.tab_line.len()
            invariant
                k <= self.tab_line@.len(),
                out@ == line_text(self.tab_line@.take(k as int)),
            decreases self.tab_line@.len() - k,
        {
            assert(self.tab_line@.take(k + 1).drop_last() =~= self.tab_line@.take(k as int));
            push_str(&mut out, self.tab_line[k].part.as_str());
            k = k + 1;
        }
        assert(self.tab_line@.take(self.tab_line@.len() as int) =~= self.tab_line@);
        let ghost text = out@;
        match background {
            PaletteColor::Rgb(r, g, b) => {
                push_str(&mut out, "\u{1b}[48;2;");
                push_chars(&mut out, &decimal_chars(r as u64));
                push_str(&mut out, ";");
                push_chars(&mut out, &decimal_chars(g as u64));
                push_str(&mut out, ";");
                push_chars(&mut out, &decimal_chars(b as u64));
                push_str(&mut out, "m\u{1b}[0K");
            },
            PaletteColor::EightBit(c) => {
                push_str(&mut out, "\u{1b}[48;5;");
                push_chars(&mut out, &decimal_chars(c as u64));
                push_str(&mut out, "m\u{1b}[0K");
            },
        }
        assert(out@ =~= text + fill_code(background));
        string_of(out.as_slice())
    }
}

/// The first active tab at the bar's own position is active and at that position.
proof fn lemma_own_active_tab(tabs: Seq<TabInfo>, own: Option<usize>)
    ensures
        own_active_tab(tabs, own) matches Some(t) ==> exists|k: int|
            0 <= k < tabs.len() && tabs[k] == t && t.active && own == Some(t.position),
    decreases tabs.len(),
{
    if tabs.len() > 0 && !(tabs[0].active && own == Some(tabs[0].position)) {
        lemma_own_active_tab(tabs.drop_first(), own);
        if own_active_tab(tabs, own) is Some {
            let t = own_active_tab(tabs, own)->0;
            let k = choose|k: int| 0 <= k < tabs.drop_first().len() && tabs.drop_first()[k] == t && t.active && own == Some(t.position);
            assert(tabs[k + 1] == t);
        }
    } else if tabs.len() > 0 {
        assert(tabs[0] == tabs[0]);
    }
}

/// The first pane the user works in is one of the panes, and one the user works in.
proof fn lemma_working_pane(panes: Seq<PaneInfo>, floating: bool)
    ensures
        working_pane(panes, floating) matches Some(p) ==> exists|k: int|
            0 <= k < panes.len() && panes[k] == p && p.is_focused && !p.is_plugin && !p.is_suppressed && p.is_floating == floating,
    decreases panes.len(),
{
    if panes.len() > 0 && !is_working_pane(panes[0], floating) {
        lemma_working_pane(panes.drop_first(), floating);
        if working_pane(panes, floating) is Some {
            let p = working_pane(panes, floating)->0;
            let k = choose|k: int| 0 <= k < panes.drop_first().len() && panes.drop_first()[k] == p && p.is_focused && !p.is_plugin && !p.is_suppressed && p.is_floating == floating;
            assert(panes[k + 1] == p);
        }
    } else if panes.len() > 0 {
        assert(panes[0] == panes[0]);
    }
}

/// A bar starts the clear-done command only for the tab the user is on: a
/// tab at the bar's own position that is active; and only for a focused,
/// shown terminal pane of that tab, which the command names last.
pub proof fn law_only_the_current_tab_clears(bar: TabBar, name: Seq<char>, session: Option<Seq<char>>)
    ensures
        clear_done_request(bar, name, session) matches Some(args) ==> exists|k: int, m: int|
            #![trigger bar.tabs@[k], panes_at(bar.panes.panes@, bar.tabs@[k].position)[m]]
            0 <= k < bar.tabs@.len() && bar.tabs@[k].active && bar.own_tab_position == Some(bar.tabs@[k].position)
                && 0 <= m < panes_at(bar.panes.panes@, bar.tabs@[k].position).len() && ({
                let p = panes_at(bar.panes.panes@, bar.tabs@[k].position)[m];
                &&& p.is_focused
                &&& !p.is_plugin
                &&& !p.is_suppressed
                &&& args.last() == decimal(p.id as nat)
            }),
        clear_done_request(bar, name, session) matches Some(args) ==> {
            &&& bar.permissions_granted
            &&& name == "zellij_codex_clear_done"@
            &&& session is Some
            &&& args.len() >= 5
            &&& args[args.len() - 5] == "--session"@
            &&& args[args.len() - 4] == session->0
            &&& args[args.len() - 3] == "--clear-done"@
            &&& args[args.len() - 2] == "--pane-id"@
        },
{
    lemma_own_active_tab(bar.tabs@, bar.own_tab_position);
    if clear_done_request(bar, name, session) is Some {
        let t = own_active_tab(bar.tabs@, bar.own_tab_position)->0;
        let k = choose|k: int| 0 <= k < bar.tabs@.len() && bar.tabs@[k] == t && t.active && bar.own_tab_position == Some(t.position);
        let panes = panes_at(bar.panes.panes@, t.position);
        lemma_working_pane(panes, t.are_floating_panes_visible);
        let p = working_pane(panes, t.are_floating_panes_visible)->0;
        let m = choose|m: int| 0 <= m < panes.len() && panes[m] == p && p.is_focused && !p.is_plugin && !p.is_suppressed && p.is_floating == t.are_floating_panes_visible;
        let args = clear_done_request(bar, name, session)->0;
        assert(args.last() == decimal(p.id as nat));
        assert(bar.tabs@[k] == t);
        assert(panes_at(bar.panes.panes@, bar.tabs@[k].position)[m] == p);
    }
}

} // verus!
