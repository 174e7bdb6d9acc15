use unicode_width::UnicodeWidthStr;
use zellij_codex::agents::AgentReport;
use zellij_codex::bar::{keybind_step, KeybindStep, TabBar};
use zellij_codex::dashboard::{App, PaneId};
use zellij_codex::detect::is_codex_command;
use zellij_codex::events::addressed_to;
use zellij_codex::model::{PaneInfo, PaneManifest, TabInfo};
use zellij_codex::overlay::{FloatingPaneState, PaneRectangle, PendingFloatingPaneSuppression};
use zellij_codex::status::Status;
use zellij_codex::sync::{pipe_kind, PipeKind};
use zellij_codex::tabbar::{
    client_id_to_colors, cursors, render_tab, tab_style, MultiplayerColors, PaletteColor,
    PluginCapabilities, StyleDeclaration, Styling,
};
use zellij_codex::text::truncate;

fn declaration(base: u8, e1: u8, e3: u8, background: u8) -> StyleDeclaration {
    StyleDeclaration {
        base: PaletteColor::EightBit(base),
        background: PaletteColor::EightBit(background),
        emphasis_0: PaletteColor::EightBit(1),
        emphasis_1: PaletteColor::EightBit(e1),
        emphasis_2: PaletteColor::EightBit(2),
        emphasis_3: PaletteColor::EightBit(e3),
    }
}

fn styling() -> Styling {
    Styling {
        text_unselected: declaration(245, 51, 201, 238),
        ribbon_unselected: declaration(16, 255, 201, 238),
        multiplayer_user_colors: MultiplayerColors {
            player_1: PaletteColor::EightBit(201),
            player_2: PaletteColor::EightBit(45),
            player_3: PaletteColor::EightBit(99),
            player_4: PaletteColor::EightBit(226),
            player_5: PaletteColor::EightBit(51),
            player_6: PaletteColor::EightBit(136),
            player_7: PaletteColor::EightBit(124),
            player_8: PaletteColor::EightBit(245),
            player_9: PaletteColor::EightBit(207),
            player_10: PaletteColor::Rgb(1, 2, 3),
        },
    }
}

#[test]
fn statuses_have_words_and_symbols() {
    assert_eq!(Status::Running.label(), "running");
    assert_eq!(Status::Paused.label(), "paused");
    assert_eq!(Status::Input.symbol(), "!");
    assert_eq!(Status::Stuck.symbol(), "✕");
    assert_eq!(Status::Error.symbol(), "✕");
    assert_eq!(Status::Done.symbol(), "✓");
}

#[test]
fn truncation_counts_characters_and_marks_the_cut() {
    assert_eq!(truncate("", 3), "");
    assert_eq!(truncate("abcd", 1), "a");
    assert_eq!(truncate("abcd", 0), "");
    assert_eq!(truncate("日本語テキスト", 4), "日本語…");
    assert_eq!(truncate("  a \u{2003} b  ", 10), "a b");
}

#[test]
fn commands_are_read_by_their_program_names() {
    assert!(is_codex_command(&["/opt/codex.js".to_string()]));
    assert!(is_codex_command(&["sh -c 'exec codex'".to_string()]));
    assert!(!is_codex_command(&["codex-helper".to_string()]));
    assert!(!is_codex_command(&[]));
}

#[test]
fn pipe_messages_are_told_apart_by_name() {
    assert_eq!(pipe_kind("codex_status"), PipeKind::StatusReport);
    assert_eq!(pipe_kind("show_dashboard"), PipeKind::ShowDashboard);
    assert_eq!(pipe_kind("sync_agents"), PipeKind::SyncAgents);
    assert_eq!(pipe_kind("agent_snapshot"), PipeKind::AgentSnapshot);
    assert_eq!(pipe_kind("stop_dashboard"), PipeKind::StopDashboard);
    assert_eq!(pipe_kind("list_agents"), PipeKind::ListAgents);
    assert_eq!(pipe_kind("codex_statuses"), PipeKind::Other);
}

#[test]
fn messages_are_addressed_by_client_number() {
    assert!(addressed_to(Some("3"), 3));
    assert!(!addressed_to(Some("03"), 3));
    assert!(!addressed_to(None, 3));
}

#[test]
fn configuration_reads_numbers_and_roles() {
    let mut app = App::default();
    app.load_configuration(7, Some("monitor".to_string()), Some("12".to_string()));
    assert!(app.is_monitor);
    assert_eq!(app.status_source, Some(7));
    assert_eq!(app.dashboard_tab_id, Some(12));
    assert!(app.dashboard_named);
    assert!(!app.dashboard_visible);
    let mut other = App::default();
    other.load_configuration(8, Some("dashboard".to_string()), Some("x".to_string()));
    assert!(!other.is_monitor);
    assert_eq!(other.dashboard_tab_id, None);
    assert!(other.dashboard_visible);
    assert_eq!(other.take_status_source(Some("+41")), Some(41));
    assert_eq!(other.status_source, Some(41));
    assert_eq!(other.take_status_source(Some("4294967296")), None);
    assert_eq!(other.status_source, Some(41));
}

#[test]
fn an_invalid_report_becomes_the_error() {
    let mut app = App::default();
    assert!(app.receive_parsed_report(None, "x".to_string(), Err("expected value".to_string())));
    assert_eq!(app.error.as_deref(), Some("invalid status report: expected value"));
    let lines = app.dashboard_lines();
    assert_eq!(lines[0], "\u{1b}[91m✕ invalid status report: expected value\u{1b}[0m");
}

#[test]
fn the_dashboard_lists_agents_or_waits() {
    let mut app = App::default();
    let lines = app.dashboard_lines();
    assert_eq!(lines, vec!["Waiting for a Codex status report…", "r: refresh agents · Esc: hide dashboard"]);
    app.tabs = vec![TabInfo { tab_id: 3, position: 0, name: "work".to_string(), ..Default::default() }];
    app.apply_report(AgentReport {
        id: "a".to_string(),
        agent: "codex".to_string(),
        status: Status::Running,
        task: "Fix".to_string(),
        worktree: "tree".to_string(),
        pane_id: Some(4),
        tab_id: Some(3),
        tab_position: None,
        remove: false,
    });
    let lines = app.dashboard_lines();
    assert_eq!(lines.len(), 4);
    assert_eq!(
        lines[1],
        format!("{:<20}  {:<20}  {:<18}  \u{1b}[32m● {:<9}\u{1b}[0m  Fix", "work", "tree", "codex (p4)", "running")
    );
    assert_eq!(lines[2], "");
}

#[test]
fn sync_requests_are_answered_by_the_owner_only() {
    let mut owner = App::default();
    owner.published_peers.insert(5);
    assert!(owner.accept_sync_request(Some(5)));
    assert!(owner.status_observers.contains(5));
    assert!(!owner.published_peers.contains(5));
    let mut dashboard = App { plugin_id: Some(2), ..Default::default() };
    assert!(!dashboard.accept_sync_request(Some(5)));
    assert!(!dashboard.status_observers.contains(5));
}

#[test]
fn timers_take_what_is_due() {
    let mut app = App::default();
    app.load_configuration(1, None, None);
    assert!(app.take_bootstrap());
    assert!(!app.take_bootstrap());
    assert!(app.needs_session());
    assert!(app.retry_bootstrap());
    assert!(app.take_bootstrap());
    assert!(!app.take_checkpoint());
    assert!(app.schedule_checkpoint());
    assert!(!app.schedule_checkpoint());
    assert!(app.take_checkpoint());
    assert!(!app.redraws(true) || app.dashboard_visible);
}

fn floating(id: u32, tab_id: Option<usize>) -> FloatingPaneState {
    FloatingPaneState {
        pane_id: PaneId::Terminal(id),
        tab_id,
        rectangle: PaneRectangle { x: 1, y: 2, width: 3, height: 4 },
    }
}

#[test]
fn closing_the_dashboard_restores_what_it_hid() {
    let mut app = App::default();
    assert!(app.open_overlay(Some(floating(1, Some(4))), true, 2, Some(4), vec![]));
    assert_eq!(
        app.pending_floating_pane_suppression,
        Some(PendingFloatingPaneSuppression { tab_position: 2, tab_id: Some(4) })
    );
    app.suppress_floating_panes(vec![floating(5, Some(9)), floating(6, None), floating(7, Some(4)), floating(8, Some(9))]);
    let restoration = app.close_overlay();
    assert_eq!(restoration.visible_floating_pane, Some(floating(1, Some(4))));
    assert_eq!(restoration.shown_panes.len(), 4);
    assert_eq!(restoration.tabs_to_hide, vec![None, Some(4), Some(9)]);
    assert!(!app.dashboard_visible);
    assert!(app.suppressed_floating_panes.is_empty());
    assert!(app.pending_floating_pane_suppression.is_none());
    assert!(!app.open_overlay(None, false, 0, None, vec![floating(2, None)]));
    assert!(app.pending_floating_pane_suppression.is_none());
    app.restore_failed("gone");
    assert_eq!(app.error.as_deref(), Some("could not restore the workbench view: gone"));
    app.focus_unknown();
    assert_eq!(app.error.as_deref(), Some("could not determine the focused Zellij pane"));
}

#[test]
fn cursors_mark_the_ten_player_colors() {
    let colors = styling().multiplayer_user_colors;
    assert_eq!(client_id_to_colors(10, colors), Some((PaletteColor::Rgb(1, 2, 3), PaletteColor::EightBit(16))));
    assert_eq!(client_id_to_colors(0, colors), None);
    assert_eq!(client_id_to_colors(11, colors), None);
    let (marks, len) = cursors(&[1, 11, 2], colors);
    assert_eq!(len, 2);
    assert_eq!(marks.len(), 2);
    assert_eq!(marks[0].0.background, PaletteColor::EightBit(201));
    assert_eq!(marks[0].0.foreground, PaletteColor::EightBit(16));
}

#[test]
fn a_tab_counts_its_columns() {
    let tab = TabInfo { other_focused_clients: vec![1, 2, 12], ..Default::default() };
    let rendered = render_tab("日本".to_string(), &tab, false, styling(), "\u{e0b0}");
    // name 4 + two separators + two blanks + two cursors and their brackets
    assert_eq!(rendered.len, 4 + 2 * "\u{e0b0}".width() + 2 + 2 + 2);
    assert!(rendered.part.contains('['));
    assert!(rendered.part.contains("日本 "));
    assert_eq!(rendered.tab_index, Some(0));
}

#[test]
fn tab_states_are_added_to_the_name() {
    let tab = TabInfo { is_fullscreen_active: true, is_sync_panes_active: true, has_bell_notification: true, position: 1, ..Default::default() };
    let arrows = PluginCapabilities { arrow_fonts: false };
    let rendered = tab_style("one".to_string(), &tab, true, styling(), arrows);
    assert!(rendered.part.contains("one (FULLSCREEN) [!] "));
    assert!(!rendered.part.contains("(SYNC)"));
    assert!(rendered.part.contains('\u{e0b0}'));
    assert_eq!(rendered.len, "one (FULLSCREEN) [!]".len() + 2 * "\u{e0b0}".width() + 2);
    let plain = PluginCapabilities { arrow_fonts: true };
    let sync = TabInfo { is_sync_panes_active: true, ..Default::default() };
    let rendered = tab_style("two".to_string(), &sync, true, styling(), plain);
    assert!(rendered.part.contains("two (SYNC) "));
    assert!(!rendered.part.contains('\u{e0b0}'));
    // Alternate tabs take the first emphasis only without arrows.
    assert!(rendered.part.contains("48;5;255"));
}

fn bar_with_tabs() -> TabBar {
    let mut bar = TabBar::default();
    bar.permissions_granted = true;
    let tabs = vec![
        TabInfo { position: 0, name: "a".to_string(), ..Default::default() },
        TabInfo { position: 1, name: String::new(), active: true, ..Default::default() },
        TabInfo { position: 2, name: "c".to_string(), ..Default::default() },
    ];
    assert_eq!(bar.on_tab_update(tabs), Some(true));
    bar
}

#[test]
fn the_tab_bar_follows_the_active_tab() {
    let mut bar = bar_with_tabs();
    assert_eq!(bar.active_tab_idx, 2);
    assert_eq!(bar.scroll_up_target(), 3);
    assert_eq!(bar.scroll_down_target(), 1);
    let same = vec![
        TabInfo { position: 0, name: "a".to_string(), ..Default::default() },
        TabInfo { position: 1, name: String::new(), active: true, ..Default::default() },
        TabInfo { position: 2, name: "c".to_string(), ..Default::default() },
    ];
    assert_eq!(bar.on_tab_update(same), Some(false));
    assert_eq!(bar.on_tab_update(vec![TabInfo::default()]), None);
    assert_eq!(bar.tabs.len(), 3);
    assert!(!TabBar::default().may_render(true));
    assert!(bar.may_render(true));
    let (parts, active) = bar.style_tabs(true, styling(), PluginCapabilities { arrow_fonts: false });
    assert_eq!(parts.len(), 3);
    assert_eq!(active, 1);
    assert!(parts[1].part.contains("Enter name..."));
    assert_eq!(parts[2].tab_index, Some(2));
}

#[test]
fn the_tab_bar_takes_its_configuration() {
    let mut bar = TabBar::default();
    bar.configure(Some("17"), Some("clear-badges".to_string()), Some("true"));
    assert_eq!(bar.replace_pane, Some(17));
    assert_eq!(bar.badge_command.as_deref(), Some("clear-badges"));
    assert!(bar.hide_swap_layout_indication);
    bar.configure(Some("x"), None, Some("yes"));
    assert_eq!(bar.replace_pane, None);
    assert!(!bar.hide_swap_layout_indication);
}

fn plugin(id: u32) -> PaneInfo {
    PaneInfo { id, is_plugin: true, ..Default::default() }
}

#[test]
fn the_tab_bar_replaces_its_pane_once_both_show() {
    let mut bar = TabBar::default();
    bar.configure(Some("9"), None, None);
    let both_early = PaneManifest { panes: vec![(0, vec![plugin(9)]), (4, vec![plugin(3)])] };
    // Without the permissions the update is ignored.
    assert_eq!(bar.on_pane_update(both_early, 3), None);
    assert_eq!(bar.own_tab_position, None);
    assert_eq!(bar.replace_pane, Some(9));
    bar.permissions_granted = true;
    let only_own = PaneManifest { panes: vec![(0, vec![plugin(3)])] };
    assert_eq!(bar.on_pane_update(only_own, 3), None);
    assert_eq!(bar.own_tab_position, Some(0));
    assert_eq!(bar.replace_pane, Some(9));
    let both = PaneManifest { panes: vec![(0, vec![plugin(9)]), (4, vec![plugin(3)])] };
    assert_eq!(bar.on_pane_update(both, 3), Some(9));
    assert_eq!(bar.own_tab_position, Some(4));
    assert_eq!(bar.replace_pane, None);
}

fn clear_done_bar(badge_command: Option<&str>) -> TabBar {
    let mut bar = TabBar::default();
    bar.permissions_granted = true;
    bar.badge_command = badge_command.map(str::to_string);
    bar.tabs = vec![TabInfo { position: 1, active: true, ..Default::default() }];
    bar.on_pane_update(
        PaneManifest {
            panes: vec![(
                1,
                vec![plugin(3), PaneInfo { id: 12, is_focused: true, is_floating: true, ..Default::default() }, PaneInfo { id: 42, is_focused: true, ..Default::default() }],
            )],
        },
        3,
    );
    bar
}

#[test]
fn clearing_done_names_the_focused_pane() {
    let bar = clear_done_bar(None);
    let command = bar.clear_done_command("zellij_codex_clear_done", Some("work")).unwrap();
    assert_eq!(
        command,
        vec![
            "/bin/sh",
            "-c",
            "exec \"$HOME/.local/bin/zellij-codex-badges\" \"$@\"",
            "zellij-codex-clear-done",
            "--session",
            "work",
            "--clear-done",
            "--pane-id",
            "42",
        ]
    );
    let custom = clear_done_bar(Some("badges"));
    assert_eq!(
        custom.clear_done_command("zellij_codex_clear_done", Some("s")).unwrap(),
        vec!["badges", "--session", "s", "--clear-done", "--pane-id", "42"]
    );
    assert!(bar.clear_done_command("other", Some("work")).is_none());
    assert!(bar.clear_done_command("zellij_codex_clear_done", None).is_none());
    let mut locked = clear_done_bar(None);
    locked.permissions_granted = false;
    assert!(locked.clear_done_command("zellij_codex_clear_done", Some("work")).is_none());
    let mut elsewhere = clear_done_bar(None);
    elsewhere.own_tab_position = Some(0);
    assert!(elsewhere.clear_done_command("zellij_codex_clear_done", Some("work")).is_none());
}

#[test]
fn the_line_ends_with_the_background_fill() {
    let mut bar = TabBar::default();
    bar.tab_line = vec![
        zellij_codex::tabbar::LinePart { part: "ab".to_string(), len: 2, tab_index: None },
        zellij_codex::tabbar::LinePart { part: "c".to_string(), len: 1, tab_index: None },
    ];
    assert_eq!(bar.line_output(PaletteColor::Rgb(1, 20, 255)), "abc\u{1b}[48;2;1;20;255m\u{1b}[0K");
    assert_eq!(bar.line_output(PaletteColor::EightBit(238)), "abc\u{1b}[48;5;238m\u{1b}[0K");
}


#[test]
fn a_separator_is_painted_with_its_colours() {
    let tab = TabInfo { position: 0, ..Default::default() };
    let rendered = tab_style("x".to_string(), &tab, false, styling(), PluginCapabilities { arrow_fonts: false });
    // fill colour on the tab's background, then the reset code
    assert!(rendered.part.starts_with("\u{1b}[48;5;238;38;5;238m\u{e0b0}\u{1b}[0m"));
    assert!(rendered.part.ends_with("\u{1b}[48;5;238;38;5;238m\u{e0b0}\u{1b}[0m"));
}

#[test]
fn numbers_are_read_as_std_reads_them() {
    let mut bar = TabBar::default();
    for (text, want) in [("7", Some(7)), ("+7", Some(7)), ("007", Some(7)), ("-7", None), ("+", None), ("", None), (" 7", None), ("7a", None)] {
        bar.configure(Some(text), None, None);
        assert_eq!(bar.replace_pane, want, "{text}");
    }
}

#[test]
fn program_names_are_read_from_paths() {
    assert!(is_codex_command(&["./codex".to_string()]));
    assert!(is_codex_command(&["/usr/bin/codex/".to_string()]));
    assert!(!is_codex_command(&["codex/..".to_string()]));
    assert!(!is_codex_command(&["/".to_string()]));
}

#[test]
fn a_tab_update_that_changes_only_layout_details_is_a_change() {
    let mut bar = bar_with_tabs();
    let mut tabs = vec![
        TabInfo { position: 0, name: "a".to_string(), ..Default::default() },
        TabInfo { position: 1, name: String::new(), active: true, ..Default::default() },
        TabInfo { position: 2, name: "c".to_string(), ..Default::default() },
    ];
    tabs[0].active_swap_layout_name = Some("vertical".to_string());
    assert_eq!(bar.on_tab_update(tabs), Some(true));
    let mut resized = vec![
        TabInfo { position: 0, name: "a".to_string(), active_swap_layout_name: Some("vertical".to_string()), ..Default::default() },
        TabInfo { position: 1, name: String::new(), active: true, ..Default::default() },
        TabInfo { position: 2, name: "c".to_string(), ..Default::default() },
    ];
    resized[2].viewport_rows = 40;
    resized[2].panes_to_hide = 1;
    assert_eq!(bar.on_tab_update(resized), Some(true));

    let mut app = App::default();
    app.tabs = vec![TabInfo { tab_id: 3, position: 0, active: true, ..Default::default() }];
    let dirty = vec![TabInfo { tab_id: 3, position: 0, active: true, is_swap_layout_dirty: true, ..Default::default() }];
    assert_eq!(app.update_tabs(dirty), (true, false));
    let same = vec![TabInfo { tab_id: 3, position: 0, active: true, is_swap_layout_dirty: true, ..Default::default() }];
    assert_eq!(app.update_tabs(same), (false, false));
    let counted = vec![TabInfo {
        tab_id: 3,
        position: 0,
        active: true,
        is_swap_layout_dirty: true,
        selectable_floating_panes_count: 2,
        ..Default::default()
    }];
    assert_eq!(app.update_tabs(counted), (true, false));
}

#[test]
fn a_mode_update_without_key_bindings_takes_the_remembered_ones() {
    assert_eq!(keybind_step(true, false), KeybindStep::UseRemembered);
    assert_eq!(keybind_step(false, false), KeybindStep::Remember);
    assert_eq!(keybind_step(false, true), KeybindStep::Remember);
    assert_eq!(keybind_step(true, true), KeybindStep::Keep);
}
