use zellij_codex::agents::AgentReport;
use zellij_codex::dashboard::{AgentSnapshot, App, PaneId, PipeReport};
use zellij_codex::detect::{codex_activity, is_codex_command};
use zellij_codex::idset::IdSet;
use zellij_codex::model::{PaneInfo, PaneManifest, PluginInfo, TabInfo};
use zellij_codex::overlay::{floating_pane_candidates, pane_rectangle, PaneRectangle};
use zellij_codex::status::Status;
use zellij_codex::sync::{monitor_source, ReportRoute};
use zellij_codex::agents::AgentTable;

fn report(
    id: &str,
    agent: &str,
    status: Status,
    task: &str,
    worktree: &str,
    pane_id: Option<u32>,
    tab_id: Option<usize>,
    tab_position: Option<usize>,
    remove: bool,
) -> AgentReport {
    AgentReport {
        id: id.to_string(),
        agent: agent.to_string(),
        status,
        task: task.to_string(),
        worktree: worktree.to_string(),
        pane_id,
        tab_id,
        tab_position,
        remove,
    }
}

fn ids(values: &[u32]) -> IdSet {
    let mut set = IdSet::new();
    for v in values {
        set.insert(*v);
    }
    set
}

#[test]
fn dashboards_share_status_without_reinterpreting_the_current_tab() {
    let mut owner = App {
        plugin_id: Some(4),
        status_source: Some(4),
        is_monitor: true,
        ..Default::default()
    };
    let mut dashboard = App {
        plugin_id: Some(7),
        status_source: Some(4),
        ..Default::default()
    };
    for status in [Status::Running, Status::Done, Status::Idle] {
        owner.apply_report(report("agent", "codex", status, "", "", Some(12), Some(2), Some(0), false));
        let snapshot = AgentSnapshot { agents: owner.agents.duplicate(), error: None };
        assert!(dashboard.accept_snapshot(4, AgentSnapshot { agents: snapshot.agents.duplicate(), error: None }));
        assert!(!dashboard.accept_snapshot(99, AgentSnapshot { agents: AgentTable::new(), error: None }));
        dashboard.update_tabs(vec![TabInfo {
            tab_id: 2,
            position: 0,
            active: true,
            ..Default::default()
        }]);
        assert!(!dashboard.refresh_current_view());
        dashboard.observe_render_report(vec![(12, vec!["• Working (esc to interrupt)".to_string()])]);
        assert!(dashboard.agents.same_as(&owner.agents));
        assert!(!owner.accept_snapshot(7, snapshot));
    }
}

#[test]
fn relayed_duplicates_do_not_restore_an_older_status() {
    let mut app = App {
        plugin_id: Some(4),
        ..Default::default()
    };
    let running_payload = r#"{"id":"agent","agent":"codex","status":"running"}"#.to_string();
    let running = report("agent", "codex", Status::Running, "", "", None, None, None, false);
    // Before the status source is known, a private report waits.
    assert_eq!(app.route_report(true), ReportRoute::Hold);
    app.is_monitor = true;
    app.update_session(vec![(
        4,
        PluginInfo {
            location: "file:codex.wasm".to_string(),
            role: Some("monitor".to_string()),
        },
    )]);
    assert_eq!(app.route_report(true), ReportRoute::Apply);
    assert!(app.receive_parsed_report(Some("first-report".to_string()), running_payload.clone(), Ok(running.duplicate())));
    app.publish_agents();
    assert_eq!(app.agents.get("agent").unwrap().status, Status::Running);
    assert!(app.receive_parsed_report(
        Some("second-report".to_string()),
        r#"{"id":"agent","agent":"codex","status":"done"}"#.to_string(),
        Ok(report("agent", "codex", Status::Done, "", "", None, None, None, false)),
    ));
    // The same report relayed by another instance keeps its origin pipe.
    assert!(!app.receive_parsed_report(Some("first-report".to_string()), running_payload, Ok(running)));
    assert_eq!(app.agents.get("agent").unwrap().status, Status::Done);
}

#[test]
fn status_owner_is_the_background_monitor() {
    let url = "file:codex.wasm";
    let mut plugins = vec![
        (4, PluginInfo { location: url.to_string(), role: None }),
        (7, PluginInfo { location: url.to_string(), role: Some("monitor".to_string()) }),
    ];
    assert_eq!(monitor_source(&plugins, url), Some(7));
    plugins.retain(|(id, _)| *id != 7);
    assert_eq!(monitor_source(&plugins, url), None);
}

fn tab(tab_id: usize, position: usize, name: &str) -> TabInfo {
    TabInfo {
        tab_id,
        position,
        name: name.to_string(),
        ..Default::default()
    }
}

#[test]
fn tab_names_follow_stable_ids_and_live_renames() {
    let mut app = App::default();
    app.tabs = vec![tab(7, 0, "source"), tab(8, 1, "other")];
    let report = report("thread-1", "codex", Status::Idle, "", "", None, Some(7), Some(1), false);
    assert_eq!(app.agent_tab_name(&report), "source");

    let mut tabs: Vec<TabInfo> = app.tabs.iter().map(|t| t.duplicate()).collect();
    tabs[0].name = "renamed".to_string();
    assert!(app.update_tabs(tabs).0);
    assert_eq!(app.agent_tab_name(&report), "renamed");

    app.tabs.remove(0);
    assert_eq!(app.agent_tab_name(&report), "—");
}

#[test]
fn tab_names_support_legacy_positions_and_unknown_locations() {
    let app = App {
        tabs: vec![tab(7, 2, "legacy")],
        ..Default::default()
    };
    let mut report = report("thread-1", "codex", Status::Idle, "", "", None, None, Some(2), false);
    assert_eq!(app.agent_tab_name(&report), "legacy");
    report.tab_position = None;
    assert_eq!(app.agent_tab_name(&report), "—");
}

fn launcher_manifest() -> PaneManifest {
    PaneManifest {
        panes: vec![(
            2,
            (0..64)
                .map(|id| PaneInfo {
                    id,
                    terminal_command: Some("zellij-codex-launch".to_string()),
                    is_focused: id == 0,
                    ..Default::default()
                })
                .collect(),
        )],
    }
}

#[test]
fn pane_updates_discover_agents_without_host_queries() {
    let mut app = App::default();
    app.tabs = vec![TabInfo {
        tab_id: 4,
        position: 2,
        name: "worktree".to_string(),
        active: true,
        ..Default::default()
    }];
    assert!(app.update_pane_manifest(launcher_manifest()));
    assert!(!app.update_pane_manifest(launcher_manifest()));
    assert_eq!(app.agents.len(), 64);
}

#[test]
fn recovers_activity_without_a_lifecycle_report() {
    let mut app = App::default();
    app.reconcile_discovered_panes(vec![(17, "coverage".to_string(), Some(4), 3)]);
    let running: Vec<String> = vec![
        "• Waiting for background terminal (6m • esc to interrupt)".to_string(),
        "  └ git status".to_string(),
        "› Ask Codex to do anything".to_string(),
        "gpt-6-astra low · ~/code/coverage".to_string(),
    ];
    assert!(app.observe_activity(17, &running));
    assert_eq!(app.agents.values()[0].status, Status::Running);
    assert!(!app.observe_activity(17, &["ordinary output".to_string()]));
    assert!(app.observe_activity(17, &running[2..]));
    assert_eq!(app.agents.values()[0].status, Status::Done);
    assert_eq!(codex_activity(&["quoted esc to interrupt".to_string()]), None);
}

#[test]
fn every_status_has_the_requested_color() {
    assert_eq!(Status::Running.ansi_color(), 32);
    assert_eq!(Status::Idle.ansi_color(), 90);
    assert_eq!(Status::Input.ansi_color(), 33);
    assert_eq!(Status::Stuck.ansi_color(), 31);
    assert_eq!(Status::Error.ansi_color(), 91);
    assert_eq!(Status::Done.ansi_color(), 34);
    assert_eq!(Status::Paused.ansi_color(), 35);
}

#[test]
fn reports_with_different_ids_coexist() {
    let mut app = App::default();
    for id in ["thread-1", "thread-2"] {
        app.agents.insert(report(id, "codex", Status::Idle, "", "demo", None, None, None, false));
    }
    assert_eq!(app.agents.len(), 2);
}

#[test]
fn a_removal_report_deletes_the_agent() {
    let mut app = App::default();
    let id = "quadratic-tiger:pane:12";
    app.agents.insert(report(id, "codex-12", Status::Done, "", "demo", Some(12), Some(3), Some(2), false));
    app.apply_report(report(id, "codex-12", Status::Done, "", "demo", Some(12), Some(3), Some(2), true));
    assert!(app.agents.is_empty());
}

#[test]
fn discovers_workbench_codex_commands() {
    assert!(is_codex_command(&[
        "node".to_string(),
        "/usr/bin/codex".to_string(),
        "--yolo".to_string(),
    ]));
    assert!(is_codex_command(&[
        "bash".to_string(),
        "if command -v zellij-codex-launch; then exec zellij-codex-launch --yolo; fi".to_string(),
    ]));
    assert!(!is_codex_command(&[
        "bash".to_string(),
        "-lc".to_string(),
        "nvim .".to_string(),
    ]));
}

#[test]
fn floating_candidates_include_manual_panes_and_stale_suppressed_panes() {
    let panes = vec![
        PaneInfo {
            id: 17,
            title: "[host] project / editor".to_string(),
            is_suppressed: true,
            ..PaneInfo::default()
        },
        PaneInfo {
            id: 18,
            title: "manual editor".to_string(),
            is_floating: true,
            ..PaneInfo::default()
        },
        PaneInfo {
            id: 19,
            is_plugin: true,
            is_floating: true,
            ..PaneInfo::default()
        },
        PaneInfo {
            id: 20,
            ..PaneInfo::default()
        },
        PaneInfo {
            id: 21,
            is_floating: true,
            exited: true,
            ..PaneInfo::default()
        },
    ];
    assert_eq!(
        floating_pane_candidates(&panes),
        vec![PaneId::Terminal(17), PaneId::Terminal(18), PaneId::Plugin(19)]
    );
}

#[test]
fn pane_rectangle_preserves_the_exact_geometry() {
    let pane = PaneInfo {
        pane_x: 0,
        pane_y: 1,
        pane_columns: 365,
        pane_rows: 91,
        ..PaneInfo::default()
    };
    assert_eq!(
        pane_rectangle(&pane),
        PaneRectangle { x: 0, y: 1, width: 365, height: 91 }
    );
}

#[test]
fn hook_reports_replace_discovery_and_closed_panes_are_removed() {
    let mut app = App::default();
    app.reconcile_discovered_panes(vec![(12, "demo".to_string(), Some(3), 2)]);
    app.apply_report(report(
        "quadratic-tiger:pane:12",
        "codex-12",
        Status::Running,
        "Implement pane discovery",
        "demo",
        Some(12),
        Some(3),
        Some(2),
        false,
    ));
    assert_eq!(app.agents.len(), 1);
    assert!(app.agents.contains_key("quadratic-tiger:pane:12"));

    app.apply_report(report("remote-agent", "remote-codex", Status::Done, "Remote result", "remote", None, None, None, false));
    assert!(!app.reconcile_live_panes(&ids(&[12])));

    assert!(app.reconcile_live_panes(&IdSet::new()));
    assert_eq!(app.agents.len(), 1);
    assert!(app.agents.contains_key("remote-agent"));
}

fn pruning_manifest() -> PaneManifest {
    PaneManifest {
        panes: vec![(
            2,
            vec![
                PaneInfo { id: 1, ..Default::default() },
                PaneInfo { id: 2, exited: true, ..Default::default() },
                PaneInfo {
                    id: 4,
                    terminal_command: Some("codex".to_string()),
                    ..Default::default()
                },
            ],
        )],
    }
}

#[test]
fn manifest_refresh_prunes_closed_agents_and_updates_surviving_locations() {
    let mut app = App::default();
    app.tabs = vec![tab(7, 2, "live")];
    for pane_id in [1u32, 2, 3] {
        let id = format!("agent-{pane_id}");
        app.apply_report(report(&id, "codex", Status::Running, "", "", Some(pane_id), Some(99), Some(8), false));
    }
    app.recovered_running_panes = ids(&[1, 2, 3]);
    assert!(app.update_pane_manifest(pruning_manifest()));
    assert_eq!(app.agents.len(), 2);
    let survivor = app.agents.get("agent-1").unwrap();
    assert_eq!(survivor.status, Status::Running);
    assert_eq!((survivor.tab_id, survivor.tab_position), (Some(7), Some(2)));
    assert!(app.agents.contains_key("discovered:pane:4"));
    assert!(app.recovered_running_panes.same_members(&ids(&[1])));
    assert!(!app.update_pane_manifest(pruning_manifest()));
}

#[test]
fn done_is_unread_until_the_codex_pane_is_observed() {
    let mut app = App::default();
    let first = report(
        "quadratic-tiger:pane:12",
        "codex-12",
        Status::Done,
        "Implemented the requested change",
        "demo",
        Some(12),
        Some(3),
        Some(2),
        false,
    );
    let other = report(
        "quadratic-tiger:pane:13",
        "codex-13",
        Status::Done,
        "Another completed result",
        "other",
        Some(13),
        Some(4),
        Some(3),
        false,
    );

    app.apply_report(first.duplicate());
    app.apply_report(other.duplicate());
    assert_eq!(app.agents.get(&first.id).unwrap().status, Status::Done);

    app.observe_focused_pane(PaneId::Terminal(7));
    assert_eq!(app.agents.get(&first.id).unwrap().status, Status::Done);

    app.observe_focused_pane(PaneId::Terminal(12));
    assert_eq!(app.agents.get(&first.id).unwrap().status, Status::Idle);
    assert_eq!(app.agents.get(&other.id).unwrap().status, Status::Done);

    app.focused_pane_id = None;
    app.apply_report(first.duplicate());
    app.observe_active_tab(Some(3), 2, &IdSet::new());
    assert_eq!(app.agents.get(&first.id).unwrap().status, Status::Idle);
    assert_eq!(app.agents.get(&other.id).unwrap().status, Status::Done);

    app.focused_pane_id = None;
    app.apply_report(first.duplicate());
    app.observe_active_tab(None, 2, &ids(&[12]));
    assert_eq!(app.agents.get(&first.id).unwrap().status, Status::Idle);
    assert_eq!(app.agents.get(&other.id).unwrap().status, Status::Done);
}

#[test]
fn truncates_unicode_without_splitting_characters() {
    assert_eq!(zellij_codex::text::truncate("abcdef", 4), "abc…");
    assert_eq!(zellij_codex::text::truncate("ação", 4), "ação");
}

#[test]
fn collapses_line_breaks_and_other_whitespace_before_rendering() {
    assert_eq!(
        zellij_codex::text::truncate("Investigate the\nagent\r\n  description\tbug", 80),
        "Investigate the agent description bug"
    );
}

#[test]
fn stopping_closes_the_other_instances_at_the_same_location() {
    let plugins = vec![
        (2, PluginInfo { location: "file:a.wasm".to_string(), role: None }),
        (4, PluginInfo { location: "file:b.wasm".to_string(), role: None }),
        (5, PluginInfo { location: "file:a.wasm".to_string(), role: Some("monitor".to_string()) }),
        (9, PluginInfo { location: "file:a.wasm".to_string(), role: None }),
    ];
    assert_eq!(zellij_codex::sync::peers_at_location(&plugins, 5), vec![2, 9]);
    assert!(zellij_codex::sync::peers_at_location(&plugins, 7).is_empty());
}

fn pipe_report(cli_pipe_id: Option<&str>, args: Vec<(&str, &str)>) -> PipeReport {
    PipeReport {
        is_private: true,
        cli_pipe_id: cli_pipe_id.map(str::to_string),
        args: args.into_iter().map(|(k, v)| (k.to_string(), v.to_string())).collect(),
        payload: Some("{}".to_string()),
    }
}

#[test]
fn held_reports_wait_for_the_status_source_and_keep_their_order() {
    let mut app = App::default();
    app.plugin_id = Some(3);
    assert_eq!(app.route_report(true), ReportRoute::Hold);
    app.hold_report(pipe_report(Some("first"), vec![]));
    app.hold_report(pipe_report(None, vec![("origin_pipe_id", "second")]));
    assert!(app.take_held_reports().is_empty());
    assert_eq!(app.pending_reports.len(), 2);
    app.status_source = Some(5);
    let taken = app.take_held_reports();
    assert_eq!(taken.len(), 2);
    assert_eq!(taken[0].origin(), Some("first".to_string()));
    assert_eq!(taken[1].origin(), Some("second".to_string()));
    assert!(app.pending_reports.is_empty());
    assert!(app.take_held_reports().is_empty());
}

#[test]
fn forwarded_reports_name_the_pipe_they_came_from() {
    let cli = pipe_report(Some("pipe-7"), vec![("other", "x")]);
    assert_eq!(cli.forwarded_args(), vec![("origin_pipe_id".to_string(), "pipe-7".to_string())]);
    assert_eq!(cli.origin(), Some("pipe-7".to_string()));
    let relayed = pipe_report(None, vec![("a", "1"), ("origin_pipe_id", "pipe-9")]);
    assert_eq!(
        relayed.forwarded_args(),
        vec![("a".to_string(), "1".to_string()), ("origin_pipe_id".to_string(), "pipe-9".to_string())]
    );
    assert_eq!(relayed.origin(), Some("pipe-9".to_string()));
    assert_eq!(pipe_report(None, vec![("a", "1")]).origin(), None);
}
