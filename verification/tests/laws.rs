use zellij_codex::agents::{AgentReport, AgentTable};
use zellij_codex::dashboard::{App, PaneId};
use zellij_codex::idset::IdSet;
use zellij_codex::model::{PaneInfo, PaneManifest, TabInfo};
use zellij_codex::status::Status;
use zellij_codex::tabbar::{get_clicked_line_part, get_tab_to_focus, split_badge, LinePart};

fn report(id: &str, status: Status, pane_id: Option<u32>, remove: bool) -> AgentReport {
    AgentReport {
        id: id.to_string(),
        agent: "codex".to_string(),
        status,
        task: String::new(),
        worktree: String::new(),
        pane_id,
        tab_id: None,
        tab_position: None,
        remove,
    }
}

#[test]
fn a_stored_report_is_found_under_its_id_and_others_stay() {
    let mut table = AgentTable::new();
    table.insert(report("b", Status::Idle, None, false));
    table.insert(report("a", Status::Running, None, false));
    table.insert(report("c", Status::Input, None, false));
    table.insert(report("b", Status::Done, None, false));
    assert_eq!(table.len(), 3);
    assert_eq!(table.get("b").unwrap().status, Status::Done);
    assert_eq!(table.get("a").unwrap().status, Status::Running);
    assert_eq!(table.get("c").unwrap().status, Status::Input);
    let ids: Vec<&str> = table.values().iter().map(|r| r.id.as_str()).collect();
    assert_eq!(ids, vec!["a", "b", "c"]);
}

#[test]
fn a_report_replaces_every_agent_on_its_pane() {
    let mut app = App::default();
    app.apply_report(report("first", Status::Running, Some(5), false));
    app.apply_report(report("other", Status::Running, Some(6), false));
    app.apply_report(report("second", Status::Input, Some(5), false));
    assert_eq!(app.agents.len(), 2);
    assert!(!app.agents.contains_key("first"));
    assert_eq!(app.agents.get("second").unwrap().status, Status::Input);
    assert!(app.agents.contains_key("other"));
}

#[test]
fn a_removal_forgets_the_id_and_the_pane() {
    let mut app = App::default();
    app.apply_report(report("one", Status::Running, Some(5), false));
    app.apply_report(report("two", Status::Running, Some(6), false));
    app.apply_report(report("three", Status::Running, None, false));
    // A removal under another id still clears its pane.
    app.apply_report(report("gone", Status::Idle, Some(5), true));
    assert!(!app.agents.contains_key("one"));
    app.apply_report(report("three", Status::Idle, None, true));
    assert!(!app.agents.contains_key("three"));
    assert_eq!(app.agents.len(), 1);
    assert!(app.agents.contains_key("two"));
}

#[test]
fn a_done_report_for_the_focused_pane_is_stored_as_read() {
    let mut app = App::default();
    app.focused_pane_id = Some(9);
    app.apply_report(report("seen", Status::Done, Some(9), false));
    app.apply_report(report("unseen", Status::Done, Some(10), false));
    assert_eq!(app.agents.get("seen").unwrap().status, Status::Idle);
    assert_eq!(app.agents.get("unseen").unwrap().status, Status::Done);
}

#[test]
fn observing_a_pane_only_clears_done() {
    let mut app = App::default();
    app.apply_report(report("running", Status::Running, Some(3), false));
    app.apply_report(report("done", Status::Done, Some(4), false));
    let mut visible = IdSet::new();
    visible.insert(3);
    visible.insert(4);
    assert!(app.observe_active_tab(None, 0, &visible));
    assert_eq!(app.agents.get("running").unwrap().status, Status::Running);
    assert_eq!(app.agents.get("done").unwrap().status, Status::Idle);
    assert!(!app.observe_active_tab(None, 0, &visible));
}

fn manifest(ids: &[u32]) -> PaneManifest {
    PaneManifest {
        panes: vec![(0, ids.iter().map(|id| PaneInfo { id: *id, ..Default::default() }).collect())],
    }
}

#[test]
fn pruning_closed_panes_a_second_time_removes_nothing() {
    let mut app = App::default();
    app.apply_report(report("live", Status::Running, Some(1), false));
    app.apply_report(report("closed", Status::Running, Some(2), false));
    app.apply_report(report("remote", Status::Running, None, false));
    let live = App::live_pane_ids(&manifest(&[1]));
    assert!(app.reconcile_live_panes(&live));
    assert!(!app.reconcile_live_panes(&live));
    assert_eq!(app.agents.len(), 2);
    assert!(app.agents.contains_key("remote"));
}

#[test]
fn every_badge_prefix_becomes_its_marker() {
    let rules = [
        ("[🟠 ↻] ", "[↻]", (255, 165, 0), (154, 75, 0)),
        ("[🔴 ↻] ", "[↻]", (255, 165, 0), (154, 75, 0)),
        ("[🔴 !] ", "[!]", (255, 77, 77), (180, 35, 24)),
        ("[🔵 ✓] ", "[✓]", (80, 160, 255), (23, 92, 211)),
        ("[🟡 !] ", "[!]", (255, 210, 80), (128, 91, 0)),
        ("[🔴 ✕] ", "[✕]", (255, 77, 77), (180, 35, 24)),
        ("[🟡 Ⅱ] ", "[Ⅱ]", (255, 210, 80), (128, 91, 0)),
    ];
    for (prefix, symbol, color, selected_color) in rules {
        let name = format!("{prefix}build");
        assert_eq!(split_badge(&name, false), (Some((symbol, color)), "build"));
        assert_eq!(split_badge(&name, true), (Some((symbol, selected_color)), "build"));
    }
    // Only a prefix counts, and only with its trailing blank.
    assert_eq!(split_badge("build [🟠 ↻] ", false), (None, "build [🟠 ↻] "));
    assert_eq!(split_badge("[🟠 ↻]build", false), (None, "[🟠 ↻]build"));
}

fn part(len: usize, tab_index: Option<usize>) -> LinePart {
    LinePart { part: String::new(), len, tab_index }
}

#[test]
fn each_column_falls_in_at_most_one_part() {
    let line = vec![part(3, Some(0)), part(0, Some(1)), part(2, None), part(4, Some(2))];
    let expected = [Some(0), Some(0), Some(0), None, None, Some(2), Some(2), Some(2), Some(2)];
    for (col, want) in expected.iter().enumerate() {
        let got = get_clicked_line_part(&line, col).map(|p| p.tab_index);
        match want {
            Some(i) => assert_eq!(got, Some(Some(*i))),
            None => assert!(got.is_none() || got == Some(None)),
        }
    }
    assert!(get_clicked_line_part(&line, 9).is_none());
    assert!(get_clicked_line_part(&line, usize::MAX).is_none());
}

#[test]
fn a_click_never_switches_to_the_active_tab() {
    let line = vec![part(5, Some(0)), part(5, Some(1))];
    assert_eq!(get_tab_to_focus(&line, 1, 2), None);
    assert_eq!(get_tab_to_focus(&line, 1, 7), Some(2));
    assert_eq!(get_tab_to_focus(&line, 2, 7), None);
    assert_eq!(get_tab_to_focus(&line, 2, 10), None);
}

#[test]
fn relayed_reports_are_remembered_for_sixty_four_origins() {
    let mut app = App::default();
    for i in 0..70 {
        let origin = format!("pipe-{i}");
        assert!(app.receive_parsed_report(Some(origin), "{}".to_string(), Ok(report("a", Status::Running, None, false))));
        assert!(app.seen_reports.len() <= 64);
    }
    // The oldest origins have left the window; the newest are still known.
    assert!(app.receive_parsed_report(Some("pipe-0".to_string()), "{}".to_string(), Ok(report("a", Status::Idle, None, false))));
    assert!(!app.receive_parsed_report(Some("pipe-69".to_string()), "{}".to_string(), Ok(report("a", Status::Done, None, false))));
    assert_eq!(app.agents.get("a").unwrap().status, Status::Idle);
}

#[test]
fn tabs_keep_their_stable_ids_when_remembered() {
    let mut app = App::default();
    app.tabs = vec![
        TabInfo { tab_id: 1, position: 0, name: "a".to_string(), ..Default::default() },
        TabInfo { tab_id: 2, position: 1, name: "b".to_string(), ..Default::default() },
    ];
    app.remember_tab(TabInfo { tab_id: 1, position: 3, name: "moved".to_string(), ..Default::default() });
    assert_eq!(app.tabs.len(), 2);
    assert_eq!(app.tabs[0].tab_id, 2);
    assert_eq!(app.tabs[1].name, "moved");
    assert_eq!(app.tab_with_id(1).unwrap().position, 3);
    assert!(app.tab_with_id(5).is_none());
    assert_eq!(app.tab_id_at_position(3), Some(1));
    let _ = PaneId::Terminal(0);
}

#[test]
fn publishing_again_reaches_only_peers_that_missed_it() {
    let mut owner = App::default();
    owner.status_observers.insert(8);
    owner.status_observers.insert(3);
    let first = owner.publish_agents();
    assert_eq!(first.recipients, vec![3, 8]);
    assert!(first.start_checkpoint_timer);
    let second = owner.publish_agents();
    assert!(second.recipients.is_empty());
    assert!(!second.start_checkpoint_timer);
    owner.status_observers.insert(5);
    assert_eq!(owner.publish_agents().recipients, vec![5]);
    owner.apply_report(report("new", Status::Running, None, false));
    assert_eq!(owner.publish_agents().recipients, vec![3, 5, 8]);
}

#[test]
fn the_same_manifest_twice_changes_nothing() {
    let mut app = App::default();
    app.tabs = vec![TabInfo { tab_id: 4, position: 0, active: true, name: "t".to_string(), ..Default::default() }];
    app.apply_report(report("known", Status::Done, Some(2), false));
    let manifest = || PaneManifest {
        panes: vec![(
            0,
            vec![
                PaneInfo { id: 1, terminal_command: Some("codex".to_string()), ..Default::default() },
                PaneInfo { id: 2, is_focused: true, ..Default::default() },
                PaneInfo { id: 3, ..Default::default() },
            ],
        )],
    };
    assert!(app.update_pane_manifest(manifest()));
    let after_first: Vec<(String, Status, Option<usize>)> =
        app.agents.values().iter().map(|a| (a.id.clone(), a.status, a.tab_id)).collect();
    assert!(!app.update_pane_manifest(manifest()));
    let after_second: Vec<(String, Status, Option<usize>)> =
        app.agents.values().iter().map(|a| (a.id.clone(), a.status, a.tab_id)).collect();
    assert_eq!(after_first, after_second);
    assert_eq!(app.agents.get("known").unwrap().status, Status::Idle);
    assert!(app.agents.contains_key("discovered:pane:1"));
}

#[test]
fn a_floating_overlay_keeps_results_unread_until_closed() {
    let mut app = App::default();
    app.tabs = vec![TabInfo { tab_id: 1, position: 0, active: true, are_floating_panes_visible: true, ..Default::default() }];
    let mut agent = report("agent", Status::Done, Some(4), false);
    agent.tab_id = Some(1);
    app.apply_report(agent);
    let panes = |floating_visible: bool| PaneManifest {
        panes: vec![(
            0,
            vec![
                PaneInfo { id: 4, is_focused: !floating_visible, ..Default::default() },
                PaneInfo { id: 9, is_floating: true, is_focused: floating_visible, ..Default::default() },
            ],
        )],
    };
    app.update_pane_manifest(panes(true));
    assert_eq!(app.agents.get("agent").unwrap().status, Status::Done);
    assert!(!app.refresh_current_view());
    let mut tabs: Vec<TabInfo> = app.tabs.iter().map(|t| t.duplicate()).collect();
    tabs[0].are_floating_panes_visible = false;
    app.update_tabs(tabs);
    assert!(app.update_pane_manifest(panes(false)));
    assert_eq!(app.agents.get("agent").unwrap().status, Status::Idle);
}

#[test]
fn reconciling_twice_with_the_same_panes_changes_nothing() {
    let mut app = App::default();
    app.apply_report(report("reported", Status::Running, Some(3), false));
    let found = || vec![(3, "a".to_string(), Some(1), 0), (4, "b".to_string(), None, 2), (4, "c".to_string(), Some(2), 1)];
    assert!(app.reconcile_discovered_panes(found()));
    assert!(!app.reconcile_discovered_panes(found()));
    assert_eq!(app.agents.len(), 2);
    assert_eq!(app.agents.get("discovered:pane:4").unwrap().tab_id, Some(2));
}

#[test]
fn a_sync_request_gets_the_current_snapshot_again() {
    let mut owner = App::default();
    assert!(owner.publish_agents().recipients.is_empty());
    assert!(owner.accept_sync_request(Some(6)));
    assert_eq!(owner.publish_agents().recipients, vec![6]);
    assert!(owner.accept_sync_request(Some(6)));
    assert_eq!(owner.publish_agents().recipients, vec![6]);
    assert!(owner.status_observers.contains(6));
    assert!(owner.publish_agents().recipients.is_empty());
}

#[test]
fn an_agent_on_another_pane_settles_when_its_own_pane_is_not_found() {
    let mut app = App::default();
    app.apply_report(report("discovered:pane:5", Status::Running, Some(9), false));
    let found = || vec![(9, "a".to_string(), Some(1), 0)];
    assert!(app.reconcile_discovered_panes(found()));
    assert!(!app.reconcile_discovered_panes(found()));
    assert_eq!(app.agents.len(), 1);
    assert_eq!(app.agents.get("discovered:pane:5").unwrap().pane_id, Some(9));
}

#[test]
fn remembering_a_tab_keeps_the_dashboard_where_it_was() {
    let mut app = App::default();
    app.dashboard_tab_id = Some(1);
    app.dashboard_visible = true;
    app.dashboard_named = true;
    app.tabs = vec![TabInfo { tab_id: 1, position: 0, name: "a".to_string(), ..Default::default() }];
    app.remember_tab(TabInfo { tab_id: 2, position: 1, name: "b".to_string(), ..Default::default() });
    assert_eq!(app.tabs.len(), 2);
    assert_eq!(app.dashboard_tab_id, Some(1));
    assert!(app.dashboard_visible);
    assert!(app.dashboard_named);
}
