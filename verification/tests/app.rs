use dockui::app::{App, Effect, Focus, LogTarget, Msg, Popup, View};
use dockui::detail::detail_lines;
use dockui::docker::DockerContext;
use dockui::keys::{Key, KeyCode, KeyKind, Mouse, MouseKind};
use dockui::mock;
use dockui::model::DockerEvent;
use dockui::tree::RowKind;

fn contexts() -> Vec<DockerContext> {
    vec![
        DockerContext::new("mock-local".to_string(), "mock://local".to_string(), true),
        DockerContext::new(
            "desktop-linux".to_string(),
            "unix:///var/run/docker.sock".to_string(),
            false,
        ),
        DockerContext::new(
            "t480 (ssh)".to_string(),
            "ssh://stephen@stephen-t480.local".to_string(),
            false,
        ),
    ]
}

fn test_app() -> App {
    let mut app = App::new(true, contexts(), Vec::new(), None, false, Vec::new());
    app.handle_msg(Msg::ConnMock);
    app.handle_msg(Msg::Containers(mock::sample_containers()));
    app.handle_msg(Msg::Volumes(mock::sample_volumes()));
    for c in mock::sample_containers() {
        app.handle_msg(Msg::Inspected { id: c.id.clone(), details: mock::sample_details(&c.id) });
    }
    app.handle_msg(Msg::Event(DockerEvent {
        time: 1761300012,
        typ: "container".into(),
        action: "start".into(),
        actor_id: "a1b2c3d4e5f6".into(),
        actor_name: "webshop-web-1".into(),
        scope: "local".into(),
    }));
    app
}

fn press(app: &mut App, c: char) -> bool {
    app.handle_key(Key::press(KeyCode::Char(c)))
}

fn key(app: &mut App, code: KeyCode) -> bool {
    app.handle_key(Key::press(code))
}

fn expanded(app: &App, k: &str) -> bool {
    app.expanded.iter().any(|e| e == k)
}

fn detail_text(app: &App) -> String {
    let row = app.tree_rows.get(app.tree_sel);
    let lines = detail_lines(row, &app.containers, &app.volumes, &app.details, "");
    lines
        .iter()
        .map(|l| l.iter().map(|s| s.text.as_str()).collect::<Vec<_>>().concat())
        .collect::<Vec<_>>()
        .join("\n")
}

fn row_index(app: &App, f: impl Fn(&RowKind) -> bool) -> usize {
    app.tree_rows.iter().position(|r| f(&r.kind)).unwrap()
}

#[test]
fn key_navigation_works() {
    let mut app = test_app();
    assert_eq!(app.tree_sel, 0);
    press(&mut app, 'j');
    assert_eq!(app.tree_sel, 1);
    press(&mut app, 'j');
    assert_eq!(app.tree_sel, 2);
    press(&mut app, 'k');
    assert_eq!(app.tree_sel, 1);
    press(&mut app, 'G');
    let last = app.tree_rows.len() - 1;
    assert_eq!(app.tree_sel, last);
    press(&mut app, 'g');
    assert_eq!(app.tree_sel, 0);

    // collapse the projects section
    press(&mut app, ' ');
    assert!(!expanded(&app, "sec:projects"));
    let has_webshop = app
        .tree_rows
        .iter()
        .any(|r| matches!(&r.kind, RowKind::Project(p) if p == "webshop"));
    assert!(!has_webshop, "project rows should be hidden after collapse");
    press(&mut app, ' ');
    assert!(expanded(&app, "sec:projects"));

    // views
    press(&mut app, '2');
    assert!(app.view == View::Stats);
    press(&mut app, '3');
    assert!(app.view == View::Events);
    press(&mut app, '1');
    assert!(app.view == View::Tree);
    press(&mut app, '4');
    assert!(app.view == View::Logs);
    key(&mut app, KeyCode::Esc);
    assert!(app.view == View::Tree);

    // popup open/close
    press(&mut app, 'c');
    assert!(app.popup == Popup::Context);
    key(&mut app, KeyCode::Esc);
    assert!(app.popup == Popup::Closed);

    // q quits
    assert!(!press(&mut app, 'q'));
}

#[test]
fn logs_key_scrolling_and_follow() {
    let mut app = test_app();
    let targets: Vec<LogTarget> = app
        .containers
        .iter()
        .take(1)
        .map(|c| LogTarget { id: c.id.clone(), name: c.name.clone() })
        .collect();
    app.open_logs(targets);
    for i in 0..100 {
        app.handle_msg(Msg::LogLine {
            name: "webshop-web-1".into(),
            line: format!("2026-09-20T08:00:00.000Z line {i}"),
        });
    }
    assert!(app.log_follow);
    press(&mut app, 'k');
    assert!(!app.log_follow);
    assert_eq!(app.log_off, 1);
    press(&mut app, 'j');
    assert!(app.log_follow);
    assert_eq!(app.log_off, 0);
    press(&mut app, 'G');
    press(&mut app, 'f');
    assert!(!app.log_follow);
    press(&mut app, 'f');
    assert!(app.log_follow);
}

#[test]
fn release_events_are_ignored() {
    let mut app = test_app();
    let ev = Key { code: KeyCode::Char('q'), ctrl: false, alt: false, kind: KeyKind::Release };
    assert!(app.handle_key(ev), "release q must not quit");
}

#[test]
fn tree_view_shows_services_and_containers() {
    let mut app = test_app();
    // projects and services are auto-expanded on first load
    let text: Vec<String> =
        app.tree_rows.iter().flat_map(|r| [r.label.clone(), r.sub.clone()]).collect();
    let text = text.join("\n");
    assert!(text.contains("webshop-web-1"));
    assert!(text.contains("nginx:1.27"));
    assert!(text.contains("ghcr.io/webshop/api"));
    assert!(text.contains("postgres:16.2"));

    // collapsing a service hides its own containers but not sibling services'
    let idx = row_index(&app, |k| matches!(k, RowKind::Service(p, s) if p == "webshop" && s == "web"));
    app.tree_sel = idx;
    key(&mut app, KeyCode::Enter);
    assert!(!app
        .tree_rows
        .iter()
        .any(|r| matches!(&r.kind, RowKind::Container(id) if id.starts_with("a1b2"))));
    assert!(app
        .tree_rows
        .iter()
        .any(|r| matches!(&r.kind, RowKind::Container(id) if id.starts_with("b2c3"))));
}

#[test]
fn detail_pane_shows_env_vars_and_ports() {
    let mut app = test_app();
    app.tree_sel = row_index(&app, |k| matches!(k, RowKind::Container(id) if id.starts_with("a1b2")));
    let text = detail_text(&app);
    assert!(text.contains("ENV VARS"));
    assert!(text.contains("NGINX_VERSION"));
    assert!(text.contains("0.0.0.0:8080 -> 80/tcp"));
    assert!(text.contains("webshop_site"));
    assert!(text.contains("IP"));
}

#[test]
fn detail_pane_shows_project_services_and_volumes() {
    let mut app = test_app();
    app.tree_sel = row_index(&app, |k| matches!(k, RowKind::Project(p) if p == "webshop"));
    let text = detail_text(&app);
    assert!(text.contains("SERVICES"));
    assert!(text.contains("PROJECT VOLUMES"));
    assert!(text.contains("webshop_pgdata"));
    assert!(text.contains("Config"));
}

#[test]
fn volume_detail_renders() {
    let mut app = test_app();
    app.tree_sel = row_index(&app, |k| matches!(k, RowKind::Volume(v) if v == "registry_data"));
    let text = detail_text(&app);
    assert!(text.contains("Driver"));
    assert!(text.contains("7.0GiB"));
    assert!(text.contains("RefCount"));
}

#[test]
fn logs_of_a_project_are_prefixed_by_container() {
    let mut app = test_app();
    app.tree_sel = row_index(&app, |k| matches!(k, RowKind::Project(p) if p == "webshop"));
    app.open_logs_for_row();
    assert!(app.view == View::Logs);
    app.handle_msg(Msg::LogLine {
        name: "webshop-web-1".into(),
        line: "2026-09-20T08:00:00.000Z GET /api/products 200".into(),
    });
    app.handle_msg(Msg::LogLine {
        name: "webshop-db-1".into(),
        line: "2026-09-20T08:00:01.000Z slow query took 212ms".into(),
    });
    app.handle_msg(Msg::LogLine { name: "registry".into(), line: "not followed".into() });
    assert_eq!(app.log_lines.len(), 2);
    assert_eq!(app.log_lines[0], "[webshop-web-1] 2026-09-20T08:00:00.000Z GET /api/products 200");
    assert!(app.log_lines[1].starts_with("[webshop-db-1] "));
    assert!(app.log_follow);
}

#[test]
fn events_are_capped_at_the_newest() {
    let mut app = test_app();
    for i in 0..600 {
        app.handle_msg(Msg::Event(DockerEvent {
            time: i,
            typ: "container".into(),
            action: "start".into(),
            actor_id: "x".into(),
            actor_name: "y".into(),
            scope: "local".into(),
        }));
    }
    assert_eq!(app.events.len(), 500);
    assert_eq!(app.events[499].time, 599);
}

#[test]
fn filter_keeps_matches_and_lands_on_a_container() {
    let mut app = test_app();
    press(&mut app, '/');
    assert!(app.search.prompting);
    for c in "postgres".chars() {
        press(&mut app, c);
    }
    key(&mut app, KeyCode::Enter);
    assert!(!app.search.prompting);
    assert!(app.search_active());
    let sel = &app.tree_rows[app.tree_sel];
    assert!(matches!(sel.kind, RowKind::Container(_)));
    // the matching container, its service, project and section stay
    assert!(app.tree_rows.iter().any(|r| r.label == "webshop-db-1"));
    assert!(app.tree_rows.iter().any(|r| matches!(&r.kind, RowKind::Project(p) if p == "webshop")));
    assert!(!app.tree_rows.iter().any(|r| r.label == "registry"));
    key(&mut app, KeyCode::Esc);
    assert!(!app.search_active());
    assert!(app.tree_rows.iter().any(|r| r.label == "registry"));
}

#[test]
fn bad_pattern_keeps_the_prompt_open() {
    let mut app = test_app();
    press(&mut app, '/');
    press(&mut app, '(');
    key(&mut app, KeyCode::Enter);
    assert!(app.search.prompting);
    assert!(app.search.error.is_some());
    key(&mut app, KeyCode::Esc);
    assert!(!app.search.prompting);
}

#[test]
fn remove_asks_for_confirmation_first() {
    let mut app = test_app();
    app.tree_sel = row_index(&app, |k| matches!(k, RowKind::Container(id) if id.starts_with("a1b2")));
    let n = app.containers.len();
    press(&mut app, 'D');
    assert!(app.popup == Popup::Confirm);
    assert_eq!(app.containers.len(), n);
    press(&mut app, 'n');
    assert!(app.popup == Popup::Closed);
    assert_eq!(app.containers.len(), n);
    press(&mut app, 'D');
    press(&mut app, 'y');
    assert_eq!(app.containers.len(), n - 1);
    assert!(!app.containers.iter().any(|c| c.name == "webshop-web-1"));
    assert!(app.toast.as_ref().unwrap().ok);
    assert_eq!(app.toast.as_ref().unwrap().text, "remove webshop-web-1 done (mock)");
}

#[test]
fn mock_stop_and_start_change_state() {
    let mut app = test_app();
    app.tree_sel = row_index(&app, |k| matches!(k, RowKind::Container(id) if id.starts_with("a1b2")));
    press(&mut app, 'K');
    let c = app.containers.iter().find(|c| c.name == "webshop-web-1").unwrap();
    assert_eq!(c.state, "exited");
    assert_eq!(c.status, "Exited (0) (mock)");
    press(&mut app, 'S');
    let c = app.containers.iter().find(|c| c.name == "webshop-web-1").unwrap();
    assert_eq!(c.state, "running");
}

#[test]
fn stats_samples_fill_capped_histories() {
    let mut app = test_app();
    let id = app.containers[0].id.clone();
    for i in 0..130u64 {
        let sample = dockui::model::StatsSample { cpu_centi: 1250 + i, mem: 100, ..Default::default() };
        app.handle_msg(Msg::Stats { id: id.clone(), sample });
    }
    let h = &app.cpu_hist.iter().find(|(k, _)| *k == id).unwrap().1;
    assert_eq!(h.len(), 120);
    assert_eq!(h[119], 13);
    let big = dockui::model::StatsSample { cpu_centi: 90000, ..Default::default() };
    app.handle_msg(Msg::Stats { id: id.clone(), sample: big });
    let h = &app.cpu_hist.iter().find(|(k, _)| *k == id).unwrap().1;
    assert_eq!(h[119], 400);
}

#[test]
fn toast_expires_after_four_seconds() {
    let mut app = test_app();
    app.set_clock(1000, 0, 0);
    app.toast(true, "hi".to_string());
    app.set_clock(5000, 0, 0);
    assert!(!app.toast_expired());
    app.set_clock(5001, 0, 0);
    assert!(app.toast_expired());
}

#[test]
fn files_explorer_walks_the_demo_tree() {
    let mut app = test_app();
    app.tree_sel = row_index(&app, |k| matches!(k, RowKind::Container(id) if id.starts_with("a1b2")));
    press(&mut app, 'f');
    assert!(app.view == View::Files);
    let etc = app.visible_files().iter().position(|e| e.name == "etc").unwrap();
    for _ in 0..etc {
        press(&mut app, 'j');
    }
    key(&mut app, KeyCode::Enter);
    assert_eq!(app.files.as_ref().unwrap().path, "/etc");
    assert!(app.visible_files().iter().any(|e| e.name == "hostname"));
    key(&mut app, KeyCode::Backspace);
    assert_eq!(app.files.as_ref().unwrap().path, "/");
    key(&mut app, KeyCode::Esc);
    assert!(app.view == View::Tree);
}

#[test]
fn refresh_asks_for_a_poll() {
    let mut app = test_app();
    app.take_effects();
    press(&mut app, 'r');
    let effects = app.take_effects();
    assert!(effects.iter().any(|e| matches!(e, Effect::Refresh)));
    assert!(app.take_effects().is_empty());
}

#[test]
fn context_switch_reconnects() {
    let mut app = test_app();
    app.take_effects();
    press(&mut app, 'c');
    key(&mut app, KeyCode::Down);
    key(&mut app, KeyCode::Enter);
    assert_eq!(app.current_ctx, 1);
    assert!(app.containers.is_empty());
    let effects = app.take_effects();
    assert!(effects.iter().any(|e| matches!(e, Effect::Connect)));
}

#[test]
fn mouse_click_pins_a_log_line() {
    let mut app = test_app();
    let targets = vec![LogTarget { id: app.containers[0].id.clone(), name: "webshop-web-1".into() }];
    app.open_logs(targets);
    for i in 0..50 {
        app.handle_msg(Msg::LogLine { name: "webshop-web-1".into(), line: format!("line {i}") });
    }
    app.areas.logs = dockui::app::Rect { x: 0, y: 0, width: 80, height: 12 };
    // ten lines shown (40..=49); clicking the third shows line 42 at the bottom
    app.handle_mouse(Mouse { kind: MouseKind::Down, column: 5, row: 3 });
    assert_eq!(app.log_off, 50 - 1 - 42);
    assert!(!app.log_follow);
    app.handle_mouse(Mouse { kind: MouseKind::ScrollDown, column: 5, row: 3 });
    assert_eq!(app.log_off, 6);
}

#[test]
fn tab_moves_focus_to_the_detail_pane() {
    let mut app = test_app();
    key(&mut app, KeyCode::Tab);
    assert!(app.focus == Focus::Detail);
    key(&mut app, KeyCode::Tab);
    assert!(app.focus == Focus::Tree);
}

#[test]
fn click_outside_a_popup_closes_it() {
    let mut app = test_app();
    press(&mut app, '?');
    assert!(app.popup == Popup::Help);
    app.areas.popup = dockui::app::Rect { x: 10, y: 5, width: 20, height: 10 };
    // a click inside keeps it open
    app.handle_mouse(Mouse { kind: MouseKind::Down, column: 12, row: 6 });
    assert!(app.popup == Popup::Help);
    app.handle_mouse(Mouse { kind: MouseKind::Down, column: 0, row: 0 });
    assert!(app.popup == Popup::Closed);
}

#[test]
fn escape_clears_the_filter_first() {
    let mut app = test_app();
    press(&mut app, '/');
    for c in "web".chars() {
        press(&mut app, c);
    }
    key(&mut app, KeyCode::Enter);
    assert!(app.search_active());
    press(&mut app, '3');
    assert!(app.view == View::Events);
    assert!(key(&mut app, KeyCode::Esc));
    assert!(!app.search_active());
    assert!(app.view == View::Events);
    // with no filter left, Escape leaves the view
    key(&mut app, KeyCode::Esc);
    assert!(app.view == View::Tree);
}

#[test]
fn leaving_a_view_stops_its_streams() {
    let mut app = test_app();
    press(&mut app, '2');
    assert!(app.view == View::Stats);
    app.take_effects();
    press(&mut app, '1');
    assert!(app.view == View::Tree);
    let effects = app.take_effects();
    assert!(matches!(effects.last(), Some(Effect::StopStats)));
    assert!(app.stats_spawned.is_empty());
}
