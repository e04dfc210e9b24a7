use dockui::actions::TextInput;
use dockui::app::{App, Msg, Toast, View};
use dockui::mock;
use dockui::model::percent_text;
use dockui::screen::{
    banner_line, empty_tree_note, footer_line, header_line, split_log_line, tail_window, toast_line,
    with_cursor,
};
use dockui::theme::{action_color, cpu_color, mem_color, type_color, Color, Line};

fn texts(l: &Line) -> Vec<String> {
    l.iter().map(|s| s.text.clone()).collect()
}

fn joined(l: &Line) -> String {
    texts(l).concat()
}

fn demo_app() -> App {
    let mut app = App::new(true, mock::demo_contexts(), Vec::new(), None, false, Vec::new());
    app.handle_msg(Msg::ConnMock);
    app.handle_msg(Msg::Containers(mock::sample_containers()));
    app.handle_msg(Msg::Volumes(mock::sample_volumes()));
    app
}

#[test]
fn header_counts_projects_containers_volumes() {
    let app = demo_app();
    let cs = mock::sample_containers();
    let running = cs.iter().filter(|c| c.is_running()).count();
    let mut projects: Vec<String> = cs.iter().filter_map(|c| c.compose_project()).collect();
    projects.sort();
    projects.dedup();
    let l = header_line(&app);
    let want = format!(
        " ctx:mock-local ● mock  │ projects {} │ containers {}/{} │ volumes {} │ view TREE",
        projects.len(),
        running,
        cs.len(),
        mock::sample_volumes().len()
    );
    assert_eq!(joined(&l), want);
    assert_eq!(l[2].style.fg, Color::Cyan);
    assert!(l[2].style.bold);
    assert_eq!(l[3].style.fg, Color::Magenta);
}

#[test]
fn footer_hints_per_view() {
    let l = footer_line(View::Stats);
    assert_eq!(
        joined(&l),
        "[j/k] select  [L] logs  [/] filter  [1] tree  [c] context  [q] quit"
    );
    assert!(l[0].style.bold);
    assert_eq!(l[1].style.fg, Color::DarkGray);
    assert_eq!(texts(&footer_line(View::Tree)).len(), 11 * 3 - 1);
}

#[test]
fn cursor_bar_sits_at_the_cursor() {
    let t = TextInput { value: "héllo".to_string(), cursor: 3 };
    assert_eq!(with_cursor(&t), "hé▏llo");
    assert_eq!(with_cursor(&TextInput::default()), "▏");
}

#[test]
fn toast_and_banner_lines() {
    let ok = Toast { ok: true, text: "done".to_string(), at_ms: 0 };
    let l = toast_line(&ok);
    assert_eq!(texts(&l), vec![" ✓ ".to_string(), "done".to_string()]);
    assert_eq!(l[1].style.fg, Color::LightGreen);
    let bad = Toast { ok: false, text: "failed".to_string(), at_ms: 0 };
    assert_eq!(toast_line(&bad)[0].style.fg, Color::LightRed);
    let b = banner_line("connection refused", 80);
    assert_eq!(texts(&b)[1], "connection refused");
    assert_eq!(texts(&b)[2], "  press [c] to switch context");
}

#[test]
fn percent_text_two_decimals() {
    assert_eq!(percent_text(1250), "12.50%");
    assert_eq!(percent_text(7), "0.07%");
    assert_eq!(percent_text(0), "0.00%");
    assert_eq!(percent_text(12345), "123.45%");
}

#[test]
fn tones_follow_thresholds() {
    assert_eq!(cpu_color(20000), Color::LightRed);
    assert_eq!(cpu_color(10000), Color::LightYellow);
    assert_eq!(cpu_color(9999), Color::LightGreen);
    assert_eq!(mem_color(8000), Color::LightRed);
    assert_eq!(mem_color(5000), Color::LightYellow);
    assert_eq!(mem_color(4999), Color::LightGreen);
    assert_eq!(type_color("container"), Color::LightBlue);
    assert_eq!(type_color("image"), Color::LightMagenta);
    assert_eq!(type_color("plugin"), Color::Gray);
    assert_eq!(action_color("die"), Color::LightRed);
    assert_eq!(action_color("oom"), Color::LightRed);
    assert_eq!(action_color("start"), Color::LightGreen);
    assert_eq!(action_color("health_status: healthy"), Color::Gray);
}

#[test]
fn demo_contexts_first_is_current() {
    let cs = mock::demo_contexts();
    assert_eq!(cs.len(), 3);
    assert!(cs[0].current && !cs[1].current && !cs[2].current);
    assert_eq!(cs[2].endpoint, "ssh://stephen@stephen-t480.local");
}

#[test]
fn log_lines_split_at_the_timestamp() {
    assert_eq!(
        split_log_line("2026-09-20T08:00:00.000Z GET /api/products 200"),
        ("2026-09-20T08:00:00.000Z".to_string(), "GET /api/products 200".to_string())
    );
    // too short, or no dash where a year ends: all message
    assert_eq!(split_log_line("2026-09 x"), (String::new(), "2026-09 x".to_string()));
    assert_eq!(
        split_log_line("plain message without a stamp"),
        (String::new(), "plain message without a stamp".to_string())
    );
    assert_eq!(
        split_log_line("2026-09-20T08:00:00.000Z-no-space"),
        (String::new(), "2026-09-20T08:00:00.000Z-no-space".to_string())
    );
}

#[test]
fn tail_window_counts_from_the_bottom() {
    assert_eq!(tail_window(100, 10, 0), (90, 10));
    assert_eq!(tail_window(100, 10, 5), (85, 10));
    assert_eq!(tail_window(5, 10, 0), (0, 5));
    assert_eq!(tail_window(100, 10, 95), (0, 10));
    assert_eq!(tail_window(100, 10, 200), (0, 10));
}

#[test]
fn empty_tree_says_why() {
    let app = App::new(true, mock::demo_contexts(), Vec::new(), None, false, Vec::new());
    assert_eq!(empty_tree_note(&app), "connecting to docker…");
    let mut app = app;
    app.handle_msg(Msg::ConnMock);
    assert_eq!(empty_tree_note(&app), "loading mock data…");
}
