use dockui::actions::{EditForm, FormValue};
use dockui::launch::{Launch, Reply, Step, Stage};
use dockui::ops::{ContainerSpec, HostSpec, Op, PullPolicy, RecreateRequest};

fn s(v: &str) -> String {
    v.to_string()
}

fn spec(name: Option<&str>) -> ContainerSpec {
    ContainerSpec {
        name: name.map(s),
        image: Some(s("nginx:1.27")),
        cmd: None,
        entrypoint: None,
        env: vec![],
        labels: vec![],
        user: None,
        working_dir: None,
        tty: false,
        host: HostSpec::empty(),
    }
}

fn request(name: Option<&str>, was_running: bool) -> RecreateRequest {
    RecreateRequest { old_id: s("old0123456789"), old_name: s("web"), was_running, spec: spec(name) }
}

fn removes(st: &Step) -> String {
    match st {
        Step::Remove(t) => t.clone(),
        _ => panic!("expected a removal"),
    }
}

fn pulls(st: &Step) -> String {
    match st {
        Step::Pull(i) => i.clone(),
        _ => panic!("expected a pull"),
    }
}

fn starts(st: &Step) -> String {
    match st {
        Step::Start(i) => i.clone(),
        _ => panic!("expected a start"),
    }
}

fn is_create(st: &Step) -> bool {
    matches!(st, Step::Create)
}

fn finish(st: Step) -> (bool, String, Option<(String, String)>) {
    match st {
        Step::Finish { ok, message, open_logs } => (ok, message, open_logs.map(|t| (t.id, t.name))),
        _ => panic!("expected the outcome"),
    }
}

fn failed(not_found: bool, m: &str) -> Reply {
    Reply::Failed { not_found, message: s(m) }
}

#[test]
fn recreate_same_name_removes_first() {
    let mut l = Launch::for_recreate(&request(Some("web"), true));
    assert_eq!(l.label, "recreate web");
    assert!(l.stage == Stage::RemoveFirst);
    assert_eq!(removes(&l.step()), "old0123456789");
    assert!(is_create(&l.advance(Reply::Done)));
    assert_eq!(starts(&l.advance(Reply::Created(s("new0123456789abc")))), "new0123456789abc");
    let (ok, message, logs) = finish(l.advance(Reply::Done));
    assert!(ok);
    assert_eq!(message, "");
    assert_eq!(logs, Some((s("new0123456789abc"), s("web"))));
}

#[test]
fn recreate_renamed_removes_after_and_pulls_missing_image() {
    let mut l = Launch::for_recreate(&request(Some("web2"), false));
    assert_eq!(l.label, "recreate web2");
    assert!(is_create(&l.step()));
    assert_eq!(pulls(&l.advance(failed(true, "no such image"))), "nginx:1.27");
    assert!(is_create(&l.advance(Reply::Done)));
    assert_eq!(starts(&l.advance(Reply::Created(s("n1")))), "n1");
    assert_eq!(removes(&l.advance(Reply::Done)), "old0123456789");
    let (ok, _, logs) = finish(l.advance(Reply::Done));
    assert!(ok);
    assert_eq!(logs, None);
}

#[test]
fn recreate_failures_say_where() {
    let mut l = Launch::for_recreate(&request(Some("web"), true));
    let (ok, message, logs) = finish(l.advance(failed(false, "busy")));
    assert!(!ok);
    assert_eq!(message, "remove old: busy");
    assert_eq!(logs, None);

    let mut l = Launch::for_recreate(&request(None, true));
    assert_eq!(l.label, "recreate web");
    l.advance(failed(true, "missing"));
    l.advance(Reply::Done);
    let (ok, message, _) = finish(l.advance(failed(false, "boom")));
    assert!(!ok);
    assert_eq!(message, "create after pull failed: boom");

    let mut l = Launch::for_recreate(&request(None, true));
    l.advance(Reply::Created(s("x")));
    let (_, message, _) = finish(l.advance(failed(false, "port taken")));
    assert_eq!(message, "start: port taken");
}

#[test]
fn op_launch_steps() {
    let mut op = Op::default();
    op.image = Some(s("alpine:3"));
    op.pull = PullPolicy::Always;
    op.replace = true;
    op.follow_logs = true;
    let name = Some(s("tool"));
    let mut l = Launch::for_op("tool", &op, &name);
    assert_eq!(l.label, "op tool");
    // replacing: a container of that name goes first, and a failure is passed over
    assert_eq!(removes(&l.step()), "tool");
    assert_eq!(pulls(&l.advance(failed(true, "no such container"))), "alpine:3");
    assert!(is_create(&l.advance(Reply::Done)));
    assert_eq!(starts(&l.advance(Reply::Created(s("abcdef0123456789")))), "abcdef0123456789");
    let (ok, _, logs) = finish(l.advance(Reply::Done));
    assert!(ok);
    assert_eq!(logs, Some((s("abcdef0123456789"), s("tool"))));
}

#[test]
fn op_that_never_pulls_fails_on_missing_image() {
    let mut op = Op::default();
    op.image = Some(s("alpine:3"));
    op.pull = PullPolicy::Never;
    op.replace = false;
    op.follow_logs = true;
    let mut l = Launch::for_op("t", &op, &None);
    assert!(is_create(&l.step()));
    let (ok, message, _) = finish(l.advance(failed(true, "No such image: alpine:3")));
    assert!(!ok);
    assert_eq!(message, "No such image: alpine:3");

    // without a name, the logs open under the short id
    let mut l = Launch::for_op("t", &op, &None);
    l.advance(Reply::Created(s("0123456789abcdef")));
    let (_, _, logs) = finish(l.advance(Reply::Done));
    assert_eq!(logs, Some((s("0123456789abcdef"), s("0123456789ab"))));
}

#[test]
fn edit_keeps_hidden_settings() {
    let mut sp = spec(Some("web"));
    sp.labels = vec![(s("app"), s("shop"))];
    sp.user = Some(s("www"));
    sp.working_dir = Some(s("/srv"));
    sp.tty = true;
    sp.host.pid_mode = Some(s("host"));
    sp.host.shm_size = Some(1024);
    let mut form = EditForm::from_spec("abc123", &sp, true);
    if let FormValue::Text(t) = &mut form.fields[0].value {
        t.insert('2');
    }
    let r = form.to_request();
    assert_eq!(r.old_id, "abc123");
    assert!(r.was_running);
    assert_eq!(r.spec.name, Some(s("web2")));
    assert_eq!(r.spec.labels, vec![(s("app"), s("shop"))]);
    assert_eq!(r.spec.user, Some(s("www")));
    assert_eq!(r.spec.working_dir, Some(s("/srv")));
    assert!(r.spec.tty);
    assert_eq!(r.spec.host.pid_mode, Some(s("host")));
    assert_eq!(r.spec.host.shm_size, Some(1024));
}

fn line_text(l: &dockui::theme::Line) -> String {
    l.iter().map(|sp| sp.text.as_str()).collect::<Vec<_>>().concat()
}

#[test]
fn edit_form_lines_show_fields_and_apply() {
    let mut form = EditForm::from_spec("abc", &spec(Some("web")), true);
    let lines = dockui::screen::edit_lines(&form, 40);
    assert_eq!(lines.len(), form.fields.len() + 4);
    assert_eq!(line_text(&lines[0]), "web");
    assert_eq!(line_text(&lines[2]), "▶ Name      web▏");
    assert_eq!(line_text(&lines[3]), "  Image     nginx:1.27");
    assert_eq!(line_text(&lines[7]), "  Privilegedoff");
    assert_eq!(line_text(&lines[8]), "  GPUs      none");
    assert!(lines[lines.len() - 2].is_empty());
    assert_eq!(line_text(&lines[lines.len() - 1]), "  APPLY (recreate)");
    if let FormValue::Text(t) = &mut form.fields[0].value {
        t.insert('2');
    }
    form.sel = form.fields.len();
    let lines = dockui::screen::edit_lines(&form, 40);
    assert_eq!(line_text(&lines[0]), "web  →  web2");
    assert_eq!(line_text(&lines[2]), "  Name      web2");
    assert_eq!(line_text(&lines[lines.len() - 1]), "▶ APPLY (recreate)");
}
