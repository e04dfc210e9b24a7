use dockui::ops::{
    choose_ops, expand_template, expand_with, ops_from_doc, parse_port, parse_size, sort_ops, Cmd,
    GpuSpec, Op, OpEntry, OpValue, OpsDoc, ShmSize,
};
use dockui::util::{split_command, split_list};

fn image_op(image: &str) -> Op {
    let mut op = Op::default();
    op.image = Some(image.to_string());
    op
}

fn err_of(r: Result<Vec<(String, Op)>, String>) -> String {
    match r {
        Ok(_) => panic!("expected an error"),
        Err(e) => e,
    }
}

fn strings(v: &[&str]) -> Vec<String> {
    v.iter().map(|s| s.to_string()).collect()
}

#[test]
fn expand_template_env_vars() {
    let vars: Vec<(String, String)> = [("DUI_TEST_VAR", "hello"), ("DUI_X", "a b")]
        .into_iter()
        .map(|(k, v)| (k.to_string(), v.to_string()))
        .collect();
    let lookup = |k: &str| vars.iter().find(|(n, _)| n == k).map(|(_, v)| v.clone());
    assert_eq!(expand_with("x${DUI_TEST_VAR}y", lookup), "xhelloy");
    assert_eq!(expand_with("$DUI_TEST_VAR!", lookup), "hello!");
    assert_eq!(expand_with("${DUI_TEST_VAR}-${DUI_TEST_VAR}", lookup), "hello-hello");
    assert_eq!(expand_with("$DUI_X", lookup), "a b");
    assert_eq!(expand_with("${DUI_MISSING_VAR_XYZ}", lookup), "");
    assert_eq!(expand_with("no vars", lookup), "no vars");
    assert_eq!(expand_with("dollar $ alone", lookup), "dollar $ alone");
    assert_eq!(expand_with("unclosed ${oops", lookup), "unclosed ${oops");
    assert_eq!(expand_with("$$VAR", lookup), "$");
    // the environment-backed form resolves against the variables it is given
    let env = vec![("HOME".to_string(), "/home/me".to_string())];
    assert_eq!(expand_template("${HOME}", &env), "/home/me");
}

#[test]
fn parse_size_variants() {
    assert_eq!(parse_size("100"), Some(100));
    assert_eq!(parse_size("1k"), Some(1024));
    assert_eq!(parse_size("1kb"), Some(1024));
    assert_eq!(parse_size("1b"), Some(1));
    assert_eq!(parse_size("512m"), Some(512 * 1024 * 1024));
    assert_eq!(parse_size("512mb"), Some(512 * 1024 * 1024));
    assert_eq!(parse_size("2G"), Some(2 * 1024 * 1024 * 1024));
    assert_eq!(parse_size("b"), None);
    assert_eq!(parse_size("xx"), None);
}

#[test]
fn split_command_respects_quotes() {
    assert_eq!(split_command("sh -c \"apk add jq && sh\""), vec!["sh", "-c", "apk add jq && sh"]);
    assert_eq!(split_command("  a   b  "), vec!["a", "b"]);
    assert_eq!(split_command("x 'y z' \"a b\""), vec!["x", "y z", "a b"]);
    assert_eq!(split_command(""), Vec::<String>::new());
    assert_eq!(split_command("unclosed \"quote"), vec!["unclosed", "quote"]);
}

#[test]
fn split_list_on_semicolons() {
    assert_eq!(split_list("a=b; c=d ;e=f"), vec!["a=b", "c=d", "e=f"]);
    assert!(split_list("  ;  ").is_empty());
}

#[test]
fn parse_port_variants() {
    let (key, b) = parse_port("8080:80").unwrap();
    assert_eq!(key, "80/tcp");
    assert_eq!(b.host_port.as_deref(), Some("8080"));
    assert!(b.host_ip.is_none());

    let (key, b) = parse_port("127.0.0.1:9090:90/udp").unwrap();
    assert_eq!(key, "90/udp");
    assert_eq!(b.host_ip.as_deref(), Some("127.0.0.1"));
    assert_eq!(b.host_port.as_deref(), Some("9090"));

    assert!(parse_port("8080").is_none());
    assert!(parse_port(":80").is_none());
    assert!(parse_port("a:b:c:d").is_none());
    assert!(parse_port("abc:def").is_none());
    assert!(parse_port("8080:80/bogus").is_none());
}

#[test]
fn to_create_maps_all_options() {
    let mut op = image_op("ubuntu:24.04");
    op.name = Some("stephen_top".to_string());
    op.privileged = true;
    op.gpus = Some(GpuSpec::Spec("all".to_string()));
    op.network = Some("host".to_string());
    op.pid = Some("host".to_string());
    op.ipc = Some("host".to_string());
    op.command = Some(Cmd::One("top -n 1".to_string()));
    op.env = strings(&["FOO=bar"]);
    op.volumes = strings(&["/proc:/host/proc:ro"]);
    op.ports = strings(&["8080:80", "127.0.0.1:9090:90/udp"]);
    op.restart = Some("on-failure:5".to_string());
    op.shm_size = Some(ShmSize::Spec("512m".to_string()));
    op.tty = true;
    op.rm = true;
    let vars: Vec<(String, String)> = Vec::new();
    assert_eq!(op.container_name(&vars).as_deref(), Some("stephen_top"));

    let (name, config) = op.to_create(&vars);
    assert_eq!(name.as_deref(), Some("stephen_top"));
    assert_eq!(config.image.as_deref(), Some("ubuntu:24.04"));
    assert_eq!(config.cmd, Some(strings(&["top", "-n", "1"])));
    assert_eq!(config.env, Some(strings(&["FOO=bar"])));
    assert_eq!(config.tty, Some(true));

    let host = config.host_config.as_ref().unwrap();
    assert_eq!(host.privileged, Some(true));
    assert_eq!(host.network_mode.as_deref(), Some("host"));
    assert_eq!(host.pid_mode.as_deref(), Some("host"));
    assert_eq!(host.ipc_mode.as_deref(), Some("host"));
    assert_eq!(host.auto_remove, Some(true));
    assert_eq!(host.shm_size, Some(512 * 1024 * 1024));
    assert_eq!(host.binds, Some(strings(&["/proc:/host/proc:ro"])));

    let gpus = host.device_requests.as_ref().unwrap();
    assert_eq!(gpus[0].count, Some(-1), "gpus: all -> count -1");
    assert_eq!(gpus[0].capabilities, Some(vec![strings(&["gpu"])]));

    let rp = host.restart_policy.as_ref().unwrap();
    assert_eq!(rp.maximum_retry_count, Some(5));

    let bindings = host.port_bindings.as_ref().unwrap();
    assert_eq!(bindings.len(), 2);
    assert!(bindings.contains_key("80/tcp"));
    assert!(bindings.contains_key("90/udp"));
    let exposed = config.exposed_ports.as_ref().unwrap();
    assert_eq!(exposed.len(), 2);
}

#[test]
fn to_create_gpu_count_and_ids() {
    let vars: Vec<(String, String)> = Vec::new();
    let mut op = image_op("ubuntu:24.04");
    op.gpus = Some(GpuSpec::Count(2));
    let (_, config) = op.to_create(&vars);
    let host = config.host_config.as_ref().unwrap();
    assert_eq!(host.device_requests.as_ref().unwrap()[0].count, Some(2), "gpus: 2 -> count 2");

    let mut op = image_op("ubuntu:24.04");
    op.gpus = Some(GpuSpec::Spec("GPU-aaaa,GPU-bbbb".to_string()));
    let (_, config) = op.to_create(&vars);
    let host = config.host_config.as_ref().unwrap();
    assert_eq!(
        host.device_requests.as_ref().unwrap()[0].device_ids,
        Some(strings(&["GPU-aaaa", "GPU-bbbb"]))
    );
}

#[test]
fn restart_policy_variants() {
    let vars: Vec<(String, String)> = Vec::new();
    let policy_for = |restart: &str| {
        let mut op = image_op("alpine");
        op.restart = Some(restart.to_string());
        op
    };
    let (_, c) = policy_for("always").to_create(&vars);
    let p = c.host_config.unwrap().restart_policy.unwrap();
    assert!(p.maximum_retry_count.is_none());

    let (_, c) = policy_for("on-failure:3").to_create(&vars);
    let p = c.host_config.unwrap().restart_policy.unwrap();
    assert_eq!(p.maximum_retry_count, Some(3));

    let (_, c) = policy_for("sometimes").to_create(&vars);
    assert!(c.host_config.unwrap().restart_policy.is_none());
}

#[test]
fn gpu_request_shapes() {
    let all = GpuSpec::Spec("all".into()).to_request();
    assert_eq!(all.count, Some(-1));
    let n = GpuSpec::Count(3).to_request();
    assert_eq!(n.count, Some(3));
    let ids = GpuSpec::Spec("GPU-x,GPU-y".into()).to_request();
    assert_eq!(ids.device_ids, Some(strings(&["GPU-x", "GPU-y"])));
}

#[test]
fn summary_lists_flags() {
    let mut op = image_op("ubuntu:24.04");
    op.privileged = true;
    op.gpus = Some(GpuSpec::Spec("all".to_string()));
    op.network = Some("host".to_string());
    let s = op.summary();
    assert!(s.contains("ubuntu:24.04"));
    assert!(s.contains("--privileged"));
    assert!(s.contains("--gpus all"));
    assert!(s.contains("--net host"));
}

#[test]
fn command_forms_become_argument_lists() {
    let vars: Vec<(String, String)> = Vec::new();
    let mut op = image_op("alpine");
    op.command = Some(Cmd::One("sh -c \"echo hi\"".to_string()));
    let (_, c) = op.to_create(&vars);
    assert_eq!(c.cmd, Some(strings(&["sh", "-c", "echo hi"])));
    op.command = Some(Cmd::Many(strings(&["sh", "-c", "echo hi"])));
    let (_, c) = op.to_create(&vars);
    assert_eq!(c.cmd, Some(strings(&["sh", "-c", "echo hi"])));
}

#[test]
fn ops_doc_entries_in_file_order_then_sorted() {
    let doc = OpsDoc::Mapping {
        flat: vec![
            OpEntry { name: Some("zzz".to_string()), value: OpValue::Parsed(image_op("alpine:3.20")) },
            OpEntry { name: Some("aaa".to_string()), value: OpValue::Parsed(image_op("nginx:1.27")) },
        ],
        nested: None,
    };
    let ops = match ops_from_doc(doc) {
        Ok(r) => r,
        Err(e) => panic!("{e}"),
    };
    let names: Vec<&str> = ops.iter().map(|(n, _)| n.as_str()).collect();
    assert_eq!(names, vec!["zzz", "aaa"]);
    let sorted = sort_ops(ops);
    let names: Vec<&str> = sorted.iter().map(|(n, _)| n.as_str()).collect();
    assert_eq!(names, vec!["aaa", "zzz"]);
}

#[test]
fn ops_doc_errors() {
    assert!(matches!(ops_from_doc(OpsDoc::Empty), Ok(v) if v.is_empty()));
    assert_eq!(
        err_of(ops_from_doc(OpsDoc::NotMapping)),
        "ops.yml must be a mapping of op name -> definition"
    );
    assert_eq!(
        err_of(ops_from_doc(OpsDoc::Unreadable("bad".to_string()))),
        "invalid ops.yml: bad"
    );
    let refused = OpsDoc::Mapping {
        flat: vec![OpEntry {
            name: Some("test".to_string()),
            value: OpValue::Invalid("missing field `image`".to_string()),
        }],
        nested: None,
    };
    assert!(ops_from_doc(refused).is_err());
}

#[test]
fn op_without_image_is_refused() {
    let mut op = Op::default();
    op.name = Some("whatever".to_string());
    let doc = OpsDoc::Mapping {
        flat: vec![OpEntry { name: Some("test".to_string()), value: OpValue::Parsed(op) }],
        nested: None,
    };
    let err = err_of(ops_from_doc(doc));
    assert!(err.contains("missing required field 'image'"), "{err}");
}

#[test]
fn choose_ops_prefers_a_flat_document() {
    let flat: Result<Vec<(String, Op)>, String> = Err("flat".to_string());
    let nested = Some(Ok(vec![("x".to_string(), image_op("alpine"))]));
    let r = match choose_ops(flat, nested) {
        Ok(r) => r,
        Err(e) => panic!("{e}"),
    };
    assert_eq!(r[0].0, "x");
    let r = choose_ops(Err("flat".to_string()), None);
    assert_eq!(err_of(r), "flat");
}
