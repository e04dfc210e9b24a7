use dockui::inspect::{
    details_from_inspect, mount_text, port_texts, restart_policy_text, Inspected, MountKind,
    MountPoint, PortEntry,
};
use dockui::ops::{ContainerSpec, GpuRequest, HostSpec, PortBinding, RestartName, RestartPolicy};

fn s(v: &str) -> String {
    v.to_string()
}

fn mount(kind: MountKind, name: Option<&str>, source: Option<&str>, rw: Option<bool>) -> MountPoint {
    MountPoint {
        kind,
        name: name.map(s),
        source: source.map(s),
        destination: Some(s("/data")),
        rw,
    }
}

fn bare_inspect() -> Inspected {
    Inspected {
        name: Some(s("/web")),
        image: Some(s("nginx:latest")),
        cmd: Some(vec![s("nginx"), s("-g"), s("daemon off;")]),
        entrypoint: None,
        env: Some(vec![s("A=1"), s("B=2")]),
        labels: Some(vec![(s("app"), s("web"))]),
        user: Some(s("www")),
        working_dir: Some(s("/srv")),
        tty: Some(true),
        ports: vec![
            PortEntry {
                port: s("80/tcp"),
                bindings: Some(vec![PortBinding {
                    host_ip: None,
                    host_port: Some(s("8080")),
                }]),
            },
            PortEntry { port: s("443/tcp"), bindings: None },
        ],
        mounts: Some(vec![mount(MountKind::Volume, Some("vol"), Some("/var/lib/x"), Some(true))]),
        networks: vec![s("bridge")],
        ip: Some(s("")),
        started_at: Some(s("2024-01-01T00:00:00Z")),
        finished_at: None,
        exit_code: Some(0),
        restart_count: Some(2),
        health: Some(s("healthy")),
        log_path: None,
        host: HostSpec::empty(),
    }
}

#[test]
fn mount_text_forms() {
    assert_eq!(
        mount_text(&mount(MountKind::Volume, Some("vol"), Some("/var/lib/x"), Some(true))),
        "/var/lib/x [vol] -> /data (volume, rw)"
    );
    assert_eq!(
        mount_text(&mount(MountKind::Bind, None, Some("/home/u"), Some(false))),
        "/home/u -> /data (bind, ro)"
    );
    assert_eq!(
        mount_text(&mount(MountKind::Tmpfs, Some("t"), None, None)),
        "t -> /data (tmpfs, ro)"
    );
    let mut m = mount(MountKind::Other, None, None, Some(true));
    m.destination = None;
    assert_eq!(mount_text(&m), "? -> ? (?, rw)");
}

#[test]
fn port_texts_lists_bindings_and_unpublished() {
    let ports = vec![
        PortEntry {
            port: s("80/tcp"),
            bindings: Some(vec![
                PortBinding { host_ip: Some(s("127.0.0.1")), host_port: Some(s("8080")) },
                PortBinding { host_ip: None, host_port: None },
            ]),
        },
        PortEntry { port: s("53/udp"), bindings: None },
        PortEntry { port: s("22/tcp"), bindings: Some(vec![]) },
    ];
    assert_eq!(
        port_texts(&ports),
        vec![
            s("127.0.0.1:8080 -> 80/tcp"),
            s("0.0.0.0:? -> 80/tcp"),
            s("53/udp (unpublished)")
        ]
    );
}

#[test]
fn restart_policy_text_forms() {
    let p = |name: Option<RestartName>, n: Option<i64>| {
        Some(RestartPolicy { name, maximum_retry_count: n })
    };
    assert_eq!(restart_policy_text(&None), None);
    assert_eq!(restart_policy_text(&p(None, Some(3))), None);
    assert_eq!(restart_policy_text(&p(Some(RestartName::Always), None)), Some(s("always")));
    assert_eq!(
        restart_policy_text(&p(Some(RestartName::OnFailure), Some(5))),
        Some(s("on-failure:5"))
    );
    assert_eq!(
        restart_policy_text(&p(Some(RestartName::UnlessStopped), Some(0))),
        Some(s("unless-stopped"))
    );
    assert_eq!(restart_policy_text(&p(Some(RestartName::No), Some(-1))), Some(s("no")));
}

#[test]
fn spec_from_inspect_strips_name_and_copies_config() {
    let mut i = bare_inspect();
    i.name = Some(s("//db"));
    i.tty = None;
    i.env = None;
    let spec = ContainerSpec::from_inspect(&i);
    assert_eq!(spec.name, Some(s("db")));
    assert_eq!(spec.image, Some(s("nginx:latest")));
    assert_eq!(spec.cmd, Some(vec![s("nginx"), s("-g"), s("daemon off;")]));
    assert_eq!(spec.entrypoint, None);
    assert!(spec.env.is_empty());
    assert_eq!(spec.labels, vec![(s("app"), s("web"))]);
    assert_eq!(spec.user, Some(s("www")));
    assert_eq!(spec.working_dir, Some(s("/srv")));
    assert!(!spec.tty);
}

#[test]
fn details_from_inspect_fills_pane() {
    let mut i = bare_inspect();
    i.host.privileged = Some(true);
    i.host.auto_remove = Some(false);
    i.host.shm_size = Some(1024);
    i.host.network_mode = Some(s("host"));
    i.host.restart_policy =
        Some(RestartPolicy { name: Some(RestartName::OnFailure), maximum_retry_count: Some(3) });
    i.host.device_requests = Some(vec![GpuRequest {
        driver: Some(s("nvidia")),
        count: Some(-1),
        device_ids: None,
        capabilities: Some(vec![vec![s("gpu")]]),
    }]);
    let d = details_from_inspect(&i);
    assert_eq!(d.env, vec![s("A=1"), s("B=2")]);
    assert_eq!(d.ports, vec![s("0.0.0.0:8080 -> 80/tcp"), s("443/tcp (unpublished)")]);
    assert_eq!(d.mounts, vec![s("/var/lib/x [vol] -> /data (volume, rw)")]);
    assert_eq!(d.networks, vec![s("bridge")]);
    // an empty address reads as none
    assert_eq!(d.ip, None);
    assert_eq!(d.cmd, "nginx -g daemon off;");
    assert_eq!(d.entrypoint, "");
    assert_eq!(d.exit_code, Some(0));
    assert_eq!(d.restart_count, Some(2));
    assert_eq!(d.health, Some(s("healthy")));
    assert!(d.privileged);
    assert!(!d.auto_remove);
    assert_eq!(d.shm_size, Some(1024));
    assert_eq!(d.network_mode, Some(s("host")));
    assert_eq!(d.restart_policy, Some(s("on-failure:3")));
    assert_eq!(d.gpus, vec![s("all")]);
    let spec = d.spec.expect("inspect always yields a spec");
    assert_eq!(spec.name, Some(s("web")));
    assert!(spec.tty);
}
