//! The sample fleet demo mode shows: containers, volumes, inspect details,
//! and the numbers its fake streams are made of.
use vstd::prelude::*;

use crate::model::{
    Container, ContainerDetails, DockerEvent, StatsSample, Volume, LABEL_CONFIG_FILES, LABEL_PROJECT, LABEL_SERVICE,
    LABEL_WORKING_DIR,
};
use crate::docker::{ctx_views, endpoint_kind, DockerContext};
use crate::text::{concat2, concat3, dec, has_infix, owned, push_str, u64_text};
use crate::util::strs;

verus! {

/// Deterministic pseudo-random numbers (a 64-bit linear congruential
/// generator).
pub struct Lcg(pub u64);

/// The generator state after one step: `s * 6364136223846793005 +
/// 1442695040888963407`, wrapping.
pub open spec fn lcg_step(s: u64) -> u64 {
    vstd::wrapping::u64_specs::wrapping_add(
        vstd::wrapping::u64_specs::wrapping_mul(s, 6364136223846793005),
        1442695040888963407,
    )
}

impl Lcg {
    /// Advance the generator; the high 31 bits of the new state.
    pub fn next(&mut self) -> (r: u64)
        ensures
            final(self).0 == lcg_step(old(self).0),
            r == final(self).0 >> 33,
    {
        self.0 = self.0.wrapping_mul(6364136223846793005).wrapping_add(1442695040888963407);
        self.0 >> 33
    }
}

/// The labels a demo container of `project`/`service` carries.
pub open spec fn mock_labels(project: Option<Seq<char>>, service: Option<Seq<char>>) -> Seq<
    (Seq<char>, Seq<char>),
> {
    (match project {
        Some(p) => seq![
            (LABEL_PROJECT@, p),
            (LABEL_WORKING_DIR@, "/home/stephen/projects/"@ + p),
            (LABEL_CONFIG_FILES@, "/home/stephen/projects/"@ + p + "/docker-compose.yml"@),
        ],
        None => Seq::empty(),
    }) + (match service {
        Some(s) => seq![(LABEL_SERVICE@, s)],
        None => Seq::empty(),
    })
}

/// The views of a label list.
pub open spec fn labels_view(l: Seq<(String, String)>) -> Seq<(Seq<char>, Seq<char>)> {
    l.map_values(|p: (String, String)| (p.0@, p.1@))
}

/// `c` is the demo container with these attributes.
pub open spec fn is_mock_container(
    c: Container,
    id: Seq<char>,
    name: Seq<char>,
    image: Seq<char>,
    state: Seq<char>,
    status: Seq<char>,
    project: Option<Seq<char>>,
    service: Option<Seq<char>>,
) -> bool {
    &&& c.id@ == id
    &&& c.name@ == name
    &&& c.image@ == image
    &&& c.state@ == state
    &&& c.status@ == status
    &&& c.created == 1761300000
    &&& c.command@ == image + " serve"@
    &&& labels_view(c.labels@) == mock_labels(project, service)
    &&& strs(c.ports@) == if state == "running"@ {
        seq!["0.0.0.0:808"@ + dec((id.len() % 9) as nat) + "->80/tcp"@]
    } else {
        Seq::<Seq<char>>::empty()
    }
}

fn push_label(labels: &mut Vec<(String, String)>, k: &str, v: String)
    ensures
        labels_view(final(labels)@) == labels_view(old(labels)@).push((k@, v@)),
{
    let ghost before = labels@;
    labels.push((owned(k), v));
    assert(labels_view(labels@) =~= labels_view(before).push((k@, v@)));
}

/// A demo container.
pub fn container(
    id: &str,
    name: &str,
    image: &str,
    state: &str,
    status: &str,
    project: Option<&str>,
    service: Option<&str>,
) -> (r: Container)
    ensures
        is_mock_container(
            r,
            id@,
            name@,
            image@,
            state@,
            status@,
            match project {
                Some(p) => Some(p@),
                None => None,
            },
            match service {
                Some(s) => Some(s@),
                None => None,
            },
        ),
{
    let mut labels: Vec<(String, String)> = Vec::new();
    let ghost pv = match project {
        Some(p) => Some(p@),
        None => None::<Seq<char>>,
    };
    let ghost sv = match service {
        Some(s) => Some(s@),
        None => None::<Seq<char>>,
    };
    if let Some(p) = project {
        push_label(&mut labels, LABEL_PROJECT, owned(p));
        push_label(&mut labels, LABEL_WORKING_DIR, concat2("/home/stephen/projects/", p));
        push_label(
            &mut labels,
            LABEL_CONFIG_FILES,
            concat3("/home/stephen/projects/", p, "/docker-compose.yml"),
        );
    }
    assert(labels_view(labels@) =~= (match pv {
        Some(p) => seq![
            (LABEL_PROJECT@, p),
            (LABEL_WORKING_DIR@, "/home/stephen/projects/"@ + p),
            (LABEL_CONFIG_FILES@, "/home/stephen/projects/"@ + p + "/docker-compose.yml"@),
        ],
        None => Seq::<(Seq<char>, Seq<char>)>::empty(),
    }));
    let ghost first = labels_view(labels@);
    if let Some(s) = service {
        push_label(&mut labels, LABEL_SERVICE, owned(s));
    }
    assert(labels_view(labels@) =~= first + (match sv {
        Some(s) => seq![(LABEL_SERVICE@, s)],
        None => Seq::<(Seq<char>, Seq<char>)>::empty(),
    }));
    let mut ports: Vec<String> = Vec::new();
    if crate::text::eq_str(state, "running") {
        let n = crate::text::chars_of(id).len() % 9;
        let digits = u64_text(n as u64);
        let mut p = concat2("0.0.0.0:808", digits.as_str());
        push_str(&mut p, "->80/tcp");
        ports.push(p);
        assert(strs(ports@) =~= seq!["0.0.0.0:808"@ + dec((id@.len() % 9) as nat) + "->80/tcp"@]);
    } else {
        assert(strs(ports@) =~= Seq::<Seq<char>>::empty());
    }
    Container {
        id: owned(id),
        name: owned(name),
        image: owned(image),
        state: owned(state),
        status: owned(status),
        created: 1761300000,
        command: concat2(image, " serve"),
        labels,
        ports,
    }
}

/// The demo fleet, row by row: id, name, image, state, status, compose
/// project and service.
pub open spec fn sample_row(i: int) -> (
    Seq<char>,
    Seq<char>,
    Seq<char>,
    Seq<char>,
    Seq<char>,
    Option<Seq<char>>,
    Option<Seq<char>>,
) {
    if i == 0 {
        (
            "a1b2c3d4e5f6a7b8c9d0e1f2a3b4c5d6e7f8a9b0"@,
            "webshop-web-1"@,
            "nginx:1.27"@,
            "running"@,
            "Up 2 hours (healthy)"@,
            Some("webshop"@),
            Some("web"@),
        )
    } else if i == 1 {
        (
            "b2c3d4e5f6a7b8c9d0e1f2a3b4c5d6e7f8a9b0c"@,
            "webshop-api-1"@,
            "ghcr.io/webshop/api:v2.4.1"@,
            "running"@,
            "Up 2 hours"@,
            Some("webshop"@),
            Some("api"@),
        )
    } else if i == 2 {
        (
            "c3d4e5f6a7b8c9d0e1f2a3b4c5d6e7f8a9b0c1"@,
            "webshop-db-1"@,
            "postgres:16.2"@,
            "running"@,
            "Up 2 hours (healthy)"@,
            Some("webshop"@),
            Some("db"@),
        )
    } else if i == 3 {
        (
            "d4e5f6a7b8c9d0e1f2a3b4c5d6e7f8a9b0c1d"@,
            "webshop-redis-1"@,
            "redis:7.2-alpine"@,
            "exited"@,
            "Exited (0) 26 minutes ago"@,
            Some("webshop"@),
            Some("redis"@),
        )
    } else if i == 4 {
        (
            "e5f6a7b8c9d0e1f2a3b4c5d6e7f8a9b0c1d2"@,
            "obs-prometheus-1"@,
            "prom/prometheus:v2.51.0"@,
            "running"@,
            "Up 5 days"@,
            Some("observability"@),
            Some("prometheus"@),
        )
    } else if i == 5 {
        (
            "f6a7b8c9d0e1f2a3b4c5d6e7f8a9b0c1d2e"@,
            "obs-grafana-1"@,
            "grafana/grafana:10.4.2"@,
            "running"@,
            "Up 5 days (healthy)"@,
            Some("observability"@),
            Some("grafana"@),
        )
    } else if i == 6 {
        (
            "0a1b2c3d4e5f6a7b8c9d0e1f2a3b4c5d6e7f8"@,
            "registry"@,
            "registry:2.8.3"@,
            "running"@,
            "Up 5 days"@,
            None,
            None,
        )
    } else {
        (
            "1a2b3c4d5e6f7a8b9c0d1e2f3a4b5c6d7e8f9"@,
            "sandbox"@,
            "alpine:3.20"@,
            "exited"@,
            "Exited (137) 3 hours ago"@,
            None,
            None,
        )
    }
}

/// `c` is row `i` of the demo fleet.
pub open spec fn is_sample(c: Container, i: int) -> bool {
    let r = sample_row(i);
    is_mock_container(c, r.0, r.1, r.2, r.3, r.4, r.5, r.6)
}

/// The demo fleet.
pub fn sample_containers() -> (r: Vec<Container>)
    ensures
        r@.len() == 8,
        forall|i: int| 0 <= i < 8 ==> is_sample(#[trigger] r@[i], i),
{
    let mut v: Vec<Container> = Vec::new();
    v.push(
        container(
            "a1b2c3d4e5f6a7b8c9d0e1f2a3b4c5d6e7f8a9b0",
            "webshop-web-1",
            "nginx:1.27",
            "running",
            "Up 2 hours (healthy)",
            Some("webshop"),
            Some("web"),
        ),
    );
    v.push(
        container(
            "b2c3d4e5f6a7b8c9d0e1f2a3b4c5d6e7f8a9b0c",
            "webshop-api-1",
            "ghcr.io/webshop/api:v2.4.1",
            "running",
            "Up 2 hours",
            Some("webshop"),
            Some("api"),
        ),
    );
    v.push(
        container(
            "c3d4e5f6a7b8c9d0e1f2a3b4c5d6e7f8a9b0c1",
            "webshop-db-1",
            "postgres:16.2",
            "running",
            "Up 2 hours (healthy)",
            Some("webshop"),
            Some("db"),
        ),
    );
    v.push(
        container(
            "d4e5f6a7b8c9d0e1f2a3b4c5d6e7f8a9b0c1d",
            "webshop-redis-1",
            "redis:7.2-alpine",
            "exited",
            "Exited (0) 26 minutes ago",
            Some("webshop"),
            Some("redis"),
        ),
    );
    v.push(
        container(
            "e5f6a7b8c9d0e1f2a3b4c5d6e7f8a9b0c1d2",
            "obs-prometheus-1",
            "prom/prometheus:v2.51.0",
            "running",
            "Up 5 days",
            Some("observability"),
            Some("prometheus"),
        ),
    );
    v.push(
        container(
            "f6a7b8c9d0e1f2a3b4c5d6e7f8a9b0c1d2e",
            "obs-grafana-1",
            "grafana/grafana:10.4.2",
            "running",
            "Up 5 days (healthy)",
            Some("observability"),
            Some("grafana"),
        ),
    );
    v.push(
        container(
            "0a1b2c3d4e5f6a7b8c9d0e1f2a3b4c5d6e7f8",
            "registry",
            "registry:2.8.3",
            "running",
            "Up 5 days",
            None,
            None,
        ),
    );
    v.push(
        container(
            "1a2b3c4d5e6f7a8b9c0d1e2f3a4b5c6d7e8f9",
            "sandbox",
            "alpine:3.20",
            "exited",
            "Exited (137) 3 hours ago",
            None,
            None,
        ),
    );
    v
}

/// `v` is the demo volume with these attributes.
pub open spec fn is_mock_volume(
    v: Volume,
    name: Seq<char>,
    size: u64,
    rc: u64,
    project: Option<Seq<char>>,
) -> bool {
    &&& v.name@ == name
    &&& v.driver@ == "local"@
    &&& v.scope@ == "local"@
    &&& v.mountpoint@ == "/var/lib/docker/volumes/"@ + name + "/_data"@
    &&& labels_view(v.labels@) == match project {
        Some(p) => seq![(LABEL_PROJECT@, p)],
        None => Seq::empty(),
    }
    &&& v.size == Some(size)
    &&& v.ref_count == Some(rc)
}

fn volume(name: &str, size: u64, rc: u64, project: Option<&str>) -> (r: Volume)
    ensures
        is_mock_volume(
            r,
            name@,
            size,
            rc,
            match project {
                Some(p) => Some(p@),
                None => None,
            },
        ),
{
    let mut labels: Vec<(String, String)> = Vec::new();
    if let Some(p) = project {
        push_label(&mut labels, LABEL_PROJECT, owned(p));
    }
    assert(labels_view(labels@) =~= match project {
        Some(p) => seq![(LABEL_PROJECT@, p@)],
        None => Seq::<(Seq<char>, Seq<char>)>::empty(),
    });
    Volume {
        name: owned(name),
        driver: owned("local"),
        scope: owned("local"),
        mountpoint: concat3("/var/lib/docker/volumes/", name, "/_data"),
        labels,
        size: Some(size),
        ref_count: Some(rc),
    }
}

/// The demo volumes.
pub fn sample_volumes() -> (r: Vec<Volume>)
    ensures
        r@.len() == 5,
        is_mock_volume(r@[0], "webshop_pgdata"@, 483183820, 1, Some("webshop"@)),
        is_mock_volume(r@[1], "webshop_redis"@, 4194304, 1, Some("webshop"@)),
        is_mock_volume(r@[2], "obs_prometheus_data"@, 2147483648, 1, Some("observability"@)),
        is_mock_volume(r@[3], "obs_grafana_data"@, 314572800, 1, Some("observability"@)),
        is_mock_volume(r@[4], "registry_data"@, 7516192768, 1, None),
{
    let mut v: Vec<Volume> = Vec::new();
    v.push(volume("webshop_pgdata", 483183820, 1, Some("webshop")));
    v.push(volume("webshop_redis", 4194304, 1, Some("webshop")));
    v.push(volume("obs_prometheus_data", 2147483648, 1, Some("observability")));
    v.push(volume("obs_grafana_data", 314572800, 1, Some("observability")));
    v.push(volume("registry_data", 7516192768, 1, None));
    v
}

/// The first character of `s`, if any.
pub open spec fn first_char(s: Seq<char>) -> Option<char> {
    if s.len() > 0 {
        Some(s[0])
    } else {
        None
    }
}

/// At most the first `n` characters of `s`.
pub open spec fn take_at_most(s: Seq<char>, n: int) -> Seq<char> {
    if s.len() >= n {
        s.take(n)
    } else {
        s
    }
}

/// The environment a demo container shows, by the first character of its id.
pub open spec fn sample_env(id: Seq<char>) -> Seq<Seq<char>> {
    if first_char(id) == Some('a') {
        seq![
            "PATH=/usr/local/sbin:/usr/local/bin:/usr/sbin:/usr/bin:/sbin:/bin"@,
            "NGINX_VERSION=1.27.0"@,
            "NJS_VERSION=0.8.4"@,
            "PKG_RELEASE=2~bookworm"@,
        ]
    } else if first_char(id) == Some('c') {
        seq![
            "PATH=/usr/local/sbin:/usr/local/bin:/usr/sbin:/usr/bin:/sbin:/bin"@,
            "PGDATA=/var/lib/postgresql/data"@,
            "POSTGRES_DB=webshop"@,
            "POSTGRES_USER=webshop"@,
            "POSTGRES_PASSWORD=hunter2"@,
        ]
    } else {
        seq!["PATH=/usr/local/sbin:/usr/local/bin"@, "APP_ENV=production"@, "LOG_LEVEL=info"@]
    }
}

/// The container name a demo id belongs to.
pub open spec fn sample_name(id: Seq<char>) -> Seq<char> {
    let c = first_char(id);
    if c == Some('a') {
        "webshop-web-1"@
    } else if c == Some('b') {
        "webshop-api-1"@
    } else if c == Some('c') {
        "webshop-db-1"@
    } else if c == Some('d') {
        "webshop-redis-1"@
    } else if c == Some('e') {
        "obs-prometheus-1"@
    } else if c == Some('f') {
        "obs-grafana-1"@
    } else if c == Some('0') {
        "registry"@
    } else {
        "sandbox"@
    }
}

/// The image a demo id's recreate spec names.
pub open spec fn sample_image(id: Seq<char>) -> Seq<char> {
    let c = first_char(id);
    if c == Some('a') {
        "nginx:1.27"@
    } else if c == Some('b') {
        "ghcr.io/webshop/api:v2.4.1"@
    } else if c == Some('c') {
        "postgres:16.2"@
    } else {
        "alpine:3.20"@
    }
}

/// The host settings of a demo container: the api container (ids starting
/// with `b`) shows privileged mode, all GPUs and host namespaces.
pub open spec fn sample_host(h: crate::ops::HostSpec, id: Seq<char>) -> bool {
    if first_char(id) == Some('b') {
        &&& h.privileged == Some(true)
        &&& h.device_requests is Some
        &&& h.device_requests->0@.len() == 1
        &&& crate::actions::counts_gpus(h.device_requests->0@[0], -1i64)
        &&& crate::ops::opt_view(h.network_mode) == Some("host"@)
        &&& crate::ops::opt_view(h.pid_mode) == Some("host"@)
        &&& crate::ops::opt_view(h.ipc_mode) == Some("host"@)
        &&& h.binds is None && h.port_bindings is None && h.auto_remove is None
        &&& h.restart_policy is None && h.shm_size is None && h.base is None
    } else {
        &&& h.privileged is None && h.device_requests is None && h.network_mode is None
        &&& h.pid_mode is None && h.ipc_mode is None && h.binds is None
        &&& h.port_bindings is None && h.auto_remove is None && h.restart_policy is None
        &&& h.shm_size is None && h.base is None
    }
}

/// `d` is the inspect data demo mode shows for container `id`.
pub open spec fn is_sample_details(d: ContainerDetails, id: Seq<char>) -> bool {
    &&& strs(d.env@) == sample_env(id)
    &&& strs(d.ports@) == seq!["0.0.0.0:8080 -> 80/tcp"@]
    &&& strs(d.mounts@) == seq![
        "webshop_site -> /usr/share/nginx/html (volume, rw)"@,
        "/home/stephen/projects/webshop/nginx.conf -> /etc/nginx/conf.d/default.conf (bind, ro)"@,
    ]
    &&& strs(d.networks@) == seq![take_at_most(id, 4) + "_default"@, "bridge"@]
    &&& crate::ops::opt_view(d.ip) == if first_char(id) == Some('a') {
        Some("172.18.0.2"@)
    } else {
        None
    }
    &&& d.cmd@ == "serve"@
    &&& d.entrypoint@ == "/docker-entrypoint.sh"@
    &&& crate::ops::opt_view(d.working_dir) == Some("/app"@)
    &&& crate::ops::opt_view(d.started_at) == Some("2026-09-20T06:31:12.441Z"@)
    &&& d.finished_at is None
    &&& d.exit_code == Some(0i64)
    &&& d.restart_count == Some(0i64)
    &&& crate::ops::opt_view(d.health) == Some("healthy"@)
    &&& crate::ops::opt_view(d.log_path) == Some(
        "/var/lib/docker/containers/"@ + id + "/"@ + take_at_most(id, 6) + "-json.log"@,
    )
    &&& d.user is None
    &&& d.privileged == (first_char(id) == Some('b'))
    &&& strs(d.gpus@) == if first_char(id) == Some('b') {
        seq!["all"@]
    } else {
        Seq::<Seq<char>>::empty()
    }
    &&& d.restart_policy is None
    &&& crate::ops::opt_view(d.network_mode) == if first_char(id) == Some('b') {
        Some("host"@)
    } else {
        None
    }
    &&& crate::ops::opt_view(d.pid_mode) == crate::ops::opt_view(d.network_mode)
    &&& crate::ops::opt_view(d.ipc_mode) == crate::ops::opt_view(d.network_mode)
    &&& !d.auto_remove
    &&& d.shm_size is None
    &&& d.spec is Some
    &&& crate::ops::opt_view(d.spec->0.name) == Some(sample_name(id))
    &&& crate::ops::opt_view(d.spec->0.image) == Some(sample_image(id))
    &&& crate::ops::opt_strs(d.spec->0.cmd) == Some(seq!["serve"@])
    &&& crate::ops::opt_strs(d.spec->0.entrypoint) == Some(seq!["/docker-entrypoint.sh"@])
    &&& strs(d.spec->0.env@) == sample_env(id)
    &&& d.spec->0.labels@.len() == 0
    &&& d.spec->0.user is None
    &&& crate::ops::opt_view(d.spec->0.working_dir) == Some("/app"@)
    &&& !d.spec->0.tty
    &&& sample_host(d.spec->0.host, id)
}

fn strings_of(items: &[&str]) -> (r: Vec<String>)
    ensures
        strs(r@) == items@.map_values(|s: &str| s@),
{
    let mut v: Vec<String> = Vec::new();
    let mut i: usize = 0;
    while i < items.len()
        invariant
            i <= items@.len(),
            strs(v@) == items@.take(i as int).map_values(|s: &str| s@),
        decreases items@.len() - i,
    {
        let ghost before = v@;
        let t = owned(items[i]);
        v.push(t);
        proof {
            crate::text::lemma_map_push(before, t, |s: String| s@);
            crate::text::lemma_map_take_succ(items@, i as int, |s: &str| s@);
        }
        i += 1;
    }
    assert(items@.take(items@.len() as int) =~= items@);
    v
}

fn take_chars(id: &str, n: usize) -> (r: String)
    ensures
        r@ == take_at_most(id@, n as int),
{
    let v = crate::text::chars_of(id);
    let k = if v.len() >= n {
        n
    } else {
        v.len()
    };
    let t = crate::text::slice_chars(&v, 0, k);
    assert(t@ =~= take_at_most(id@, n as int));
    crate::text::string_of(&t)
}

fn first_of(id: &str) -> (r: Option<char>)
    ensures
        r == first_char(id@),
{
    let v = crate::text::chars_of(id);
    if v.len() > 0 {
        Some(v[0])
    } else {
        None
    }
}

fn sample_env_strings(id: &str) -> (r: Vec<String>)
    ensures
        strs(r@) == sample_env(id@),
{
    let first = first_of(id);
    if first == Some('a') {
        let a = [
            "PATH=/usr/local/sbin:/usr/local/bin:/usr/sbin:/usr/bin:/sbin:/bin",
            "NGINX_VERSION=1.27.0",
            "NJS_VERSION=0.8.4",
            "PKG_RELEASE=2~bookworm",
        ];
        let r = strings_of(&a);
        assert(a@.map_values(|s: &str| s@) =~= sample_env(id@));
        r
    } else if first == Some('c') {
        let a = [
            "PATH=/usr/local/sbin:/usr/local/bin:/usr/sbin:/usr/bin:/sbin:/bin",
            "PGDATA=/var/lib/postgresql/data",
            "POSTGRES_DB=webshop",
            "POSTGRES_USER=webshop",
            "POSTGRES_PASSWORD=hunter2",
        ];
        let r = strings_of(&a);
        assert(a@.map_values(|s: &str| s@) =~= sample_env(id@));
        r
    } else {
        let a = ["PATH=/usr/local/sbin:/usr/local/bin", "APP_ENV=production", "LOG_LEVEL=info"];
        let r = strings_of(&a);
        assert(a@.map_values(|s: &str| s@) =~= sample_env(id@));
        r
    }
}

fn sample_name_of(id: &str) -> (r: &'static str)
    ensures
        r@ == sample_name(id@),
{
    let c = first_of(id);
    if c == Some('a') {
        "webshop-web-1"
    } else if c == Some('b') {
        "webshop-api-1"
    } else if c == Some('c') {
        "webshop-db-1"
    } else if c == Some('d') {
        "webshop-redis-1"
    } else if c == Some('e') {
        "obs-prometheus-1"
    } else if c == Some('f') {
        "obs-grafana-1"
    } else if c == Some('0') {
        "registry"
    } else {
        "sandbox"
    }
}

fn sample_image_of(id: &str) -> (r: &'static str)
    ensures
        r@ == sample_image(id@),
{
    let c = first_of(id);
    if c == Some('a') {
        "nginx:1.27"
    } else if c == Some('b') {
        "ghcr.io/webshop/api:v2.4.1"
    } else if c == Some('c') {
        "postgres:16.2"
    } else {
        "alpine:3.20"
    }
}

/// The inspect data demo mode shows for a container; the api container
/// demonstrates privileged mode, GPUs and host namespaces.
pub fn sample_details(id: &str) -> (r: ContainerDetails)
    ensures
        is_sample_details(r, id@),
{
    let first = first_of(id);
    let env = sample_env_strings(id);
    let demo_gpu = first == Some('b');
    let mut host = crate::ops::HostSpec::empty();
    if demo_gpu {
        host.privileged = Some(true);
        let mut reqs: Vec<crate::ops::GpuRequest> = Vec::new();
        reqs.push(crate::ops::GpuSpec::Count(-1).to_request());
        host.device_requests = Some(reqs);
        host.network_mode = Some(owned("host"));
        host.pid_mode = Some(owned("host"));
        host.ipc_mode = Some(owned("host"));
    }
    let spec = crate::ops::ContainerSpec {
        name: Some(owned(sample_name_of(id))),
        image: Some(owned(sample_image_of(id))),
        cmd: Some(strings_of(&["serve"])),
        entrypoint: Some(strings_of(&["/docker-entrypoint.sh"])),
        env: crate::model::clone_strings(&env),
        labels: Vec::new(),
        user: None,
        working_dir: Some(owned("/app")),
        tty: false,
        host: host.clone(),
    };
    let mut net = take_chars(id, 4);
    push_str(&mut net, "_default");
    let mut networks: Vec<String> = Vec::new();
    networks.push(net);
    networks.push(owned("bridge"));
    let mut log = concat3("/var/lib/docker/containers/", id, "/");
    let six = take_chars(id, 6);
    push_str(&mut log, six.as_str());
    push_str(&mut log, "-json.log");
    let gpus = crate::actions::gpu_summary(&host);
    proof {
        if demo_gpu {
            reveal_strlit("all");
            assert(strs(gpus@) =~= seq!["all"@]);
        } else {
            assert(strs(gpus@) =~= Seq::<Seq<char>>::empty());
        }
    }
    let r = ContainerDetails {
        env,
        ports: strings_of(&["0.0.0.0:8080 -> 80/tcp"]),
        mounts: strings_of(
            &[
                "webshop_site -> /usr/share/nginx/html (volume, rw)",
                "/home/stephen/projects/webshop/nginx.conf -> /etc/nginx/conf.d/default.conf (bind, ro)",
            ],
        ),
        networks,
        ip: if first == Some('a') {
            Some(owned("172.18.0.2"))
        } else {
            None
        },
        cmd: owned("serve"),
        entrypoint: owned("/docker-entrypoint.sh"),
        working_dir: Some(owned("/app")),
        started_at: Some(owned("2026-09-20T06:31:12.441Z")),
        finished_at: None,
        exit_code: Some(0),
        restart_count: Some(0),
        health: Some(owned("healthy")),
        log_path: Some(log),
        user: None,
        privileged: demo_gpu,
        gpus,
        restart_policy: None,
        network_mode: crate::ops::clone_opt(&host.network_mode),
        pid_mode: crate::ops::clone_opt(&host.pid_mode),
        ipc_mode: crate::ops::clone_opt(&host.ipc_mode),
        auto_remove: false,
        shm_size: None,
        spec: Some(spec),
    };
    assert(strs(r.networks@) =~= seq![take_at_most(id@, 4) + "_default"@, "bridge"@]);
    assert(strs(r.env@) == sample_env(id@));
    assert(strs(r.ports@) == seq!["0.0.0.0:8080 -> 80/tcp"@]);
    assert(crate::ops::opt_view(r.log_path) == Some(
        "/var/lib/docker/containers/"@ + id@ + "/"@ + take_at_most(id@, 6) + "-json.log"@,
    ));
    assert(sample_host(host, id@));
    proof {
        if demo_gpu {
            let a = r.spec->0.host.device_requests->0@;
            let b = host.device_requests->0@;
            assert(crate::ops::same_request(a[0], b[0]));
            crate::actions::lemma_same_request_counts(a[0], b[0], -1i64);
        }
    }
    assert(sample_host(r.spec->0.host, id@));
    assert(crate::ops::opt_strs(r.spec->0.cmd) == Some(seq!["serve"@]));
    assert(strs(r.spec->0.env@) == sample_env(id@));
    assert(strs(r.mounts@) == seq![
        "webshop_site -> /usr/share/nginx/html (volume, rw)"@,
        "/home/stephen/projects/webshop/nginx.conf -> /etc/nginx/conf.d/default.conf (bind, ro)"@,
    ]);
    assert(crate::ops::opt_view(r.ip) == if first_char(id@) == Some('a') {
        Some("172.18.0.2"@)
    } else {
        None
    });
    assert(crate::ops::opt_view(r.network_mode) == if first_char(id@) == Some('b') {
        Some("host"@)
    } else {
        None
    });
    assert(crate::ops::opt_strs(r.spec->0.entrypoint) == Some(seq!["/docker-entrypoint.sh"@]));
    assert(crate::ops::opt_view(r.spec->0.name) == Some(sample_name(id@)));
    assert(crate::ops::opt_view(r.spec->0.image) == Some(sample_image(id@)));
    assert(r.spec->0.labels@.len() == 0);
    assert(strs(r.gpus@) == if first_char(id@) == Some('b') {
        seq!["all"@]
    } else {
        Seq::<Seq<char>>::empty()
    });
    r
}

/// The contexts demo mode offers; the first is current.
pub fn demo_contexts() -> (r: Vec<DockerContext>)
    ensures
        ctx_views(r@) == seq![
            ("mock-local"@, "mock://local"@, endpoint_kind("mock://local"@), true),
            (
                "desktop-linux"@,
                "unix:///var/run/docker.sock"@,
                endpoint_kind("unix:///var/run/docker.sock"@),
                false,
            ),
            (
                "t480 (ssh)"@,
                "ssh://stephen@stephen-t480.local"@,
                endpoint_kind("ssh://stephen@stephen-t480.local"@),
                false,
            ),
        ],
{
    let mut v: Vec<DockerContext> = Vec::new();
    v.push(DockerContext::new(owned("mock-local"), owned("mock://local"), true));
    v.push(DockerContext::new(owned("desktop-linux"), owned("unix:///var/run/docker.sock"), false));
    v.push(
        DockerContext::new(owned("t480 (ssh)"), owned("ssh://stephen@stephen-t480.local"), false),
    );
    assert(ctx_views(v@) =~= seq![v@[0]@, v@[1]@, v@[2]@]);
    v
}

/// The canned log message number `i` of demo mode (there are twelve).
pub open spec fn canned_text(i: int) -> Seq<char> {
    if i == 0 {
        "GET /api/products 200 12ms"@
    } else if i == 1 {
        "GET /api/cart 200 3ms"@
    } else if i == 2 {
        "POST /api/checkout 201 145ms"@
    } else if i == 3 {
        "GET /healthz 200 1ms"@
    } else if i == 4 {
        "cache miss for key=products:page:3"@
    } else if i == 5 {
        "connection accepted from 172.18.0.5:52314"@
    } else if i == 6 {
        "WARN: slow query took 212ms (SELECT * FROM orders)"@
    } else if i == 7 {
        "database connection pool at 80% capacity"@
    } else if i == 8 {
        "reload requested via SIGHUP, reloading configuration"@
    } else if i == 9 {
        "GET /metrics 200 2ms"@
    } else if i == 10 {
        "INFO: worker process started with pid 97"@
    } else {
        "level=info msg=\"serving prometheus metrics\" addr=:9090"@
    }
}

/// The canned log message number `i`.
pub fn canned_line(i: u64) -> (r: &'static str)
    requires
        i < 12,
    ensures
        r@ == canned_text(i as int),
{
    if i == 0 {
        "GET /api/products 200 12ms"
    } else if i == 1 {
        "GET /api/cart 200 3ms"
    } else if i == 2 {
        "POST /api/checkout 201 145ms"
    } else if i == 3 {
        "GET /healthz 200 1ms"
    } else if i == 4 {
        "cache miss for key=products:page:3"
    } else if i == 5 {
        "connection accepted from 172.18.0.5:52314"
    } else if i == 6 {
        "WARN: slow query took 212ms (SELECT * FROM orders)"
    } else if i == 7 {
        "database connection pool at 80% capacity"
    } else if i == 8 {
        "reload requested via SIGHUP, reloading configuration"
    } else if i == 9 {
        "GET /metrics 200 2ms"
    } else if i == 10 {
        "INFO: worker process started with pid 97"
    } else {
        "level=info msg=\"serving prometheus metrics\" addr=:9090"
    }
}

// ---------------------------------------------------------------- ticks

/// The number the generator hands out from state `s`.
pub open spec fn draw(s: u64) -> u64 {
    lcg_step(s) >> 33
}

/// The generator state four draws after `s`.
pub open spec fn step4(s: u64) -> u64 {
    lcg_step(lcg_step(lcg_step(lcg_step(s))))
}

/// The CPU level, in percent, a demo container idles around, by its name.
pub open spec fn cpu_base_of(name: Seq<char>) -> u64 {
    if has_infix(name, "db"@) {
        22
    } else if has_infix(name, "api"@) {
        38
    } else if has_infix(name, "grafana"@) {
        6
    } else if has_infix(name, "prometheus"@) {
        11
    } else {
        3
    }
}

/// The memory, in bytes, a demo container idles around, by its name.
pub open spec fn mem_base_of(name: Seq<char>) -> u64 {
    if has_infix(name, "db"@) {
        412_000_000
    } else if has_infix(name, "api"@) {
        168_000_000
    } else if has_infix(name, "grafana"@) {
        234_000_000
    } else if has_infix(name, "prometheus"@) {
        389_000_000
    } else {
        12_000_000
    }
}

/// The memory limit every demo container reports (4 GiB).
pub const MOCK_MEM_LIMIT: u64 = 4_294_967_296;

/// What one second of demo mode sends.
pub enum MockEmit {
    /// A stats reading. Its CPU share is left at zero: it rests on a sine,
    /// so the caller works it out from `cpu_base` (percent) and
    /// `cpu_jitter` (tenths of a percent).
    Stats { id: String, cpu_base: u64, cpu_jitter: u64, sample: StatsSample },
    Event(DockerEvent),
    LogLine { name: String, line: String },
}

/// `e` is the stats reading of container `c` at second `tick`, drawn
/// from generator state `s` (four draws: CPU jitter, memory, received,
/// sent).
pub open spec fn stats_emit(e: MockEmit, c: Container, tick: u64, s: u64) -> bool {
    let s1 = lcg_step(s);
    let s2 = lcg_step(s1);
    let s3 = lcg_step(s2);
    match e {
        MockEmit::Stats { id, cpu_base, cpu_jitter, sample } => {
            &&& id@ == c.id@
            &&& cpu_base == cpu_base_of(c.name@)
            &&& cpu_jitter == draw(s) % 100
            &&& sample.cpu_centi == 0
            &&& sample.mem == mem_base_of(c.name@) + draw(s1) % 8_000_000
            &&& sample.mem_limit == MOCK_MEM_LIMIT
            &&& sample.mem_centi == crate::feed::mem_share(sample.mem, MOCK_MEM_LIMIT)
            &&& sample.net_rx == 1_048_576 * (tick % 97) + draw(s2) % 900_000
            &&& sample.net_tx == 524_288 * (tick % 61) + draw(s3) % 300_000
            &&& sample.blk_read == 1_048_576 * (tick % 43)
            &&& sample.blk_write == 524_288 * (tick % 29)
            &&& sample.pids == Some((8 + tick % 40) as u64)
        },
        _ => false,
    }
}

/// How many of `cs` are running.
pub open spec fn running_count(cs: Seq<Container>) -> nat
    decreases cs.len(),
{
    if cs.len() == 0 {
        0
    } else if cs.last().running() {
        running_count(cs.drop_last()) + 1
    } else {
        running_count(cs.drop_last())
    }
}

/// The generator state after the readings of `cs`, from `s`.
pub open spec fn after_stats(cs: Seq<Container>, s: u64) -> u64
    decreases cs.len(),
{
    if cs.len() == 0 {
        s
    } else if cs.last().running() {
        step4(after_stats(cs.drop_last(), s))
    } else {
        after_stats(cs.drop_last(), s)
    }
}

/// `es` are the readings of the running containers of `cs`, in order.
pub open spec fn stats_emits(es: Seq<MockEmit>, cs: Seq<Container>, tick: u64, s: u64) -> bool
    decreases cs.len(),
{
    if cs.len() == 0 {
        es.len() == 0
    } else if cs.last().running() {
        &&& es.len() > 0
        &&& stats_emits(es.drop_last(), cs.drop_last(), tick, s)
        &&& stats_emit(es.last(), cs.last(), tick, after_stats(cs.drop_last(), s))
    } else {
        stats_emits(es, cs.drop_last(), tick, s)
    }
}

/// `n` in decimal, with leading zeros to `w` digits.
pub open spec fn padded(n: nat, w: nat) -> Seq<char> {
    if dec(n).len() >= w {
        dec(n)
    } else {
        Seq::new((w - dec(n).len()) as nat, |i: int| '0') + dec(n)
    }
}

/// `e` is the log line of container `c` at second `tick`, drawn from
/// generator state `s` (two draws: the message, the milliseconds).
pub open spec fn log_emit(e: MockEmit, c: Container, tick: u64, s: u64) -> bool {
    match e {
        MockEmit::LogLine { name, line } => {
            &&& name@ == c.name@
            &&& line@ == "2026-09-20T08:"@ + padded((tick % 60) as nat, 2) + ":"@ + padded(
                ((tick * 7) % 60) as nat,
                2,
            ) + "."@ + padded((draw(lcg_step(s)) % 999) as nat, 3) + "Z "@ + canned_text(
                (draw(s) % 12) as int,
            )
        },
        _ => false,
    }
}

/// The generator state after the log lines of `cs`, from `s`.
pub open spec fn after_logs(cs: Seq<Container>, s: u64) -> u64
    decreases cs.len(),
{
    if cs.len() == 0 {
        s
    } else if cs.last().running() {
        lcg_step(lcg_step(after_logs(cs.drop_last(), s)))
    } else {
        after_logs(cs.drop_last(), s)
    }
}

/// `es` are the log lines of the running containers of `cs`, in order.
pub open spec fn log_emits(es: Seq<MockEmit>, cs: Seq<Container>, tick: u64, s: u64) -> bool
    decreases cs.len(),
{
    if cs.len() == 0 {
        es.len() == 0
    } else if cs.last().running() {
        &&& es.len() > 0
        &&& log_emits(es.drop_last(), cs.drop_last(), tick, s)
        &&& log_emit(es.last(), cs.last(), tick, after_logs(cs.drop_last(), s))
    } else {
        log_emits(es, cs.drop_last(), tick, s)
    }
}

/// `e` is the event of second `tick` (a multiple of four): about the
/// container it has come round to, a death on every eighth second and a
/// health report otherwise.
pub open spec fn event_emit(e: MockEmit, cs: Seq<Container>, tick: u64, now: i64) -> bool {
    let c = cs[((tick / 4) % (cs.len() as u64)) as int];
    match e {
        MockEmit::Event(ev) => {
            &&& ev.time == now
            &&& ev.typ@ == "container"@
            &&& ev.action@ == if tick % 8 == 0 {
                "die"@
            } else {
                "health_status: healthy"@
            }
            &&& ev.actor_id@ == c.id@
            &&& ev.actor_name@ == c.name@
            &&& ev.scope@ == "local"@
        },
        _ => false,
    }
}

/// Whether demo mode sends an event at second `tick`.
pub open spec fn event_due(tick: u64) -> bool {
    tick % 4 == 0
}

/// Whether demo mode sends log lines at second `tick`.
pub open spec fn logs_due(tick: u64) -> bool {
    tick % 2 == 0
}

fn name_has(name: &String, p: &str) -> (r: bool)
    ensures
        r == has_infix(name@, p@),
{
    let v = crate::text::chars_of(name.as_str());
    let q = crate::text::chars_of(p);
    crate::text::contains_chars(&v, &q)
}

/// The idle CPU level and memory of a demo container, by its name.
fn bases(name: &String) -> (r: (u64, u64))
    ensures
        r.0 == cpu_base_of(name@),
        r.1 == mem_base_of(name@),
{
    if name_has(name, "db") {
        (22, 412_000_000)
    } else if name_has(name, "api") {
        (38, 168_000_000)
    } else if name_has(name, "grafana") {
        (6, 234_000_000)
    } else if name_has(name, "prometheus") {
        (11, 389_000_000)
    } else {
        (3, 12_000_000)
    }
}

/// `n` in decimal with leading zeros to `w` digits.
fn padded_text(n: u64, w: usize) -> (r: String)
    ensures
        r@ == padded(n as nat, w as nat),
{
    let d = u64_text(n);
    let len = crate::text::chars_of(d.as_str()).len();
    if len >= w {
        return d;
    }
    let mut out = String::new();
    let mut k: usize = 0;
    while k < w - len
        invariant
            len < w,
            len == dec(n as nat).len(),
            k <= w - len,
            out@ == Seq::new(k as nat, |i: int| '0'),
        decreases w - len - k,
    {
        crate::text::push_char(&mut out, '0');
        assert(out@ =~= Seq::new((k + 1) as nat, |i: int| '0'));
        k += 1;
    }
    push_str(&mut out, d.as_str());
    out
}

/// One reading of a running demo container.
fn mock_stats(tick: u64, rng: &mut Lcg, c: &Container) -> (r: MockEmit)
    ensures
        stats_emit(r, *c, tick, old(rng).0),
        final(rng).0 == step4(old(rng).0),
{
    let (cpu_base, mem_base) = bases(&c.name);
    let cpu_jitter = rng.next() % 100;
    let mem = mem_base + rng.next() % 8_000_000;
    let net_rx = 1_048_576 * (tick % 97) + rng.next() % 900_000;
    let net_tx = 524_288 * (tick % 61) + rng.next() % 300_000;
    let mem_centi = ((mem as u128 * 10000) / (MOCK_MEM_LIMIT as u128)) as u64;
    MockEmit::Stats {
        id: c.id.clone(),
        cpu_base,
        cpu_jitter,
        sample: StatsSample {
            cpu_centi: 0,
            mem,
            mem_limit: MOCK_MEM_LIMIT,
            mem_centi,
            net_rx,
            net_tx,
            blk_read: 1_048_576 * (tick % 43),
            blk_write: 524_288 * (tick % 29),
            pids: Some(8 + tick % 40),
        },
    }
}

/// One log line of a running demo container.
fn mock_log(tick: u64, rng: &mut Lcg, c: &Container) -> (r: MockEmit)
    requires
        tick <= u64::MAX / 7,
    ensures
        log_emit(r, *c, tick, old(rng).0),
        final(rng).0 == lcg_step(lcg_step(old(rng).0)),
{
    let msg = canned_line(rng.next() % 12);
    let ms = rng.next() % 999;
    let mut line = String::new();
    push_str(&mut line, "2026-09-20T08:");
    push_str(&mut line, padded_text(tick % 60, 2).as_str());
    push_str(&mut line, ":");
    push_str(&mut line, padded_text((tick * 7) % 60, 2).as_str());
    push_str(&mut line, ".");
    push_str(&mut line, padded_text(ms, 3).as_str());
    push_str(&mut line, "Z ");
    push_str(&mut line, msg);
    MockEmit::LogLine { name: c.name.clone(), line }
}

/// What demo mode sends at second `tick` (at wall-clock time `now`): a
/// stats reading per running container; every fourth second, an event
/// about the container it has come round to; every second second, a log
/// line per running container. The generator is drawn in that order.
pub fn mock_tick(tick: u64, now: i64, rng: &mut Lcg, cs: &Vec<Container>) -> (r: Vec<MockEmit>)
    requires
        cs.len() > 0,
        tick <= u64::MAX / 7,
    ensures
        ({
            let k = running_count(cs@);
            let e: nat = if event_due(tick) {
                1
            } else {
                0
            };
            let after = after_stats(cs@, old(rng).0);
            &&& r@.len() == k + e + if logs_due(tick) {
                k
            } else {
                0
            }
            &&& stats_emits(r@.take(k as int), cs@, tick, old(rng).0)
            &&& event_due(tick) ==> event_emit(r@[k as int], cs@, tick, now)
            &&& logs_due(tick) ==> log_emits(r@.skip((k + e) as int), cs@, tick, after)
            &&& final(rng).0 == if logs_due(tick) {
                after_logs(cs@, after)
            } else {
                after
            }
        }),
{
    let ghost s0 = rng.0;
    let mut out: Vec<MockEmit> = Vec::new();
    let mut i: usize = 0;
    while i < cs.len()
        invariant
            i <= cs@.len(),
            stats_emits(out@, cs@.take(i as int), tick, s0),
            out@.len() == running_count(cs@.take(i as int)),
            rng.0 == after_stats(cs@.take(i as int), s0),
        decreases cs@.len() - i,
    {
        assert(cs@.take(i + 1).drop_last() =~= cs@.take(i as int));
        assert(cs@.take(i + 1).last() == cs@[i as int]);
        if cs[i].is_running() {
            let e = mock_stats(tick, rng, &cs[i]);
            let ghost before = out@;
            out.push(e);
            assert(out@.drop_last() =~= before);
        }
        i += 1;
    }
    assert(cs@.take(cs@.len() as int) =~= cs@);
    let ghost k = out@.len();
    let ghost stats = out@;
    let ghost after = rng.0;
    if tick % 4 == 0 {
        let idx = ((tick / 4) % (cs.len() as u64)) as usize;
        let c = &cs[idx];
        let action = if tick % 8 == 0 {
            "die"
        } else {
            "health_status: healthy"
        };
        out.push(
            MockEmit::Event(
                DockerEvent {
                    time: now,
                    typ: owned("container"),
                    action: owned(action),
                    actor_id: c.id.clone(),
                    actor_name: c.name.clone(),
                    scope: owned("local"),
                },
            ),
        );
        assert(out@.len() == k + 1);
        assert(event_emit(out@[k as int], cs@, tick, now));
    }
    let ghost mid = out@;
    assert(mid.take(k as int) =~= stats);
    if tick % 2 == 0 {
        let mut j: usize = 0;
        while j < cs.len()
            invariant
                tick <= u64::MAX / 7,
                j <= cs@.len(),
                out@.len() >= mid.len(),
                out@.take(mid.len() as int) == mid,
                log_emits(out@.skip(mid.len() as int), cs@.take(j as int), tick, after),
                out@.len() == mid.len() + running_count(cs@.take(j as int)),
                rng.0 == after_logs(cs@.take(j as int), after),
            decreases cs@.len() - j,
        {
            assert(cs@.take(j + 1).drop_last() =~= cs@.take(j as int));
            assert(cs@.take(j + 1).last() == cs@[j as int]);
            if cs[j].is_running() {
                let e = mock_log(tick, rng, &cs[j]);
                let ghost before = out@;
                out.push(e);
                assert(out@.take(mid.len() as int) =~= before.take(mid.len() as int));
                assert(out@.skip(mid.len() as int).drop_last() =~= before.skip(mid.len() as int));
                assert(out@.skip(mid.len() as int).last() == e);
            }
            j += 1;
        }
        assert(cs@.take(cs@.len() as int) =~= cs@);
    }
    assert(out@.take(k as int) =~= stats);
    proof {
        if tick % 4 == 0 {
            assert(out@.take(mid.len() as int)[k as int] == out@[k as int]);
        }
    }
    out
}

} // verus!
