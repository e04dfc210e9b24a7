//! What an inspect response turns into: the detail pane's data and the
//! spec a container can be recreated from.
use vstd::prelude::*;

use crate::model::ContainerDetails;
use crate::ops::{
    binding_line, clone_opt, opt_strs, ContainerSpec, HostSpec, PortBinding, RestartName,
    RestartPolicy,
};
use crate::text::{concat2, concat3, dec, join, owned, push_str, str_views};
use crate::util::strs;

verus! {

/// What kind of mount a mount point is.
#[derive(Clone, Copy, PartialEq, Eq, Structural)]
pub enum MountKind {
    Bind,
    Volume,
    Tmpfs,
    Npipe,
    Other,
}

/// One mount point as the daemon reports it.
pub struct MountPoint {
    pub kind: MountKind,
    pub name: Option<String>,
    pub source: Option<String>,
    pub destination: Option<String>,
    pub rw: Option<bool>,
}

/// One container port and its host bindings (`None`: not published).
pub struct PortEntry {
    pub port: String,
    pub bindings: Option<Vec<PortBinding>>,
}

/// The parts of an inspect response the interface reads.
pub struct Inspected {
    /// The container's name, as the daemon writes it (with a leading `/`).
    pub name: Option<String>,
    pub image: Option<String>,
    pub cmd: Option<Vec<String>>,
    pub entrypoint: Option<Vec<String>>,
    pub env: Option<Vec<String>>,
    pub labels: Option<Vec<(String, String)>>,
    pub user: Option<String>,
    pub working_dir: Option<String>,
    pub tty: Option<bool>,
    pub ports: Vec<PortEntry>,
    pub mounts: Option<Vec<MountPoint>>,
    pub networks: Vec<String>,
    pub ip: Option<String>,
    pub started_at: Option<String>,
    pub finished_at: Option<String>,
    pub exit_code: Option<i64>,
    pub restart_count: Option<i64>,
    pub health: Option<String>,
    pub log_path: Option<String>,
    /// The host settings (empty when the response has none).
    pub host: HostSpec,
}

/// The word for a mount kind.
pub open spec fn kind_word(k: MountKind) -> Seq<char> {
    match k {
        MountKind::Bind => "bind"@,
        MountKind::Volume => "volume"@,
        MountKind::Tmpfs => "tmpfs"@,
        MountKind::Npipe => "npipe"@,
        MountKind::Other => "?"@,
    }
}

/// How a mount reads: `source [name] -> destination (kind, rw|ro)`.
pub open spec fn mount_line(m: MountPoint) -> Seq<char> {
    let src = match (m.name, m.source) {
        (Some(n), Some(s)) => s@ + " ["@ + n@ + "]"@,
        (Some(n), None) => n@,
        (None, Some(s)) => s@,
        (None, None) => "?"@,
    };
    let dst = match m.destination {
        Some(d) => d@,
        None => "?"@,
    };
    let rw = if m.rw == Some(true) {
        "rw"@
    } else {
        "ro"@
    };
    src + " -> "@ + dst + " ("@ + kind_word(m.kind) + ", "@ + rw + ")"@
}

/// The lines for one container port: one per binding, or a note that it
/// is not published.
pub open spec fn port_lines(e: PortEntry) -> Seq<Seq<char>> {
    match e.bindings {
        Some(bs) => bs@.map_values(|b: PortBinding| binding_line(e.port@, b@)),
        None => seq![e.port@ + " (unpublished)"@],
    }
}

/// The port lines of all ports, in order.
pub open spec fn all_port_lines(es: Seq<PortEntry>) -> Seq<Seq<char>>
    decreases es.len(),
{
    if es.len() == 0 {
        Seq::empty()
    } else {
        all_port_lines(es.drop_last()) + port_lines(es.last())
    }
}

/// The word for a restart policy name.
pub open spec fn restart_word(n: Option<RestartName>) -> Seq<char> {
    match n {
        Some(RestartName::Always) => "always"@,
        Some(RestartName::UnlessStopped) => "unless-stopped"@,
        Some(RestartName::OnFailure) => "on-failure"@,
        Some(RestartName::No) => "no"@,
        None => Seq::empty(),
    }
}

/// How a restart policy reads: its name, with `:n` for a positive retry
/// count; nothing when it names no policy.
pub open spec fn restart_text(p: Option<RestartPolicy>) -> Option<Seq<char>> {
    match p {
        None => None,
        Some(p) => if restart_word(p.name).len() == 0 {
            None
        } else {
            match p.maximum_retry_count {
                Some(n) => if n > 0 {
                    Some(restart_word(p.name) + ":"@ + dec(n as nat))
                } else {
                    Some(restart_word(p.name))
                },
                None => Some(restart_word(p.name)),
            }
        },
    }
}

/// A `restart:` value comes back out of the policy it makes: each of the
/// words always, unless-stopped and on-failure gives a policy that reads
/// as that same word, and whatever value is accepted names a policy whose
/// word the value starts with.
pub proof fn lemma_restart_round_trip(r: Option<String>)
    ensures
        r is Some && (r->0@ == "always"@ || r->0@ == "unless-stopped"@ || r->0@ == "on-failure"@)
            ==> restart_text(crate::ops::opt_restart(r)) == Some(r->0@),
        crate::ops::opt_restart(r) matches Some(p) ==> r is Some && restart_word(p.name).len() > 0
            && r->0@.take(restart_word(p.name).len() as int) == restart_word(p.name),
{
    reveal_strlit("always");
    reveal_strlit("unless-stopped");
    reveal_strlit("on-failure");
    reveal_strlit("on-failure:");
    if let Some(w) = r {
        let v = w@;
        if v.len() >= 11 && v.take(11) == "on-failure:"@ {
            assert(v.take(10) =~= "on-failure"@);
        }
        assert(v.take(v.len() as int) =~= v);
    }
}

/// `s` without its leading slashes.
pub open spec fn strip_slashes(s: Seq<char>) -> Seq<char>
    decreases s.len(),
{
    if s.len() > 0 && s[0] == '/' {
        strip_slashes(s.drop_first())
    } else {
        s
    }
}

/// A list joined with spaces, empty when there is none.
pub open spec fn spaced(v: Option<Vec<String>>) -> Seq<char> {
    match v {
        Some(v) => join(str_views(v@), " "@),
        None => Seq::empty(),
    }
}

/// `s` is the spec an inspect response `i` describes.
pub open spec fn spec_of_inspect(s: ContainerSpec, i: Inspected) -> bool {
    &&& crate::ops::opt_view(s.name) == match i.name {
        Some(n) => Some(strip_slashes(n@)),
        None => None,
    }
    &&& s.image == i.image
    &&& opt_strs(s.cmd) == opt_strs(i.cmd)
    &&& opt_strs(s.entrypoint) == opt_strs(i.entrypoint)
    &&& strs(s.env@) == match i.env {
        Some(e) => strs(e@),
        None => Seq::empty(),
    }
    &&& s.labels@ == match i.labels {
        Some(l) => l@,
        None => Seq::empty(),
    }
    &&& s.user == i.user
    &&& s.working_dir == i.working_dir
    &&& s.tty == (i.tty == Some(true))
    &&& crate::ops::same_host(s.host, i.host)
}

/// `d` is what the detail pane shows for inspect response `i`.
pub open spec fn details_of_inspect(d: ContainerDetails, i: Inspected) -> bool {
    &&& strs(d.env@) == match i.env {
        Some(e) => strs(e@),
        None => Seq::empty(),
    }
    &&& strs(d.ports@) == all_port_lines(i.ports@)
    &&& strs(d.mounts@) == match i.mounts {
        Some(ms) => ms@.map_values(|m: MountPoint| mount_line(m)),
        None => Seq::empty(),
    }
    &&& strs(d.networks@) == strs(i.networks@)
    &&& crate::ops::opt_view(d.ip) == match i.ip {
        Some(ip) => if ip@.len() > 0 {
            Some(ip@)
        } else {
            None
        },
        None => None,
    }
    &&& d.cmd@ == spaced(i.cmd)
    &&& d.entrypoint@ == spaced(i.entrypoint)
    &&& d.working_dir == i.working_dir
    &&& d.started_at == i.started_at
    &&& d.finished_at == i.finished_at
    &&& d.exit_code == i.exit_code
    &&& d.restart_count == i.restart_count
    &&& d.health == i.health
    &&& d.log_path == i.log_path
    &&& d.user == i.user
    &&& d.privileged == (i.host.privileged == Some(true))
    &&& strs(d.gpus@) == crate::actions::gpu_badges(i.host)
    &&& crate::ops::opt_view(d.restart_policy) == restart_text(i.host.restart_policy)
    &&& d.network_mode == i.host.network_mode
    &&& d.pid_mode == i.host.pid_mode
    &&& d.ipc_mode == i.host.ipc_mode
    &&& d.auto_remove == (i.host.auto_remove == Some(true))
    &&& d.shm_size == i.host.shm_size
    &&& d.spec matches Some(s) && spec_of_inspect(s, i)
}

/// How mount `m` reads.
pub fn mount_text(m: &MountPoint) -> (r: String)
    ensures
        r@ == mount_line(*m),
{
    let mut out = match (&m.name, &m.source) {
        (Some(n), Some(s)) => concat3(s.as_str(), " [", n.as_str()),
        (Some(n), None) => n.clone(),
        (None, Some(s)) => s.clone(),
        (None, None) => owned("?"),
    };
    if m.name.is_some() && m.source.is_some() {
        push_str(&mut out, "]");
    }
    push_str(&mut out, " -> ");
    match &m.destination {
        Some(d) => push_str(&mut out, d.as_str()),
        None => push_str(&mut out, "?"),
    }
    push_str(&mut out, " (");
    push_str(
        &mut out,
        match m.kind {
            MountKind::Bind => "bind",
            MountKind::Volume => "volume",
            MountKind::Tmpfs => "tmpfs",
            MountKind::Npipe => "npipe",
            MountKind::Other => "?",
        },
    );
    push_str(&mut out, ", ");
    push_str(
        &mut out,
        if m.rw == Some(true) {
            "rw"
        } else {
            "ro"
        },
    );
    push_str(&mut out, ")");
    proof {
        reveal_strlit("?");
    }
    out
}

/// The text of one binding of container port `port`.
fn binding_text(port: &str, b: &PortBinding) -> (r: String)
    ensures
        r@ == binding_line(port@, b@),
{
    let mut t = match &b.host_ip {
        Some(ip) => ip.clone(),
        None => owned("0.0.0.0"),
    };
    push_str(&mut t, ":");
    match &b.host_port {
        Some(p) => push_str(&mut t, p.as_str()),
        None => push_str(&mut t, "?"),
    }
    push_str(&mut t, " -> ");
    push_str(&mut t, port);
    t
}

/// The lines of the ports, in order.
pub fn port_texts(es: &Vec<PortEntry>) -> (r: Vec<String>)
    ensures
        strs(r@) == all_port_lines(es@),
{
    let mut out: Vec<String> = Vec::new();
    let mut i: usize = 0;
    while i < es.len()
        invariant
            i <= es@.len(),
            strs(out@) == all_port_lines(es@.take(i as int)),
        decreases es@.len() - i,
    {
        assert(es@.take(i + 1).drop_last() =~= es@.take(i as int));
        assert(es@.take(i + 1).last() == es@[i as int]);
        let e = &es[i];
        let ghost base = strs(out@);
        match &e.bindings {
            Some(bs) => {
                let ghost lines = bs@.map_values(|b: PortBinding| binding_line(e.port@, b@));
                let mut j: usize = 0;
                while j < bs.len()
                    invariant
                        j <= bs@.len(),
                        lines == bs@.map_values(|b: PortBinding| binding_line(e.port@, b@)),
                        strs(out@) == base + lines.take(j as int),
                    decreases bs@.len() - j,
                {
                    let t = binding_text(e.port.as_str(), &bs[j]);
                    let ghost before = out@;
                    out.push(t);
                    proof {
                        crate::text::lemma_map_push(before, t, |s: String| s@);
                        assert(lines.take(j + 1) =~= lines.take(j as int).push(lines[j as int]));
                    }
                    j += 1;
                }
                assert(lines.take(bs@.len() as int) =~= lines);
            },
            None => {
                let ghost before = out@;
                let t = concat2(e.port.as_str(), " (unpublished)");
                out.push(t);
                proof {
                    crate::text::lemma_map_push(before, t, |s: String| s@);
                }
            },
        }
        i += 1;
    }
    assert(es@.take(es@.len() as int) =~= es@);
    out
}

/// How a restart policy reads, if it names one.
pub fn restart_policy_text(p: &Option<RestartPolicy>) -> (r: Option<String>)
    ensures
        crate::ops::opt_view(r) == restart_text(*p),
{
    let p = match p {
        Some(p) => p,
        None => {
            return None;
        },
    };
    let name = match p.name {
        Some(RestartName::Always) => "always",
        Some(RestartName::UnlessStopped) => "unless-stopped",
        Some(RestartName::OnFailure) => "on-failure",
        Some(RestartName::No) => "no",
        None => {
            proof {
                reveal_strlit("");
            }
            return None;
        },
    };
    proof {
        reveal_strlit("always");
        reveal_strlit("unless-stopped");
        reveal_strlit("on-failure");
        reveal_strlit("no");
    }
    match p.maximum_retry_count {
        Some(n) => if n > 0 {
            let mut t = concat2(name, ":");
            push_str(&mut t, crate::text::u64_text(n as u64).as_str());
            Some(t)
        } else {
            Some(owned(name))
        },
        None => Some(owned(name)),
    }
}

/// `s` without its leading slashes.
fn strip_leading_slashes(s: &str) -> (r: String)
    ensures
        r@ == strip_slashes(s@),
{
    let v = crate::text::chars_of(s);
    let mut i: usize = 0;
    assert(v@.skip(0) =~= v@);
    while i < v.len() && v[i] == '/'
        invariant
            i <= v@.len(),
            strip_slashes(v@) == strip_slashes(v@.skip(i as int)),
        decreases v@.len() - i,
    {
        assert(v@.skip(i as int).drop_first() =~= v@.skip(i + 1));
        i += 1;
    }
    let t = crate::text::slice_chars(&v, i, v.len());
    assert(t@ =~= v@.skip(i as int));
    crate::text::string_of(&t)
}

fn joined(v: &Option<Vec<String>>) -> (r: String)
    ensures
        r@ == spaced(*v),
{
    match v {
        Some(v) => crate::text::join_strings(v, " "),
        None => String::new(),
    }
}

impl ContainerSpec {
    /// The spec a container can be recreated from, as its inspect response
    /// describes it.
    pub fn from_inspect(i: &Inspected) -> (r: ContainerSpec)
        ensures
            spec_of_inspect(r, *i),
    {
        let env = match &i.env {
            Some(e) => crate::model::clone_strings(e),
            None => Vec::new(),
        };
        proof {
            if i.env is None {
                assert(strs(env@) =~= Seq::<Seq<char>>::empty());
            }
        }
        ContainerSpec {
            name: match &i.name {
                Some(n) => Some(strip_leading_slashes(n.as_str())),
                None => None,
            },
            image: clone_opt(&i.image),
            cmd: crate::ops::clone_opt_strings(&i.cmd),
            entrypoint: crate::ops::clone_opt_strings(&i.entrypoint),
            env,
            labels: match &i.labels {
                Some(l) => crate::model::clone_labels(l),
                None => Vec::new(),
            },
            user: clone_opt(&i.user),
            working_dir: clone_opt(&i.working_dir),
            tty: match i.tty {
                Some(t) => t,
                None => false,
            },
            host: i.host.clone(),
        }
    }
}

/// What the detail pane shows for an inspect response.
pub fn details_from_inspect(i: &Inspected) -> (r: ContainerDetails)
    ensures
        details_of_inspect(r, *i),
{
    let mounts: Vec<String> = match &i.mounts {
        Some(ms) => {
            let mut out: Vec<String> = Vec::new();
            let mut k: usize = 0;
            while k < ms.len()
                invariant
                    k <= ms@.len(),
                    strs(out@) == ms@.take(k as int).map_values(|m: MountPoint| mount_line(m)),
                decreases ms@.len() - k,
            {
                let t = mount_text(&ms[k]);
                let ghost before = out@;
                out.push(t);
                proof {
                    crate::text::lemma_map_push(before, t, |s: String| s@);
                    crate::text::lemma_map_take_succ(ms@, k as int, |m: MountPoint| mount_line(m));
                }
                k += 1;
            }
            assert(ms@.take(ms@.len() as int) =~= ms@);
            out
        },
        None => {
            let out: Vec<String> = Vec::new();
            assert(strs(out@) =~= Seq::<Seq<char>>::empty());
            out
        },
    };
    let env = match &i.env {
        Some(e) => crate::model::clone_strings(e),
        None => Vec::new(),
    };
    proof {
        if i.env is None {
            assert(strs(env@) =~= Seq::<Seq<char>>::empty());
        }
    }
    ContainerDetails {
        env,
        ports: port_texts(&i.ports),
        mounts,
        networks: crate::model::clone_strings(&i.networks),
        ip: match &i.ip {
            Some(ip) => if ip.as_str().is_empty() {
                None
            } else {
                Some(ip.clone())
            },
            None => None,
        },
        cmd: joined(&i.cmd),
        entrypoint: joined(&i.entrypoint),
        working_dir: clone_opt(&i.working_dir),
        started_at: clone_opt(&i.started_at),
        finished_at: clone_opt(&i.finished_at),
        exit_code: i.exit_code,
        restart_count: i.restart_count,
        health: clone_opt(&i.health),
        log_path: clone_opt(&i.log_path),
        user: clone_opt(&i.user),
        privileged: i.host.privileged == Some(true),
        gpus: crate::actions::gpu_summary(&i.host),
        restart_policy: restart_policy_text(&i.host.restart_policy),
        network_mode: clone_opt(&i.host.network_mode),
        pid_mode: clone_opt(&i.host.pid_mode),
        ipc_mode: clone_opt(&i.host.ipc_mode),
        auto_remove: i.host.auto_remove == Some(true),
        shm_size: i.host.shm_size,
        spec: Some(ContainerSpec::from_inspect(i)),
    }
}

} // verus!
