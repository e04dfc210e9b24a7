//! Plain data the daemon reports: containers, volumes, events, stats
//! samples and inspect details.
use vstd::prelude::*;

use crate::ops::ContainerSpec;
use crate::text::{chars_of, concat3, eq_str, slice_chars, string_of};

verus! {

pub const LABEL_PROJECT: &'static str = "com.docker.compose.project";

pub const LABEL_SERVICE: &'static str = "com.docker.compose.service";

pub const LABEL_WORKING_DIR: &'static str = "com.docker.compose.project.working_dir";

pub const LABEL_CONFIG_FILES: &'static str = "com.docker.compose.project.config_files";

/// The value of the first label whose key is `key`.
pub open spec fn label_get(labels: Seq<(String, String)>, key: Seq<char>) -> Option<Seq<char>>
    decreases labels.len(),
{
    if labels.len() == 0 {
        None
    } else if labels[0].0@ == key {
        Some(labels[0].1@)
    } else {
        label_get(labels.drop_first(), key)
    }
}

/// Looks a label up by key.
pub fn label_lookup(labels: &Vec<(String, String)>, key: &str) -> (r: Option<String>)
    ensures
        match r {
            Some(v) => label_get(labels@, key@) == Some(v@),
            None => label_get(labels@, key@) is None,
        },
{
    let mut i: usize = 0;
    assert(labels@.skip(0) == labels@);
    while i < labels.len()
        invariant
            i <= labels.len(),
            label_get(labels@, key@) == label_get(labels@.skip(i as int), key@),
        decreases labels.len() - i,
    {
        assert(labels@.skip(i as int)[0] == labels@[i as int]);
        assert(labels@.skip(i as int).drop_first() == labels@.skip(i + 1));
        if eq_str(labels[i].0.as_str(), key) {
            return Some(labels[i].1.clone());
        }
        i += 1;
    }
    None
}

/// UTF-8 length of one character.
pub open spec fn utf8_len(c: char) -> int {
    if (c as u32) < 0x80 {
        1
    } else if (c as u32) < 0x800 {
        2
    } else if (c as u32) < 0x10000 {
        3
    } else {
        4
    }
}

/// The longest prefix of `s` whose UTF-8 encoding fits in `budget` bytes.
pub open spec fn prefix_in_bytes(s: Seq<char>, budget: int) -> Seq<char>
    decreases s.len(),
{
    if s.len() == 0 || utf8_len(s[0]) > budget {
        seq![]
    } else {
        seq![s[0]] + prefix_in_bytes(s.drop_first(), budget - utf8_len(s[0]))
    }
}

/// UTF-8 length of one character (std `char::len_utf8`).
pub fn char_utf8_len(c: char) -> (n: usize)
    ensures
        n == utf8_len(c),
{
    let u = c as u32;
    if u < 0x80 {
        1
    } else if u < 0x800 {
        2
    } else if u < 0x10000 {
        3
    } else {
        4
    }
}

/// The longest prefix of `s` that fits in `budget` UTF-8 bytes.
pub fn prefix_within_bytes(s: &str, budget: usize) -> (r: String)
    ensures
        r@ == prefix_in_bytes(s@, budget as int),
{
    let v = chars_of(s);
    let mut i: usize = 0;
    let mut used: usize = 0;
    assert(v@.skip(0) == v@);
    while i < v.len() && char_utf8_len(v[i]) <= budget - used
        invariant
            i <= v.len(),
            used <= budget,
            prefix_in_bytes(v@, budget as int) == v@.take(i as int) + prefix_in_bytes(
                v@.skip(i as int),
                budget - used,
            ),
        decreases v.len() - i,
    {
        let ghost rest = v@.skip(i as int);
        assert(rest.drop_first() == v@.skip(i + 1));
        assert(v@.take(i + 1) == v@.take(i as int) + seq![v@[i as int]]);
        used = used + char_utf8_len(v[i]);
        i += 1;
    }
    let out = slice_chars(&v, 0, i);
    string_of(&out)
}

pub struct Container {
    pub id: String,
    pub name: String,
    pub image: String,
    pub state: String,
    pub status: String,
    pub created: i64,
    pub command: String,
    pub labels: Vec<(String, String)>,
    pub ports: Vec<String>,
}

/// Two containers hold the same data.
pub open spec fn same_container(a: Container, b: Container) -> bool {
    a.id == b.id && a.name == b.name && a.image == b.image && a.state == b.state && a.status
        == b.status && a.created == b.created && a.command == b.command && a.labels@ == b.labels@
        && a.ports@ == b.ports@
}

impl Clone for Container {
    fn clone(&self) -> (r: Self)
        ensures
            same_container(r, *self),
    {
        Container {
            id: self.id.clone(),
            name: self.name.clone(),
            image: self.image.clone(),
            state: self.state.clone(),
            status: self.status.clone(),
            created: self.created,
            command: self.command.clone(),
            labels: clone_labels(&self.labels),
            ports: clone_strings(&self.ports),
        }
    }
}

/// A copy of a list of strings.
pub fn clone_strings(v: &Vec<String>) -> (r: Vec<String>)
    ensures
        r@ == v@,
{
    let mut r: Vec<String> = Vec::new();
    let mut i: usize = 0;
    while i < v.len()
        invariant
            i <= v.len(),
            r@ == v@.take(i as int),
        decreases v.len() - i,
    {
        r.push(v[i].clone());
        assert(v@.take(i + 1) == v@.take(i as int).push(v@[i as int]));
        i += 1;
    }
    assert(v@.take(v.len() as int) == v@);
    r
}

/// A copy of a label list.
pub fn clone_labels(v: &Vec<(String, String)>) -> (r: Vec<(String, String)>)
    ensures
        r@ == v@,
{
    let mut r: Vec<(String, String)> = Vec::new();
    let mut i: usize = 0;
    while i < v.len()
        invariant
            i <= v.len(),
            r@ == v@.take(i as int),
        decreases v.len() - i,
    {
        r.push((v[i].0.clone(), v[i].1.clone()));
        assert(v@.take(i + 1) == v@.take(i as int).push(v@[i as int]));
        i += 1;
    }
    assert(v@.take(v.len() as int) == v@);
    r
}

impl Container {
    pub open spec fn running(&self) -> bool {
        self.state@ == "running"@
    }

    pub open spec fn project(&self) -> Option<Seq<char>> {
        label_get(self.labels@, LABEL_PROJECT@)
    }

    pub open spec fn service(&self) -> Option<Seq<char>> {
        label_get(self.labels@, LABEL_SERVICE@)
    }

    pub fn is_running(&self) -> (r: bool)
        ensures
            r == self.running(),
    {
        eq_str(self.state.as_str(), "running")
    }

    /// The id cut to at most 12 bytes, on a character boundary.
    pub fn short_id(&self) -> (r: String)
        ensures
            r@ == prefix_in_bytes(self.id@, 12),
    {
        prefix_within_bytes(self.id.as_str(), 12)
    }

    pub fn compose_project(&self) -> (r: Option<String>)
        ensures
            match r {
                Some(v) => self.project() == Some(v@),
                None => self.project() is None,
            },
    {
        label_lookup(&self.labels, LABEL_PROJECT)
    }

    pub fn compose_service(&self) -> (r: Option<String>)
        ensures
            match r {
                Some(v) => self.service() == Some(v@),
                None => self.service() is None,
            },
    {
        label_lookup(&self.labels, LABEL_SERVICE)
    }

    pub fn compose_workdir(&self) -> (r: Option<String>)
        ensures
            match r {
                Some(v) => label_get(self.labels@, LABEL_WORKING_DIR@) == Some(v@),
                None => label_get(self.labels@, LABEL_WORKING_DIR@) is None,
            },
    {
        label_lookup(&self.labels, LABEL_WORKING_DIR)
    }

    pub fn compose_config_files(&self) -> (r: Option<String>)
        ensures
            match r {
                Some(v) => label_get(self.labels@, LABEL_CONFIG_FILES@) == Some(v@),
                None => label_get(self.labels@, LABEL_CONFIG_FILES@) is None,
            },
    {
        label_lookup(&self.labels, LABEL_CONFIG_FILES)
    }
}

pub struct Volume {
    pub name: String,
    pub driver: String,
    pub scope: String,
    pub mountpoint: String,
    pub labels: Vec<(String, String)>,
    pub size: Option<u64>,
    pub ref_count: Option<u64>,
}

impl Clone for Volume {
    fn clone(&self) -> (r: Self)
        ensures
            r.name == self.name,
            r.driver == self.driver,
            r.scope == self.scope,
            r.mountpoint == self.mountpoint,
            r.labels@ == self.labels@,
            r.size == self.size,
            r.ref_count == self.ref_count,
    {
        Volume {
            name: self.name.clone(),
            driver: self.driver.clone(),
            scope: self.scope.clone(),
            mountpoint: self.mountpoint.clone(),
            labels: clone_labels(&self.labels),
            size: self.size,
            ref_count: self.ref_count,
        }
    }
}

impl Volume {
    pub open spec fn project(&self) -> Option<Seq<char>> {
        label_get(self.labels@, LABEL_PROJECT@)
    }

    pub fn compose_project(&self) -> (r: Option<String>)
        ensures
            match r {
                Some(v) => self.project() == Some(v@),
                None => self.project() is None,
            },
    {
        label_lookup(&self.labels, LABEL_PROJECT)
    }
}

pub struct DockerEvent {
    pub time: i64,
    pub typ: String,
    pub action: String,
    pub actor_id: String,
    pub actor_name: String,
    pub scope: String,
}

impl Clone for DockerEvent {
    fn clone(&self) -> (r: Self)
        ensures
            r == *self,
    {
        DockerEvent {
            time: self.time,
            typ: self.typ.clone(),
            action: self.action.clone(),
            actor_id: self.actor_id.clone(),
            actor_name: self.actor_name.clone(),
            scope: self.scope.clone(),
        }
    }
}

/// One stats reading. Percentages are kept in hundredths of a percent
/// (`1250` is 12.50%).
#[derive(Clone, Copy, Default)]
pub struct StatsSample {
    pub cpu_centi: u64,
    pub mem: u64,
    pub mem_limit: u64,
    pub mem_centi: u64,
    pub net_rx: u64,
    pub net_tx: u64,
    pub blk_read: u64,
    pub blk_write: u64,
    pub pids: Option<u64>,
}

pub struct ContainerDetails {
    pub env: Vec<String>,
    pub ports: Vec<String>,
    pub mounts: Vec<String>,
    pub networks: Vec<String>,
    pub ip: Option<String>,
    pub cmd: String,
    pub entrypoint: String,
    pub working_dir: Option<String>,
    pub started_at: Option<String>,
    pub finished_at: Option<String>,
    pub exit_code: Option<i64>,
    pub restart_count: Option<i64>,
    pub health: Option<String>,
    pub log_path: Option<String>,
    pub user: Option<String>,
    pub privileged: bool,
    pub gpus: Vec<String>,
    pub restart_policy: Option<String>,
    pub network_mode: Option<String>,
    pub pid_mode: Option<String>,
    pub ipc_mode: Option<String>,
    pub auto_remove: bool,
    pub shm_size: Option<i64>,
    pub spec: Option<ContainerSpec>,
}

/// Whether a user setting means the container runs as root.
pub open spec fn root_user(user: Option<Seq<char>>) -> bool {
    match user {
        None => true,
        Some(u) => u == Seq::<char>::empty() || u == "root"@ || u == "0"@ || u == "0:0"@,
    }
}

/// Whether a namespace mode shares the host's namespace.
pub open spec fn shared_mode(m: Seq<char>) -> bool {
    m != "bridge"@ && m != "private"@ && m != "shareable"@ && m.len() > 0
}

/// The `tag:mode` badge for one namespace setting, if it shares with the host.
pub open spec fn ns_badge(mode: Option<String>, tag: Seq<char>) -> Seq<Seq<char>> {
    match mode {
        Some(m) => if shared_mode(m@) {
            seq![tag + ":"@ + m@]
        } else {
            seq![]
        },
        None => seq![],
    }
}

fn push_ns_badge(out: &mut Vec<String>, mode: &Option<String>, tag: &str)
    ensures
        final(out)@.map_values(|s: String| s@) == old(out)@.map_values(|s: String| s@) + ns_badge(
            *mode,
            tag@,
        ),
{
    let ghost before = out@.map_values(|s: String| s@);
    if let Some(m) = mode {
        let ms = m.as_str();
        if !eq_str(ms, "bridge") && !eq_str(ms, "private") && !eq_str(ms, "shareable") && !eq_str(
            ms,
            "",
        ) {
            let badge = concat3(tag, ":", ms);
            out.push(badge);
            proof {
                reveal_strlit("");
                assert(out@.map_values(|s: String| s@) == before.push(badge@));
            }
            return ;
        }
        proof {
            reveal_strlit("");
            if m@.len() == 0 {
                assert(m@ == ""@);
            }
        }
    }
}

impl ContainerDetails {
    /// Whether the container runs as root (user unset or root/0).
    pub fn runs_as_root(&self) -> (r: bool)
        ensures
            r == root_user(crate::ops::opt_view(self.user)),
    {
        match &self.user {
            None => true,
            Some(u) => {
                let s = u.as_str();
                let r = eq_str(s, "") || eq_str(s, "root") || eq_str(s, "0") || eq_str(s, "0:0");
                proof {
                    reveal_strlit("");
                    assert(""@ =~= Seq::<char>::empty());
                }
                r
            },
        }
    }

    /// Host-namespace sharing summary, e.g. ["net:host", "pid:host"].
    pub fn host_namespaces(&self) -> (r: Vec<String>)
        ensures
            r@.map_values(|s: String| s@) == ns_badge(self.network_mode, "net"@) + ns_badge(
                self.pid_mode,
                "pid"@,
            ) + ns_badge(self.ipc_mode, "ipc"@),
    {
        let mut out: Vec<String> = Vec::new();
        proof {
            assert(out@.map_values(|s: String| s@) == Seq::<Seq<char>>::empty());
        }
        push_ns_badge(&mut out, &self.network_mode, "net");
        push_ns_badge(&mut out, &self.pid_mode, "pid");
        push_ns_badge(&mut out, &self.ipc_mode, "ipc");
        out
    }
}

/// A share in hundredths of a percent as text with two decimals:
/// `1250` reads `12.50%`.
pub open spec fn percent_of(centi: u64) -> Seq<char> {
    crate::text::dec((centi / 100) as nat) + "."@ + crate::mock::padded((centi % 100) as nat, 2)
        + "%"@
}

pub fn percent_text(centi: u64) -> (r: String)
    ensures
        r@ == percent_of(centi),
{
    let mut s = crate::text::u64_text(centi / 100);
    crate::text::push_str(&mut s, ".");
    let frac = centi % 100;
    let d = crate::text::u64_text(frac);
    proof {
        reveal_strlit("0");
        if frac < 10 {
            assert(crate::text::dec(frac as nat).len() == 1);
            assert(Seq::new(1, |i: int| '0') =~= "0"@);
        } else {
            assert(crate::text::dec(frac as nat) == crate::text::dec((frac / 10) as nat).push(
                crate::text::digit_char((frac % 10) as int),
            ));
            assert(crate::text::dec((frac / 10) as nat).len() == 1);
        }
    }
    if frac < 10 {
        crate::text::push_str(&mut s, "0");
    }
    crate::text::push_str(&mut s, d.as_str());
    crate::text::push_str(&mut s, "%");
    s
}

/// Byte count in IEC units for the detail pane: "512B", "1.2KiB",
/// "95.4MiB", "120GiB" (one decimal below 100, none from 100 up).
pub fn human_bytes(bytes: u64) -> (r: String)
    ensures
        r@ == crate::util::iec_bytes(bytes as nat),
{
    crate::util::iec_human_bytes(bytes)
}

} // verus!
