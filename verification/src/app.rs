//! The interface's state and everything it decides: which view and popup
//! are open, what is selected, what the tree shows, and which background
//! work to start or stop. The work itself (talking to the daemon, the
//! terminal, the clock) is carried out by the caller, which drains
//! `App::effects` and feeds results back as `Msg`s.
use vstd::prelude::*;
use vstd::view::View as _;

use crate::actions::{EditForm, EnvEditor, PendingAction, TextInput};
use crate::docker::DockerContext;
use crate::exec::ExecRequest;
use crate::files::FsEntry;
use crate::model::{Container, ContainerDetails, DockerEvent, StatsSample, Volume};
use crate::ops::{ContainerConfig, Op, RecreateRequest};
use crate::search::Matcher;
use crate::text::{concat2, eq_str, owned};
use crate::tree::{rows_view, Row, RowKind, RowV};
use crate::util::strs;

pub mod commands;
pub mod data;
pub mod keys;
pub mod lists;
pub mod msgs;
pub mod views;
pub mod mouse;
pub mod popups;

verus! {

#[derive(Clone, Copy, PartialEq, Eq, Structural)]
pub enum View {
    Tree,
    Stats,
    Logs,
    Events,
    Files,
}

/// The header title of a view.
pub open spec fn view_title(v: View) -> Seq<char> {
    match v {
        View::Tree => "TREE"@,
        View::Stats => "STATS"@,
        View::Logs => "LOGS"@,
        View::Events => "EVENTS"@,
        View::Files => "FILES"@,
    }
}

impl View {
    pub fn title(&self) -> (r: &'static str)
        ensures
            r@ == view_title(*self),
    {
        match self {
            View::Tree => "TREE",
            View::Stats => "STATS",
            View::Logs => "LOGS",
            View::Events => "EVENTS",
            View::Files => "FILES",
        }
    }
}

#[derive(Clone, Copy, PartialEq, Eq, Structural)]
pub enum Focus {
    Tree,
    Detail,
}

#[derive(Clone, Copy, PartialEq, Eq, Structural)]
pub enum Popup {
    Closed,
    Context,
    ContainerSelect,
    Help,
    Ops,
    Confirm,
    Edit,
    Exec,
}

pub enum ConnState {
    Connecting,
    Connected,
    Error(String),
    Mock,
}

/// A transient message; `at_ms` is when it was raised.
pub struct Toast {
    pub ok: bool,
    pub text: String,
    pub at_ms: u64,
}

/// How long a toast stays, in milliseconds.
pub const TOAST_TTL_MS: u64 = 4000;

/// How long an inspect request counts as in flight, in milliseconds.
pub const INSPECT_FRESH_MS: u64 = 30000;

/// Samples kept per container for the sparklines.
pub const HIST_LEN: usize = 120;

/// Log lines kept.
pub const LOG_CAP: usize = 10000;

/// Events kept.
pub const EVENT_CAP: usize = 500;

/// Regex filter state for the vim-style `/` search.
pub struct Search {
    pub active: Option<Matcher>,
    pub input: TextInput,
    pub prompting: bool,
    pub last: String,
    pub error: Option<String>,
}

/// Filesystem explorer state: which container it is browsing, where it
/// is, and what came back for the current directory request.
pub struct FilesState {
    pub id: String,
    pub name: String,
    pub path: String,
    pub entries: Vec<FsEntry>,
    pub sel: usize,
    pub offset: usize,
    pub loading: bool,
    pub error: Option<String>,
    pub req: u64,
}

/// A screen region.
#[derive(Clone, Copy, PartialEq, Eq, Structural)]
pub struct Rect {
    pub x: u16,
    pub y: u16,
    pub width: u16,
    pub height: u16,
}

/// The cell lies inside the region.
pub open spec fn in_rect(a: Rect, col: int, row: int) -> bool {
    a.x <= col < a.x + a.width && a.y <= row < a.y + a.height
}

pub fn contains(area: Rect, col: u16, row: u16) -> (r: bool)
    ensures
        r == in_rect(area, col as int, row as int),
{
    (col as u32) >= (area.x as u32) && (col as u32) < (area.x as u32) + (area.width as u32) && (
    row as u32) >= (area.y as u32) && (row as u32) < (area.y as u32) + (area.height as u32)
}

/// Regions rendered in the last frame, used for mouse targeting.
#[derive(Clone, Copy, PartialEq, Eq, Structural)]
pub struct Areas {
    pub tree: Rect,
    pub detail: Rect,
    pub stats_table: Rect,
    pub stats_charts: Rect,
    pub logs: Rect,
    pub events: Rect,
    pub files: Rect,
    pub popup: Rect,
    pub popup_list: Rect,
    /// x where the env editor's VALUE column starts
    pub env_split_x: u16,
}

pub open spec fn empty_rect() -> Rect {
    Rect { x: 0, y: 0, width: 0, height: 0 }
}

/// A container whose logs are followed.
pub struct LogTarget {
    pub id: String,
    pub name: String,
}

impl Clone for LogTarget {
    fn clone(&self) -> (r: Self)
        ensures
            r == *self,
    {
        LogTarget { id: self.id.clone(), name: self.name.clone() }
    }
}

/// What the background work reports.
pub enum Msg {
    ConnMock,
    ConnOk,
    ConnErr(String),
    Containers(Vec<Container>),
    Volumes(Vec<Volume>),
    Event(DockerEvent),
    Stats { id: String, sample: StatsSample },
    LogLine { name: String, line: String },
    Inspected { id: String, details: ContainerDetails },
    FilesListed { req: u64, result: Result<Vec<FsEntry>, String> },
    ActionDone { label: String, ok: bool, message: String, open_logs: Option<LogTarget> },
}

/// Work the caller carries out for the interface.
pub enum Effect {
    /// Drop every worker and connection, then connect to the current
    /// context (or start the demo feed).
    Connect,
    /// Replace the stats streams with streams for these containers.
    StartStats(Vec<String>),
    /// Stop the stats streams.
    StopStats,
    /// Replace the log streams with tails (200 lines) of these containers.
    StartLogs(Vec<LogTarget>),
    /// Stop the log streams.
    StopLogs,
    /// Inspect a container.
    Inspect(String),
    /// List directory `path` of container `id`, answering request `req`.
    ListFiles { req: u64, id: String, path: String },
    /// Start, stop, restart or remove a container.
    ContainerAction { id: String, name: String, action: crate::actions::ContainerAction },
    /// Recreate a container with changes.
    Recreate(RecreateRequest),
    /// Launch an op.
    RunOp { name: String, op: Op },
    /// Hand the terminal to a shell in a container.
    Exec(ExecRequest),
    /// Hand the terminal to a new container (`docker run -it`).
    AttachRun { name: String, config: ContainerConfig },
    /// Poll containers and volumes now.
    Refresh,
}

pub struct App {
    pub mock: bool,
    pub view: View,
    pub focus: Focus,
    pub popup: Popup,
    pub popup_sel: usize,
    pub popup_offset: usize,
    pub contexts: Vec<DockerContext>,
    pub current_ctx: usize,
    /// A daemon connection is up.
    pub connected: bool,
    pub conn: ConnState,
    pub conn_err: String,
    pub containers: Vec<Container>,
    pub volumes: Vec<Volume>,
    pub events: Vec<DockerEvent>,
    pub events_follow: bool,
    pub events_off: usize,
    pub stats: Vec<(String, StatsSample)>,
    pub cpu_hist: Vec<(String, Vec<u64>)>,
    pub mem_hist: Vec<(String, Vec<u64>)>,
    pub details: Vec<(String, ContainerDetails)>,
    /// When each inspect request went out (milliseconds).
    pub inspect_sent: Vec<(String, u64)>,
    pub detail_scroll: u16,
    pub tree_rows: Vec<Row>,
    pub tree_sel: usize,
    pub tree_offset: usize,
    pub expanded: Vec<String>,
    pub seen_nodes: Vec<String>,
    pub log_targets: Vec<LogTarget>,
    pub log_names: Vec<String>,
    pub log_lines: Vec<String>,
    pub log_follow: bool,
    pub log_off: usize,
    pub files: Option<FilesState>,
    pub files_req: u64,
    pub stats_sel: usize,
    pub stats_offset: usize,
    pub stats_spawned: Vec<String>,
    pub ops: Vec<(String, Op)>,
    pub ops_error: Option<String>,
    pub pending: Option<PendingAction>,
    pub edit: Option<EditForm>,
    pub edit_pending: Option<String>,
    pub env_editor: Option<EnvEditor>,
    /// A terminal handoff is possible.
    pub exec_available: bool,
    pub exec_user_input: Option<TextInput>,
    pub toast: Option<Toast>,
    pub search: Search,
    pub areas: Areas,
    /// tree/detail width split in percent (Tree view)
    pub split_pct: u16,
    pub dragging_split: bool,
    /// The clock, as milliseconds since some start.
    pub now_ms: u64,
    /// Wall-clock seconds and nanoseconds (demo containers use them).
    pub now_secs: i64,
    pub now_nanos: u32,
    /// The environment that op templates expand against.
    pub env_vars: Vec<(String, String)>,
    /// Work for the caller, oldest first.
    pub effects: Vec<Effect>,
}

// ---------------------------------------------------------------- lists kept by id

/// Position of the entry keyed `k`.
pub open spec fn assoc_pos<V>(m: Seq<(String, V)>, k: Seq<char>) -> Option<int>
    decreases m.len(),
{
    if m.len() == 0 {
        None
    } else if m[0].0@ == k {
        Some(0)
    } else {
        match assoc_pos(m.drop_first(), k) {
            Some(i) => Some(i + 1),
            None => None,
        }
    }
}

pub proof fn lemma_assoc_pos<V>(m: Seq<(String, V)>, k: Seq<char>)
    ensures
        match assoc_pos(m, k) {
            Some(i) => 0 <= i < m.len() && m[i].0@ == k && forall|j: int|
                0 <= j < i ==> (#[trigger] m[j]).0@ != k,
            None => forall|j: int| 0 <= j < m.len() ==> (#[trigger] m[j]).0@ != k,
        },
    decreases m.len(),
{
    if m.len() > 0 {
        lemma_assoc_pos(m.drop_first(), k);
        assert forall|j: int| 1 <= j < m.len() implies m[j] == m.drop_first()[j - 1] by {}
    }
}

pub fn assoc_find<V>(m: &Vec<(String, V)>, k: &str) -> (r: Option<usize>)
    ensures
        match r {
            Some(i) => i < m@.len() && assoc_pos(m@, k@) == Some(i as int),
            None => assoc_pos(m@, k@) is None,
        },
{
    proof {
        lemma_assoc_pos(m@, k@);
    }
    let mut i: usize = 0;
    while i < m.len()
        invariant
            i <= m@.len(),
            forall|j: int| 0 <= j < i ==> (#[trigger] m@[j]).0@ != k@,
            match assoc_pos(m@, k@) {
                Some(p) => 0 <= p < m@.len() && m@[p].0@ == k@ && forall|j: int|
                    0 <= j < p ==> (#[trigger] m@[j]).0@ != k@,
                None => forall|j: int| 0 <= j < m@.len() ==> (#[trigger] m@[j]).0@ != k@,
            },
        decreases m@.len() - i,
    {
        if eq_str(m[i].0.as_str(), k) {
            proof {
                match assoc_pos(m@, k@) {
                    Some(p) => {
                        if p > i {
                            assert(m@[i as int].0@ != k@);
                        }
                    },
                    None => {
                        assert(m@[i as int].0@ != k@);
                    },
                }
            }
            return Some(i);
        }
        i += 1;
    }
    proof {
        match assoc_pos(m@, k@) {
            Some(p) => {
                assert(m@[p].0@ != k@);
            },
            None => {},
        }
    }
    None
}

/// `m` without the entries whose keys are not in `keep`.
pub open spec fn assoc_retain<V>(m: Seq<(String, V)>, keep: Seq<Seq<char>>) -> Seq<(String, V)>
    decreases m.len(),
{
    if m.len() == 0 {
        m
    } else {
        let r = assoc_retain(m.drop_last(), keep);
        if keep.contains(m.last().0@) {
            r.push(m.last())
        } else {
            r
        }
    }
}

/// No key occurs twice.
pub open spec fn keys_unique<V>(m: Seq<(String, V)>) -> bool {
    forall|i: int, j: int| 0 <= i < j < m.len() ==> (#[trigger] m[i]).0@ != (#[trigger] m[j]).0@
}

/// Dropping entries keeps keys apart; what is left comes from `m`.
pub proof fn lemma_unique_select<V>(m: Seq<(String, V)>, f: spec_fn((String, V)) -> bool)
    requires
        keys_unique(m),
    ensures
        keys_unique(lists::select(m, f)),
        forall|i: int| 0 <= i < lists::select(m, f).len() ==> m.contains(#[trigger] lists::select(m, f)[i]),
    decreases m.len(),
{
    if m.len() > 0 {
        let d = m.drop_last();
        assert forall|i: int, j: int| 0 <= i < j < d.len() implies (#[trigger] d[i]).0@ != (
        #[trigger] d[j]).0@ by {
            assert(d[i] == m[i] && d[j] == m[j]);
        }
        lemma_unique_select(d, f);
        let r = lists::select(d, f);
        let x = m.last();
        assert forall|i: int| 0 <= i < r.len() implies (#[trigger] r[i]).0@ != x.0@ by {
            assert(d.contains(r[i]));
            let k = choose|k: int| 0 <= k < d.len() && d[k] == r[i];
            assert(m[k] == d[k]);
            assert(m[m.len() - 1] == x);
        }
        let rr = lists::select(m, f);
        assert forall|i: int| 0 <= i < rr.len() implies m.contains(#[trigger] rr[i]) by {
            if i < r.len() {
                assert(rr[i] == r[i]);
                assert(d.contains(r[i]));
                let k = choose|k: int| 0 <= k < d.len() && d[k] == r[i];
                assert(m[k] == d[k]);
            } else {
                assert(rr[i] == x);
                assert(m[m.len() - 1] == x);
            }
        }
        assert forall|i: int, j: int| 0 <= i < j < rr.len() implies (#[trigger] rr[i]).0@ != (
        #[trigger] rr[j]).0@ by {
            if j < r.len() {
                assert(rr[i] == r[i] && rr[j] == r[j]);
            } else {
                assert(rr[i] == r[i] && rr[j] == x);
            }
        }
    }
}

proof fn lemma_retain_select<V>(m: Seq<(String, V)>, keep: Seq<Seq<char>>)
    ensures
        assoc_retain(m, keep) == lists::select(m, key_kept(keep)),
    decreases m.len(),
{
    if m.len() > 0 {
        lemma_retain_select(m.drop_last(), keep);
    }
}

/// Retaining keeps keys apart.
pub proof fn lemma_unique_retain<V>(m: Seq<(String, V)>, keep: Seq<Seq<char>>)
    requires
        keys_unique(m),
    ensures
        keys_unique(assoc_retain(m, keep)),
{
    lemma_retain_select(m, keep);
    lemma_unique_select(m, key_kept(keep));
}

/// Whether an entry's key is one of `keep`.
pub open spec fn key_kept<V>(keep: Seq<Seq<char>>) -> spec_fn((String, V)) -> bool {
    |e: (String, V)| keep.contains(e.0@)
}

/// Retaining keeps exactly the entries whose key is kept, in order and
/// unchanged, so every key left is a kept one.
pub proof fn lemma_assoc_retain<V>(m: Seq<(String, V)>, keep: Seq<Seq<char>>)
    ensures
        assoc_retain(m, keep) == m.filter(key_kept(keep)),
        forall|i: int|
            0 <= i < assoc_retain(m, keep).len() ==> keep.contains(
                (#[trigger] assoc_retain(m, keep)[i]).0@,
            ),
    decreases m.len(),
{
    let f = key_kept::<V>(keep);
    reveal_with_fuel(Seq::filter, 1);
    if m.len() > 0 {
        lemma_assoc_retain(m.drop_last(), keep);
    }
    assert forall|i: int| 0 <= i < m.filter(f).len() implies keep.contains(
        (#[trigger] m.filter(f)[i]).0@,
    ) by {
        m.lemma_filter_pred(f, i);
    }
}

pub fn assoc_retain_exec<V>(m: &mut Vec<(String, V)>, keep: &Vec<String>)
    ensures
        final(m)@ == assoc_retain(old(m)@, strs(keep@)),
        keys_unique(old(m)@) ==> keys_unique(final(m)@),
{
    proof {
        if keys_unique(old(m)@) {
            lemma_unique_retain(old(m)@, strs(keep@));
        }
    }
    let ghost orig = m@;
    let mut rest: Vec<(String, V)> = Vec::new();
    std::mem::swap(&mut rest, m);
    assert(m@ =~= assoc_retain(orig.take(0), strs(keep@)));
    let mut i: usize = 0;
    assert(orig.len() == rest@.len());
    assert(rest@.len() == rest.len());
    while rest.len() > 0
        invariant
            orig.len() <= usize::MAX,
            i + rest@.len() == orig.len(),
            rest@ == orig.skip(i as int),
            m@ == assoc_retain(orig.take(i as int), strs(keep@)),
        decreases rest@.len(),
    {
        let e = rest.remove(0);
        assert(e == orig[i as int]);
        assert(orig.take(i + 1).drop_last() =~= orig.take(i as int));
        assert(orig.take(i + 1).last() == e);
        let mut found = false;
        let mut j: usize = 0;
        while j < keep.len()
            invariant
                j <= keep@.len(),
                found <==> exists|x: int| 0 <= x < j && (#[trigger] strs(keep@)[x]) == e.0@,
            decreases keep@.len() - j,
        {
            if eq_str(keep[j].as_str(), e.0.as_str()) {
                assert(strs(keep@)[j as int] == e.0@);
                found = true;
            }
            j += 1;
        }
        assert(found == strs(keep@).contains(e.0@));
        if found {
            m.push(e);
        }
        i += 1;
        assert(rest@ =~= orig.skip(i as int));
    }
    assert(orig.take(orig.len() as int) =~= orig);
}


// ---------------------------------------------------------------- tree state

/// The keys of the project and service nodes of projects `ps`, in tree order.
pub open spec fn proj_keys(cs: Seq<Container>, ps: Seq<Seq<char>>) -> Seq<Seq<char>>
    decreases ps.len(),
{
    if ps.len() == 0 {
        Seq::empty()
    } else {
        let p = ps.last();
        proj_keys(cs, ps.drop_last()) + seq!["p:"@ + p] + crate::tree::services_of(
            crate::tree::of_project(cs, p),
        ).map_values(|s: Seq<char>| "p:"@ + p + "/"@ + s)
    }
}

/// The keys of every project and service node.
pub open spec fn node_keys(cs: Seq<Container>) -> Seq<Seq<char>> {
    proj_keys(cs, crate::tree::projects_of(cs))
}

/// Seen and expanded keys after meeting `keys`: a key met for the first
/// time is recorded as seen and expanded.
pub open spec fn mark_seen(seen: Seq<Seq<char>>, exp: Seq<Seq<char>>, keys: Seq<Seq<char>>) -> (
    Seq<Seq<char>>,
    Seq<Seq<char>>,
)
    decreases keys.len(),
{
    if keys.len() == 0 {
        (seen, exp)
    } else {
        let (s, e) = mark_seen(seen, exp, keys.drop_last());
        let k = keys.last();
        if s.contains(k) {
            (s, e)
        } else {
            (
                s.push(k),
                if e.contains(k) {
                    e
                } else {
                    e.push(k)
                },
            )
        }
    }
}

/// The rows the tree shows: with a filter every node is expanded and only
/// the kept rows show.
pub open spec fn shown_rows(
    cs: Seq<Container>,
    vs: Seq<Volume>,
    exp: Seq<Seq<char>>,
    active: Option<Seq<char>>,
) -> Seq<RowV> {
    match active {
        Some(p) => crate::tree::filtered(p, crate::tree::tree_spec(cs, vs, exp, true)),
        None => crate::tree::tree_spec(cs, vs, exp, false),
    }
}

/// The first row with key `key`.
pub open spec fn key_index(rows: Seq<RowV>, key: Seq<char>) -> Option<int>
    decreases rows.len(),
{
    if rows.len() == 0 {
        None
    } else {
        match key_index(rows.drop_last(), key) {
            Some(i) => Some(i),
            None => if rows.last().1 == key {
                Some(rows.len() - 1)
            } else {
                None
            },
        }
    }
}

/// The first container row.
pub open spec fn first_container(rows: Seq<RowV>) -> Option<int>
    decreases rows.len(),
{
    if rows.len() == 0 {
        None
    } else {
        match first_container(rows.drop_last()) {
            Some(i) => Some(i),
            None => if rows.last().0.0 == 3 {
                Some(rows.len() - 1)
            } else {
                None
            },
        }
    }
}

/// The selection after the rows changed: the row with the previously
/// selected key, else the old position (kept in range); with a filter
/// active it lands on the first container when it would not be on one.
pub open spec fn reselect(rows: Seq<RowV>, key: Seq<char>, old_sel: int, filtering: bool) -> int {
    let base = match key_index(rows, key) {
        Some(i) => i,
        None => if old_sel < rows.len() - 1 {
            old_sel
        } else if rows.len() > 0 {
            rows.len() - 1
        } else {
            0
        },
    };
    if rows.len() == 0 {
        0
    } else if filtering && rows[base].0.0 != 3 {
        match first_container(rows) {
            Some(i) => i,
            None => base,
        }
    } else {
        base
    }
}

proof fn lemma_key_index(rows: Seq<RowV>, key: Seq<char>)
    ensures
        match key_index(rows, key) {
            Some(i) => 0 <= i < rows.len() && rows[i].1 == key && forall|j: int|
                0 <= j < i ==> (#[trigger] rows[j]).1 != key,
            None => forall|j: int| 0 <= j < rows.len() ==> (#[trigger] rows[j]).1 != key,
        },
    decreases rows.len(),
{
    if rows.len() > 0 {
        lemma_key_index(rows.drop_last(), key);
        assert forall|j: int| 0 <= j < rows.len() - 1 implies rows[j] == rows.drop_last()[j] by {}
    }
}

proof fn lemma_first_container(rows: Seq<RowV>)
    ensures
        match first_container(rows) {
            Some(i) => 0 <= i < rows.len() && rows[i].0.0 == 3 && forall|j: int|
                0 <= j < i ==> (#[trigger] rows[j]).0.0 != 3,
            None => forall|j: int| 0 <= j < rows.len() ==> (#[trigger] rows[j]).0.0 != 3,
        },
    decreases rows.len(),
{
    if rows.len() > 0 {
        lemma_first_container(rows.drop_last());
        assert forall|j: int| 0 <= j < rows.len() - 1 implies rows[j] == rows.drop_last()[j] by {}
    }
}

/// With a filter active and a container row in the tree, the selection
/// after a rebuild is on a container row.
pub proof fn lemma_reselect_on_container(rows: Seq<RowV>, key: Seq<char>, sel: int)
    requires
        first_container(rows) is Some,
        sel >= 0,
    ensures
        0 <= reselect(rows, key, sel, true) < rows.len(),
        rows[reselect(rows, key, sel, true)].0.0 == 3,
{
    lemma_first_container(rows);
    lemma_key_index(rows, key);
}

/// The selection stays on the row with the previously selected key when
/// that row is still shown (and, with a filter active, is a container).
pub proof fn lemma_reselect_keeps_key(rows: Seq<RowV>, key: Seq<char>, sel: int, filtering: bool)
    requires
        key_index(rows, key) is Some,
        !filtering || rows[key_index(rows, key)->0].0.0 == 3,
    ensures
        reselect(rows, key, sel, filtering) == key_index(rows, key)->0,
{
    lemma_key_index(rows, key);
}

/// A non-empty tree always has its selection on a row.
pub proof fn lemma_reselect_in_range(rows: Seq<RowV>, key: Seq<char>, sel: int, filtering: bool)
    requires
        rows.len() > 0,
        sel >= 0,
    ensures
        0 <= reselect(rows, key, sel, filtering) < rows.len(),
{
    lemma_key_index(rows, key);
    lemma_first_container(rows);
}

/// A rebuild under an active filter shows every section, project and
/// service row expanded.
pub proof fn lemma_filtered_rebuild_expands(a: App, old: App)
    requires
        a.rebuilt_from(old),
        old.pattern() is Some,
    ensures
        crate::tree::nodes_open(rows_view(a.tree_rows@)),
{
    let se = mark_seen(strs(old.seen_nodes@), strs(old.expanded@), node_keys(old.containers@));
    crate::tree::lemma_show_all_open(old.containers@, old.volumes@, se.1);
    crate::tree::lemma_filter_keeps_open(
        old.pattern()->0,
        crate::tree::tree_spec(old.containers@, old.volumes@, se.1, true),
    );
}

fn find_row_key(rows: &Vec<Row>, key: &str) -> (r: Option<usize>)
    ensures
        match r {
            Some(i) => key_index(rows_view(rows@), key@) == Some(i as int),
            None => key_index(rows_view(rows@), key@) is None,
        },
{
    let ghost rv = rows_view(rows@);
    proof {
        lemma_key_index(rv, key@);
    }
    let mut i: usize = 0;
    while i < rows.len()
        invariant
            i <= rows@.len(),
            rv == rows_view(rows@),
            forall|j: int| 0 <= j < i ==> (#[trigger] rv[j]).1 != key@,
            match key_index(rv, key@) {
                Some(p) => 0 <= p < rv.len() && rv[p].1 == key@ && forall|j: int|
                    0 <= j < p ==> (#[trigger] rv[j]).1 != key@,
                None => forall|j: int| 0 <= j < rv.len() ==> (#[trigger] rv[j]).1 != key@,
            },
        decreases rows@.len() - i,
    {
        if eq_str(rows[i].key.as_str(), key) {
            assert(rv[i as int].1 == key@);
            proof {
                match key_index(rv, key@) {
                    Some(p) => {
                        if p > i {
                        }
                    },
                    None => {},
                }
            }
            return Some(i);
        }
        i += 1;
    }
    None
}

fn find_first_container(rows: &Vec<Row>) -> (r: Option<usize>)
    ensures
        match r {
            Some(i) => first_container(rows_view(rows@)) == Some(i as int),
            None => first_container(rows_view(rows@)) is None,
        },
{
    let ghost rv = rows_view(rows@);
    proof {
        lemma_first_container(rv);
    }
    let mut i: usize = 0;
    while i < rows.len()
        invariant
            i <= rows@.len(),
            rv == rows_view(rows@),
            forall|j: int| 0 <= j < i ==> (#[trigger] rv[j]).0.0 != 3,
            match first_container(rv) {
                Some(p) => 0 <= p < rv.len() && rv[p].0.0 == 3 && forall|j: int|
                    0 <= j < p ==> (#[trigger] rv[j]).0.0 != 3,
                None => forall|j: int| 0 <= j < rv.len() ==> (#[trigger] rv[j]).0.0 != 3,
            },
        decreases rows@.len() - i,
    {
        let is_c = match &rows[i].kind {
            RowKind::Container(_) => true,
            _ => false,
        };
        if is_c {
            assert(rv[i as int].0.0 == 3);
            proof {
                match first_container(rv) {
                    Some(p) => {
                        if p > i {
                        }
                    },
                    None => {},
                }
            }
            return Some(i);
        }
        i += 1;
    }
    None
}

fn has_text(v: &Vec<String>, k: &str) -> (r: bool)
    ensures
        r == strs(v@).contains(k@),
{
    let mut i: usize = 0;
    while i < v.len()
        invariant
            i <= v@.len(),
            forall|j: int| 0 <= j < i ==> (#[trigger] strs(v@)[j]) != k@,
        decreases v@.len() - i,
    {
        if eq_str(v[i].as_str(), k) {
            assert(strs(v@)[i as int] == k@);
            return true;
        }
        i += 1;
    }
    false
}

fn note_key(seen: &mut Vec<String>, exp: &mut Vec<String>, k: String)
    ensures
        (strs(final(seen)@), strs(final(exp)@)) == (if strs(old(seen)@).contains(k@) {
            (strs(old(seen)@), strs(old(exp)@))
        } else {
            (
                strs(old(seen)@).push(k@),
                if strs(old(exp)@).contains(k@) {
                    strs(old(exp)@)
                } else {
                    strs(old(exp)@).push(k@)
                },
            )
        }),
{
    if has_text(seen, k.as_str()) {
        return;
    }
    if !has_text(exp, k.as_str()) {
        let ghost before = exp@;
        let k2 = k.clone();
        exp.push(k2);
        proof {
            crate::text::lemma_map_push(before, k2, |s: String| s@);
        }
    }
    let ghost before = seen@;
    let ghost kv = k@;
    seen.push(k);
    assert(strs(seen@) =~= strs(before).push(kv));
}

/// Records the project and service nodes: a node seen for the first time
/// starts expanded.
fn auto_expand(cs: &Vec<Container>, seen: &mut Vec<String>, exp: &mut Vec<String>)
    ensures
        (strs(final(seen)@), strs(final(exp)@)) == mark_seen(
            strs(old(seen)@),
            strs(old(exp)@),
            node_keys(cs@),
        ),
{
    let ghost s0 = strs(seen@);
    let ghost e0 = strs(exp@);
    let projects = crate::tree::project_names(cs);
    let ghost ps = strs(projects@);
    let mut i: usize = 0;
    while i < projects.len()
        invariant
            i <= projects@.len(),
            ps == strs(projects@),
            ps == crate::tree::projects_of(cs@),
            (strs(seen@), strs(exp@)) == mark_seen(s0, e0, proj_keys(cs@, ps.take(i as int))),
        decreases projects@.len() - i,
    {
        assert(ps.take(i + 1).drop_last() =~= ps.take(i as int));
        assert(ps.take(i + 1).last() == projects@[i as int]@);
        let p = &projects[i];
        let ghost before_keys = proj_keys(cs@, ps.take(i as int));
        let key = concat2("p:", p.as_str());
        note_key(seen, exp, key);
        assert(before_keys.push("p:"@ + p@).drop_last() =~= before_keys);
        let members = crate::tree::project_members(cs, p.as_str());
        let services = crate::tree::service_names(cs, &members);
        let ghost ss = strs(services@);
        let ghost skeys = ss.map_values(|s: Seq<char>| "p:"@ + p@ + "/"@ + s);
        let ghost base = before_keys.push("p:"@ + p@);
        let mut j: usize = 0;
        while j < services.len()
            invariant
                j <= services@.len(),
                ss == strs(services@),
                skeys == ss.map_values(|s: Seq<char>| "p:"@ + p@ + "/"@ + s),
                (strs(seen@), strs(exp@)) == mark_seen(s0, e0, base + skeys.take(j as int)),
            decreases services@.len() - j,
        {
            let mut sk = concat2("p:", p.as_str());
            crate::text::push_str(&mut sk, "/");
            crate::text::push_str(&mut sk, services[j].as_str());
            assert(sk@ == skeys[j as int]);
            note_key(seen, exp, sk);
            assert((base + skeys.take(j + 1)).drop_last() =~= base + skeys.take(j as int));
            assert((base + skeys.take(j + 1)).last() == skeys[j as int]);
            j += 1;
        }
        assert(skeys.take(services@.len() as int) =~= skeys);
        assert(base + skeys =~= proj_keys(cs@, ps.take(i + 1)));
        i += 1;
    }
    assert(ps.take(projects@.len() as int) =~= ps);
}

/// The row with the previously selected key after a rebuild.
fn reselect_exec(rows: &Vec<Row>, key: &str, old_sel: usize, filtering: bool) -> (r: usize)
    ensures
        r == reselect(rows_view(rows@), key@, old_sel as int, filtering),
{
    let base = match find_row_key(rows, key) {
        Some(i) => i,
        None => if rows.len() > 0 && old_sel < rows.len() - 1 {
            old_sel
        } else if rows.len() > 0 {
            rows.len() - 1
        } else {
            0
        },
    };
    proof {
        lemma_key_index(rows_view(rows@), key@);
    }
    if rows.len() == 0 {
        return 0;
    }
    let on_container = match &rows[base].kind {
        RowKind::Container(_) => true,
        _ => false,
    };
    if filtering && !on_container {
        match find_first_container(rows) {
            Some(i) => i,
            None => base,
        }
    } else {
        base
    }
}


fn first_current_index(contexts: &Vec<DockerContext>) -> (r: Option<usize>)
    ensures
        match r {
            Some(i) => crate::docker::first_current(crate::docker::ctx_views(contexts@)) == Some(
                i as int,
            ),
            None => crate::docker::first_current(crate::docker::ctx_views(contexts@)) is None,
        },
{
    let ghost cv = crate::docker::ctx_views(contexts@);
    let mut i: usize = 0;
    while i < contexts.len()
        invariant
            i <= contexts@.len(),
            cv == crate::docker::ctx_views(contexts@),
            crate::docker::first_current(cv.take(i as int)) is None,
        decreases contexts@.len() - i,
    {
        assert(cv.take(i + 1).drop_last() =~= cv.take(i as int));
        assert(cv.take(i + 1).last() == contexts@[i as int]@);
        if contexts[i].current {
            proof {
                crate::docker::lemma_first_current_prefix(cv, i + 1);
            }
            return Some(i);
        }
        i += 1;
    }
    assert(cv.take(contexts@.len() as int) =~= cv);
    None
}

// ---------------------------------------------------------------- the app

/// The tree fields of `a` are those a rebuild makes from containers `cs`,
/// volumes `vs`, seen and expanded keys `seen0`/`exp0`, the previously
/// selected key and position `key0`/`sel0`, and filter `pat`.
pub open spec fn rebuilt(
    a: App,
    cs: Seq<Container>,
    vs: Seq<Volume>,
    seen0: Seq<Seq<char>>,
    exp0: Seq<Seq<char>>,
    key0: Seq<char>,
    sel0: int,
    pat: Option<Seq<char>>,
) -> bool {
    let se = mark_seen(seen0, exp0, node_keys(cs));
    &&& strs(a.seen_nodes@) == se.0
    &&& strs(a.expanded@) == se.1
    &&& rows_view(a.tree_rows@) == shown_rows(cs, vs, se.1, pat)
    &&& a.tree_sel == reselect(rows_view(a.tree_rows@), key0, sel0, pat is Some)
}

impl App {
    /// The active filter's pattern.
    pub open spec fn pattern(&self) -> Option<Seq<char>> {
        match self.search.active {
            Some(m) => Some(m@),
            None => None,
        }
    }

    /// The key of the selected row (empty with none selected).
    pub open spec fn sel_key(&self) -> Seq<char> {
        if self.tree_sel < self.tree_rows@.len() {
            self.tree_rows@[self.tree_sel as int].key@
        } else {
            Seq::empty()
        }
    }

    /// This app's tree is a rebuild of `old`'s.
    pub open spec fn rebuilt_from(&self, old: App) -> bool {
        rebuilt(
            *self,
            old.containers@,
            old.volumes@,
            strs(old.seen_nodes@),
            strs(old.expanded@),
            old.sel_key(),
            old.tree_sel as int,
            old.pattern(),
        )
    }

    /// Everything but the tree fields is as in `old`.
    pub open spec fn same_but_tree(&self, old: App) -> bool {
        &&& self.mock == old.mock
        &&& self.view == old.view
        &&& self.focus == old.focus
        &&& self.popup == old.popup
        &&& self.popup_sel == old.popup_sel
        &&& self.popup_offset == old.popup_offset
        &&& self.contexts == old.contexts
        &&& self.current_ctx == old.current_ctx
        &&& self.connected == old.connected
        &&& self.conn == old.conn
        &&& self.conn_err == old.conn_err
        &&& self.containers == old.containers
        &&& self.volumes == old.volumes
        &&& self.events == old.events
        &&& self.events_follow == old.events_follow
        &&& self.events_off == old.events_off
        &&& self.stats == old.stats
        &&& self.cpu_hist == old.cpu_hist
        &&& self.mem_hist == old.mem_hist
        &&& self.details == old.details
        &&& self.inspect_sent == old.inspect_sent
        &&& self.detail_scroll == old.detail_scroll
        &&& self.tree_offset == old.tree_offset
        &&& self.log_targets == old.log_targets
        &&& self.log_names == old.log_names
        &&& self.log_lines == old.log_lines
        &&& self.log_follow == old.log_follow
        &&& self.log_off == old.log_off
        &&& self.files == old.files
        &&& self.files_req == old.files_req
        &&& self.stats_sel == old.stats_sel
        &&& self.stats_offset == old.stats_offset
        &&& self.stats_spawned == old.stats_spawned
        &&& self.ops == old.ops
        &&& self.ops_error == old.ops_error
        &&& self.pending == old.pending
        &&& self.edit == old.edit
        &&& self.edit_pending == old.edit_pending
        &&& self.env_editor == old.env_editor
        &&& self.exec_available == old.exec_available
        &&& self.exec_user_input == old.exec_user_input
        &&& self.toast == old.toast
        &&& self.search == old.search
        &&& self.areas == old.areas
        &&& self.split_pct == old.split_pct
        &&& self.dragging_split == old.dragging_split
        &&& self.now_ms == old.now_ms
        &&& self.now_secs == old.now_secs
        &&& self.now_nanos == old.now_nanos
        &&& self.env_vars == old.env_vars
        &&& self.effects == old.effects
    }

    /// Rebuild the tree rows from the containers and volumes: projects and
    /// services met for the first time start expanded, the selection stays
    /// on the same key where it can.
    pub fn rebuild_tree(&mut self)
        ensures
            old(self).wf() ==> final(self).wf(),
            final(self).rebuilt_from(*old(self)),
            final(self).same_but_tree(*old(self)),
    {
        let sel_key = if self.tree_sel < self.tree_rows.len() {
            self.tree_rows[self.tree_sel].key.clone()
        } else {
            String::new()
        };
        auto_expand(&self.containers, &mut self.seen_nodes, &mut self.expanded);
        let filtering = self.search.active.is_some();
        let rows = crate::tree::build_rows(&self.containers, &self.volumes, &self.expanded, filtering);
        let rows = match &self.search.active {
            Some(m) => crate::tree::filter_rows(rows, m),
            None => rows,
        };
        let sel = reselect_exec(&rows, sel_key.as_str(), self.tree_sel, filtering);
        self.tree_rows = rows;
        self.tree_sel = sel;
    }

    /// A fresh interface: tree view, the three sections expanded, the
    /// current context selected.
    pub fn new(
        mock: bool,
        contexts: Vec<DockerContext>,
        ops: Vec<(String, Op)>,
        ops_error: Option<String>,
        exec_available: bool,
        env_vars: Vec<(String, String)>,
    ) -> (r: App)
        ensures
            r.mock == mock,
            r.contexts == contexts,
            r.current_ctx == match crate::docker::first_current(crate::docker::ctx_views(contexts@)) {
                Some(i) => i,
                None => 0,
            },
            r.ops == ops,
            r.ops_error == ops_error,
            r.exec_available == exec_available,
            r.env_vars == env_vars,
            r.view == View::Tree,
            r.focus == Focus::Tree,
            r.popup == Popup::Closed,
            r.conn is Connecting,
            !r.connected,
            r.containers@.len() == 0,
            r.volumes@.len() == 0,
            r.events_follow && r.log_follow,
            r.split_pct == 75,
            r.effects@.len() == 0,
            strs(r.expanded@) == seq!["sec:projects"@, "sec:containers"@, "sec:volumes"@],
            rows_view(r.tree_rows@) == crate::tree::tree_spec(
                Seq::empty(),
                Seq::empty(),
                strs(r.expanded@),
                false,
            ),
            r.events@.len() == 0 && r.events_off == 0,
            r.stats@.len() == 0 && r.cpu_hist@.len() == 0 && r.mem_hist@.len() == 0,
            r.details@.len() == 0 && r.inspect_sent@.len() == 0 && r.detail_scroll == 0,
            r.tree_offset == 0,
            r.log_targets@.len() == 0 && r.log_names@.len() == 0 && r.log_lines@.len() == 0,
            r.log_off == 0,
            r.files is None && r.files_req == 0,
            r.stats_sel == 0 && r.stats_offset == 0 && r.stats_spawned@.len() == 0,
            r.pending is None && r.edit is None && r.edit_pending is None,
            r.env_editor is None && r.exec_user_input is None && r.toast is None,
            r.search.active is None && !r.search.prompting && r.search.error is None,
            r.search.input@ == (Seq::<char>::empty(), 0int) && r.search.last@.len() == 0,
            r.popup_sel == 0 && r.popup_offset == 0 && !r.dragging_split,
            r.now_ms == 0 && r.now_secs == 0 && r.now_nanos == 0,
            r.conn_err@.len() == 0,
            r.wf(),
    {
        let current_ctx = match first_current_index(&contexts) {
            Some(i) => i,
            None => 0,
        };
        let mut expanded: Vec<String> = Vec::new();
        expanded.push(owned("sec:projects"));
        expanded.push(owned("sec:containers"));
        expanded.push(owned("sec:volumes"));
        assert(strs(expanded@) =~= seq!["sec:projects"@, "sec:containers"@, "sec:volumes"@]);
        let mut app = App {
            mock,
            view: View::Tree,
            focus: Focus::Tree,
            popup: Popup::Closed,
            popup_sel: 0,
            popup_offset: 0,
            contexts,
            current_ctx,
            connected: false,
            conn: ConnState::Connecting,
            conn_err: String::new(),
            containers: Vec::new(),
            volumes: Vec::new(),
            events: Vec::new(),
            events_follow: true,
            events_off: 0,
            stats: Vec::new(),
            cpu_hist: Vec::new(),
            mem_hist: Vec::new(),
            details: Vec::new(),
            inspect_sent: Vec::new(),
            detail_scroll: 0,
            tree_rows: Vec::new(),
            tree_sel: 0,
            tree_offset: 0,
            expanded,
            seen_nodes: Vec::new(),
            log_targets: Vec::new(),
            log_names: Vec::new(),
            log_lines: Vec::new(),
            log_follow: true,
            log_off: 0,
            files: None,
            files_req: 0,
            stats_sel: 0,
            stats_offset: 0,
            stats_spawned: Vec::new(),
            ops,
            ops_error,
            pending: None,
            edit: None,
            edit_pending: None,
            env_editor: None,
            exec_available,
            exec_user_input: None,
            toast: None,
            search: Search {
                active: None,
                input: TextInput::default(),
                prompting: false,
                last: String::new(),
                error: None,
            },
            areas: Areas {
                tree: Rect { x: 0, y: 0, width: 0, height: 0 },
                detail: Rect { x: 0, y: 0, width: 0, height: 0 },
                stats_table: Rect { x: 0, y: 0, width: 0, height: 0 },
                stats_charts: Rect { x: 0, y: 0, width: 0, height: 0 },
                logs: Rect { x: 0, y: 0, width: 0, height: 0 },
                events: Rect { x: 0, y: 0, width: 0, height: 0 },
                files: Rect { x: 0, y: 0, width: 0, height: 0 },
                popup: Rect { x: 0, y: 0, width: 0, height: 0 },
                popup_list: Rect { x: 0, y: 0, width: 0, height: 0 },
                env_split_x: 0,
            },
            split_pct: 75,
            dragging_split: false,
            now_ms: 0,
            now_secs: 0,
            now_nanos: 0,
            env_vars,
            effects: Vec::new(),
        };
        proof {
            crate::text::lemma_char_index_exact(Seq::<char>::empty(), 0);
            reveal_with_fuel(mark_seen, 2);
            assert(crate::tree::projects_of(Seq::<Container>::empty()) =~= Seq::<Seq<char>>::empty()) by {
                reveal_with_fuel(crate::util::sorted_texts, 2);
                reveal_with_fuel(crate::tree::dedup, 2);
            }
            assert(node_keys(Seq::<Container>::empty()) =~= Seq::<Seq<char>>::empty());
        }
        app.rebuild_tree();
        app
    }

    /// Updates the clock.
    pub fn set_clock(&mut self, now_ms: u64, now_secs: i64, now_nanos: u32)
        ensures
            old(self).wf() ==> final(self).wf(),
            final(self).now_ms == now_ms,
            final(self).now_secs == now_secs,
            final(self).now_nanos == now_nanos,
    {
        self.now_ms = now_ms;
        self.now_secs = now_secs;
        self.now_nanos = now_nanos;
    }

    /// The context the app talks to.
    pub fn current_context(&self) -> (r: &DockerContext)
        requires
            self.current_ctx < self.contexts@.len(),
        ensures
            *r == self.contexts@[self.current_ctx as int],
    {
        &self.contexts[self.current_ctx]
    }

    /// The pending work, handed over (oldest first); none is left.
    pub fn take_effects(&mut self) -> (r: Vec<Effect>)
        ensures
            r@ == old(self).effects@,
            final(self).effects@.len() == 0,
    {
        let mut out: Vec<Effect> = Vec::new();
        std::mem::swap(&mut out, &mut self.effects);
        out
    }

    /// Every text input sits on a character boundary, the edit form and
    /// env editor are in shape, and no container's data is kept twice.
    pub open spec fn wf(&self) -> bool {
        &&& keys_unique(self.stats@)
        &&& keys_unique(self.cpu_hist@)
        &&& keys_unique(self.mem_hist@)
        &&& keys_unique(self.details@)
        &&& keys_unique(self.inspect_sent@)
        &&& self.search.input.wf()
        &&& (self.exec_user_input matches Some(t) ==> t.wf())
        &&& (self.edit matches Some(f) ==> f.wf())
        &&& (self.env_editor matches Some(e) ==> e.wf())
    }
}


impl App {
    /// Shows a message (`ok`: success or failure), timed from now.
    pub fn toast(&mut self, ok: bool, text: String)
        ensures
            old(self).wf() ==> final(self).wf(),
            *final(self) == (App { toast: Some(Toast { ok, text, at_ms: old(self).now_ms }), ..*old(self) }),
    {
        self.toast = Some(Toast { ok, text, at_ms: self.now_ms });
    }

    /// The message has been up longer than its time.
    pub fn toast_expired(&self) -> (r: bool)
        ensures
            r == match self.toast {
                Some(t) => self.now_ms > t.at_ms && self.now_ms - t.at_ms > TOAST_TTL_MS,
                None => false,
            },
    {
        match &self.toast {
            Some(t) => self.now_ms > t.at_ms && self.now_ms - t.at_ms > TOAST_TTL_MS,
            None => false,
        }
    }
}

} // verus!
