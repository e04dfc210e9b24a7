//! The interface's data: what the daemon reports, what is kept of it, and
//! which background work each change asks for.
use vstd::prelude::*;

use super::{
    assoc_find, assoc_pos, assoc_retain, assoc_retain_exec, rebuilt, App, ConnState, Effect,
    INSPECT_FRESH_MS,
};
use super::lists::{is_up, lemma_select_take, select};
use crate::model::Container;
use crate::text::{eq_str, owned};
use crate::tree::RowKind;
use crate::util::strs;

verus! {

// ---------------------------------------------------------------- small lists

/// The last `n` elements of `s` (all of them when there are fewer).
pub open spec fn keep_last<T>(s: Seq<T>, n: int) -> Seq<T> {
    if s.len() > n {
        s.skip(s.len() - n)
    } else {
        s
    }
}

/// Keeping the last `n` of a list with `x` appended holds at most `n`
/// elements, ends with `x`, and is the end of that list.
pub proof fn lemma_keep_last<T>(s: Seq<T>, x: T, n: int)
    requires
        n > 0,
    ensures
        keep_last(s.push(x), n).len() <= n,
        keep_last(s.push(x), n).last() == x,
        keep_last(s.push(x), n) == s.push(x).skip(s.len() + 1 - keep_last(s.push(x), n).len()),
{
    let t = s.push(x);
    if t.len() <= n {
        assert(t.skip(0) =~= t);
    }
}

/// Appends `x`, then drops the oldest elements beyond `cap`.
pub fn push_capped<T>(v: &mut Vec<T>, x: T, cap: usize)
    ensures
        final(v)@ == keep_last(old(v)@.push(x), cap as int),
{
    v.push(x);
    let ghost full = v@;
    assert(full.len() == v.len());
    let mut k: usize = 0;
    while v.len() > cap
        invariant
            full.len() <= usize::MAX,
            k + v@.len() == full.len(),
            v@ == full.skip(k as int),
            k > 0 ==> v@.len() >= cap,
        decreases v@.len(),
    {
        v.remove(0);
        k += 1;
        assert(v@ =~= full.skip(k as int));
    }
    proof {
        if k == 0 {
            assert(full.skip(0) =~= full);
        }
    }
}

/// `new` is `old` with one more element at the end.
pub open spec fn pushed<T>(old: Seq<T>, new: Seq<T>) -> bool {
    new.len() == old.len() + 1 && new.drop_last() == old
}

/// The same texts, in the same order.
pub fn same_texts(a: &Vec<String>, b: &Vec<String>) -> (r: bool)
    ensures
        r == (strs(a@) == strs(b@)),
{
    if a.len() != b.len() {
        proof {
            if strs(a@) == strs(b@) {
                assert(strs(a@).len() == a@.len());
            }
        }
        return false;
    }
    let mut i: usize = 0;
    while i < a.len()
        invariant
            a@.len() == b@.len(),
            i <= a@.len(),
            forall|j: int| 0 <= j < i ==> (#[trigger] strs(a@)[j]) == strs(b@)[j],
        decreases a@.len() - i,
    {
        if !eq_str(a[i].as_str(), b[i].as_str()) {
            assert(strs(a@)[i as int] != strs(b@)[i as int]);
            return false;
        }
        i += 1;
    }
    assert(strs(a@) =~= strs(b@));
    true
}

/// The ids of `cs`.
pub open spec fn ids_of(cs: Seq<Container>) -> Seq<Seq<char>> {
    cs.map_values(|c: Container| c.id@)
}

/// The ids of the running containers, in list order.
pub open spec fn running_ids_of(cs: Seq<Container>) -> Seq<Seq<char>> {
    ids_of(select(cs, |c: Container| is_up(c)))
}

fn ids_of_list(cs: &Vec<Container>, running_only: bool) -> (r: Vec<String>)
    ensures
        running_only ==> strs(r@) == running_ids_of(cs@),
        !running_only ==> strs(r@) == ids_of(cs@),
{
    let ghost f = |c: Container| is_up(c);
    let mut out: Vec<String> = Vec::new();
    let mut i: usize = 0;
    while i < cs.len()
        invariant
            f == (|c: Container| is_up(c)),
            i <= cs@.len(),
            running_only ==> strs(out@) == ids_of(select(cs@.take(i as int), f)),
            !running_only ==> strs(out@) == ids_of(cs@.take(i as int)),
        decreases cs@.len() - i,
    {
        proof {
            lemma_select_take(cs@, f, i as int);
            crate::text::lemma_map_take_succ(cs@, i as int, |c: Container| c.id@);
        }
        if !running_only || cs[i].is_running() {
            let ghost before = out@;
            let id = cs[i].id.clone();
            out.push(id);
            proof {
                crate::text::lemma_map_push(before, id, |s: String| s@);
                if running_only {
                    crate::text::lemma_map_push(
                        select(cs@.take(i as int), f),
                        cs@[i as int],
                        |c: Container| c.id@,
                    );
                }
            }
        }
        i += 1;
    }
    assert(cs@.take(cs@.len() as int) =~= cs@);
    out
}

/// `new` is `old` with the entry keyed `k` set to value `v` (added at the
/// end when there was none).
pub open spec fn put_at<V>(old: Seq<(String, V)>, new: Seq<(String, V)>, k: Seq<char>, v: V) -> bool {
    match assoc_pos(old, k) {
        Some(i) => {
            &&& new.len() == old.len()
            &&& new[i].0@ == k
            &&& new[i].1 == v
            &&& forall|j: int| 0 <= j < old.len() && j != i ==> #[trigger] new[j] == old[j]
        },
        None => {
            &&& pushed(old, new)
            &&& new.last().0@ == k
            &&& new.last().1 == v
        },
    }
}

/// `old` with `(k, v)` stored under `k`'s view.
pub open spec fn assoc_put<V>(old: Seq<(String, V)>, k: String, v: V) -> Seq<(String, V)> {
    match assoc_pos(old, k@) {
        Some(i) => old.update(i, (k, v)),
        None => old.push((k, v)),
    }
}

pub fn put_entry<V>(m: &mut Vec<(String, V)>, k: String, v: V)
    ensures
        final(m)@ == assoc_put(old(m)@, k, v),
        super::keys_unique(old(m)@) ==> super::keys_unique(final(m)@),
{
    proof {
        super::lemma_assoc_pos(old(m)@, k@);
    }
    match assoc_find(m, k.as_str()) {
        Some(i) => {
            m.set(i, (k, v));
        },
        None => {
            m.push((k, v));
        },
    }
}

/// `new` is `old` with `x` appended to the history keyed `k` (a new
/// history when there was none), each history keeping `cap` samples.
pub open spec fn hist_pushed(
    old: Seq<(String, Vec<u64>)>,
    new: Seq<(String, Vec<u64>)>,
    k: Seq<char>,
    x: u64,
    cap: int,
) -> bool {
    match assoc_pos(old, k) {
        Some(i) => {
            &&& new.len() == old.len()
            &&& new[i].0 == old[i].0
            &&& new[i].1@ == keep_last(old[i].1@.push(x), cap)
            &&& forall|j: int| 0 <= j < old.len() && j != i ==> #[trigger] new[j] == old[j]
        },
        None => {
            &&& pushed(old, new)
            &&& new.last().0@ == k
            &&& new.last().1@ == keep_last(seq![x], cap)
        },
    }
}

pub fn push_hist(m: &mut Vec<(String, Vec<u64>)>, k: &str, x: u64, cap: usize)
    ensures
        hist_pushed(old(m)@, final(m)@, k@, x, cap as int),
        super::keys_unique(old(m)@) ==> super::keys_unique(final(m)@),
{
    proof {
        super::lemma_assoc_pos(old(m)@, k@);
    }
    match assoc_find(m, k) {
        Some(i) => {
            let (key, mut h) = m.remove(i);
            push_capped(&mut h, x, cap);
            m.insert(i, (key, h));
        },
        None => {
            let mut h: Vec<u64> = Vec::new();
            push_capped(&mut h, x, cap);
            m.push((owned(k), h));
            assert(m@.drop_last() =~= old(m)@);
        },
    }
}

// ---------------------------------------------------------------- effects of a change

/// `new` is `old` with the stats streams brought in line with the running
/// containers (only while the stats view is open against a daemon).
pub open spec fn stats_synced(old: App, new: App) -> bool {
    let ids = running_ids_of(old.containers@);
    if old.view != super::View::Stats || old.mock || strs(old.stats_spawned@) == ids {
        new == old
    } else {
        &&& strs(new.stats_spawned@) == ids
        &&& pushed(old.effects@, new.effects@)
        &&& match new.effects@.last() {
            Effect::StartStats(v) => old.connected && strs(v@) == ids,
            Effect::StopStats => !old.connected,
            _ => false,
        }
        &&& new == (App { stats_spawned: new.stats_spawned, effects: new.effects, ..old })
    }
}

/// An inspect of `id` went out less than the freshness window ago.
pub open spec fn inspect_fresh(a: App, id: Seq<char>) -> bool {
    match assoc_pos(a.inspect_sent@, id) {
        Some(i) => a.now_ms < a.inspect_sent@[i].1 + INSPECT_FRESH_MS,
        None => false,
    }
}

/// `new` is `old` after asking for `id` to be inspected: nothing happens
/// when its details are known, a request is still fresh, or there is no
/// daemon.
pub open spec fn inspect_requested(old: App, new: App, id: Seq<char>) -> bool {
    if assoc_pos(old.details@, id) is Some || inspect_fresh(old, id) || !old.connected {
        new == old
    } else {
        &&& put_at(old.inspect_sent@, new.inspect_sent@, id, old.now_ms)
        &&& pushed(old.effects@, new.effects@)
        &&& (new.effects@.last() matches Effect::Inspect(s) && s@ == id)
        &&& new == (App { inspect_sent: new.inspect_sent, effects: new.effects, ..old })
    }
}

/// The id of the selected container row.
pub open spec fn selected_container_id(a: App) -> Option<Seq<char>> {
    if a.tree_sel < a.tree_rows@.len() {
        match a.tree_rows@[a.tree_sel as int].kind {
            RowKind::Container(id) => Some(id@),
            _ => None,
        }
    } else {
        None
    }
}

/// `new` is `old` after asking for the selected container's details.
pub open spec fn selection_inspected(old: App, new: App) -> bool {
    if old.mock {
        new == old
    } else {
        match selected_container_id(old) {
            Some(id) => inspect_requested(old, new, id),
            None => new == old,
        }
    }
}

/// `new` is `old` after leaving the current view: the streams that only
/// the stats or logs view uses are stopped and forgotten.
pub open spec fn streams_left(old: App, new: App) -> bool {
    match old.view {
        super::View::Stats => {
            &&& new.stats_spawned@.len() == 0
            &&& new.effects@ == old.effects@.push(Effect::StopStats)
            &&& new == (App { stats_spawned: new.stats_spawned, effects: new.effects, ..old })
        },
        super::View::Logs => {
            &&& new.log_targets@.len() == 0
            &&& new.log_names@.len() == 0
            &&& new.effects@ == old.effects@.push(Effect::StopLogs)
            &&& new == (App {
                log_targets: new.log_targets,
                log_names: new.log_names,
                effects: new.effects,
                ..old
            })
        },
        _ => new == old,
    }
}

/// `new` is `old` after dropping the connection and everything learnt
/// through it, with the forms closed and a connection asked for.
pub open spec fn bootstrapped(old: App, new: App) -> bool {
    &&& !new.connected
    &&& new.conn is Connecting
    &&& new.conn_err@.len() == 0
    &&& new.pending is None
    &&& new.edit is None
    &&& new.edit_pending is None
    &&& new.env_editor is None
    &&& new.exec_user_input is None
    &&& new.files is None
    &&& new.view == if old.files is Some && old.view == super::View::Files {
        super::View::Tree
    } else {
        old.view
    }
    &&& new.containers@.len() == 0
    &&& new.volumes@.len() == 0
    &&& new.events@.len() == 0
    &&& new.stats@.len() == 0
    &&& new.cpu_hist@.len() == 0
    &&& new.mem_hist@.len() == 0
    &&& new.details@.len() == 0
    &&& new.inspect_sent@.len() == 0
    &&& new.log_lines@.len() == 0
    &&& new.log_targets@.len() == 0
    &&& new.log_names@.len() == 0
    &&& new.stats_spawned@.len() == 0
    &&& rebuilt(
        new,
        Seq::empty(),
        Seq::empty(),
        Seq::empty(),
        strs(old.expanded@),
        old.sel_key(),
        old.tree_sel as int,
        old.pattern(),
    )
    &&& new.effects@ == old.effects@.push(Effect::Connect)
    &&& new == (App {
        connected: new.connected,
        conn: new.conn,
        conn_err: new.conn_err,
        pending: new.pending,
        edit: new.edit,
        edit_pending: new.edit_pending,
        env_editor: new.env_editor,
        exec_user_input: new.exec_user_input,
        files: new.files,
        view: new.view,
        containers: new.containers,
        volumes: new.volumes,
        events: new.events,
        stats: new.stats,
        cpu_hist: new.cpu_hist,
        mem_hist: new.mem_hist,
        details: new.details,
        inspect_sent: new.inspect_sent,
        log_lines: new.log_lines,
        log_targets: new.log_targets,
        log_names: new.log_names,
        stats_spawned: new.stats_spawned,
        seen_nodes: new.seen_nodes,
        expanded: new.expanded,
        tree_rows: new.tree_rows,
        tree_sel: new.tree_sel,
        effects: new.effects,
        ..old
    })
}

impl App {
    fn running_ids(&self) -> (r: Vec<String>)
        ensures
            strs(r@) == running_ids_of(self.containers@),
    {
        ids_of_list(&self.containers, true)
    }

    /// Brings the stats streams in line with the running containers.
    pub fn sync_stats_tasks(&mut self)
        ensures
            old(self).wf() ==> final(self).wf(),
            stats_synced(*old(self), *final(self)),
    {
        if self.view != super::View::Stats || self.mock {
            return;
        }
        let ids = self.running_ids();
        if same_texts(&ids, &self.stats_spawned) {
            return;
        }
        let ghost before = self.effects@;
        let e = if self.connected {
            Effect::StartStats(crate::model::clone_strings(&ids))
        } else {
            Effect::StopStats
        };
        self.effects.push(e);
        assert(self.effects@.drop_last() =~= before);
        self.stats_spawned = ids;
    }

    /// Stops the streams that only the current view uses.
    pub fn leave_view_streams(&mut self)
        ensures
            old(self).wf() ==> final(self).wf(),
            streams_left(*old(self), *final(self)),
    {
        match self.view {
            super::View::Stats => {
                self.effects.push(Effect::StopStats);
                self.stats_spawned = Vec::new();
            },
            super::View::Logs => {
                self.effects.push(Effect::StopLogs);
                self.log_targets = Vec::new();
                self.log_names = Vec::new();
            },
            _ => {},
        }
    }

    /// Asks for the details of container `id` unless they are known or on
    /// their way.
    pub fn request_inspect(&mut self, id: &str)
        ensures
            old(self).wf() ==> final(self).wf(),
            inspect_requested(*old(self), *final(self), id@),
    {
        let fresh = match assoc_find(&self.inspect_sent, id) {
            Some(i) => (self.now_ms as u128) < (self.inspect_sent[i].1 as u128) + (
            INSPECT_FRESH_MS as u128),
            None => false,
        };
        if assoc_find(&self.details, id).is_some() || fresh || !self.connected {
            return;
        }
        let ghost before = self.effects@;
        let ghost sent = self.inspect_sent@;
        let now = self.now_ms;
        let key = owned(id);
        put_entry(&mut self.inspect_sent, key, now);
        proof {
            if assoc_pos(sent, id@) is None {
                assert(self.inspect_sent@.drop_last() =~= sent);
            }
        }
        self.effects.push(Effect::Inspect(owned(id)));
        assert(self.effects@.drop_last() =~= before);
    }

    /// Asks for the details of the selected container.
    pub fn request_inspect_for_selection(&mut self)
        ensures
            old(self).wf() ==> final(self).wf(),
            selection_inspected(*old(self), *final(self)),
    {
        if self.mock {
            return;
        }
        if self.tree_sel >= self.tree_rows.len() {
            return;
        }
        let id = match &self.tree_rows[self.tree_sel].kind {
            RowKind::Container(id) => id.clone(),
            _ => {
                return;
            },
        };
        self.request_inspect(id.as_str());
    }

    /// Forgets everything kept for containers that are gone.
    pub(crate) fn prune_stale(&mut self, list: &Vec<Container>)
        ensures
            old(self).wf() ==> final(self).wf(),
            final(self).stats@ == assoc_retain(old(self).stats@, ids_of(list@)),
            final(self).cpu_hist@ == assoc_retain(old(self).cpu_hist@, ids_of(list@)),
            final(self).mem_hist@ == assoc_retain(old(self).mem_hist@, ids_of(list@)),
            final(self).details@ == assoc_retain(old(self).details@, ids_of(list@)),
            final(self).inspect_sent@ == assoc_retain(old(self).inspect_sent@, ids_of(list@)),
            *final(self) == (App {
                stats: final(self).stats,
                cpu_hist: final(self).cpu_hist,
                mem_hist: final(self).mem_hist,
                details: final(self).details,
                inspect_sent: final(self).inspect_sent,
                ..*old(self)
            }),
    {
        let ids = ids_of_list(list, false);
        assoc_retain_exec(&mut self.stats, &ids);
        assoc_retain_exec(&mut self.cpu_hist, &ids);
        assoc_retain_exec(&mut self.mem_hist, &ids);
        assoc_retain_exec(&mut self.details, &ids);
        assoc_retain_exec(&mut self.inspect_sent, &ids);
    }

    /// Forgets all daemon data and rebuilds the (now empty) tree.
    pub fn clear_data(&mut self)
        ensures
            old(self).wf() ==> final(self).wf(),
            final(self).containers@.len() == 0,
            final(self).volumes@.len() == 0,
            final(self).events@.len() == 0,
            final(self).stats@.len() == 0,
            final(self).cpu_hist@.len() == 0,
            final(self).mem_hist@.len() == 0,
            final(self).details@.len() == 0,
            final(self).inspect_sent@.len() == 0,
            final(self).log_lines@.len() == 0,
            final(self).log_targets@.len() == 0,
            final(self).log_names@.len() == 0,
            final(self).stats_spawned@.len() == 0,
            rebuilt(
                *final(self),
                Seq::empty(),
                Seq::empty(),
                Seq::empty(),
                strs(old(self).expanded@),
                old(self).sel_key(),
                old(self).tree_sel as int,
                old(self).pattern(),
            ),
            *final(self) == (App {
                containers: final(self).containers,
                volumes: final(self).volumes,
                events: final(self).events,
                stats: final(self).stats,
                cpu_hist: final(self).cpu_hist,
                mem_hist: final(self).mem_hist,
                details: final(self).details,
                inspect_sent: final(self).inspect_sent,
                log_lines: final(self).log_lines,
                log_targets: final(self).log_targets,
                log_names: final(self).log_names,
                stats_spawned: final(self).stats_spawned,
                seen_nodes: final(self).seen_nodes,
                expanded: final(self).expanded,
                tree_rows: final(self).tree_rows,
                tree_sel: final(self).tree_sel,
                ..*old(self)
            }),
    {
        self.containers = Vec::new();
        self.volumes = Vec::new();
        self.events = Vec::new();
        self.stats = Vec::new();
        self.cpu_hist = Vec::new();
        self.mem_hist = Vec::new();
        self.details = Vec::new();
        self.inspect_sent = Vec::new();
        self.log_lines = Vec::new();
        self.log_targets = Vec::new();
        self.log_names = Vec::new();
        self.stats_spawned = Vec::new();
        self.seen_nodes = Vec::new();
        assert(strs(self.seen_nodes@) =~= Seq::<Seq<char>>::empty());
        self.rebuild_tree();
    }

    /// Drops the connection and everything learnt through it, closes the
    /// forms, and asks for a connection to the current context.
    pub fn bootstrap(&mut self)
        ensures
            old(self).wf() ==> final(self).wf(),
            bootstrapped(*old(self), *final(self)),
    {
        self.connected = false;
        self.stats_spawned = Vec::new();
        self.pending = None;
        self.edit = None;
        self.edit_pending = None;
        self.env_editor = None;
        self.exec_user_input = None;
        if self.files.is_some() {
            self.files = None;
            if self.view == super::View::Files {
                self.view = super::View::Tree;
            }
        }
        self.clear_data();
        self.conn = ConnState::Connecting;
        self.conn_err = String::new();
        self.effects.push(Effect::Connect);
    }
}

} // verus!
