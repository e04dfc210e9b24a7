//! Moving between views: the selection, the log view's targets, the file
//! explorer and the `/` filter.
use vstd::prelude::*;

use super::data::{pushed, selected_container_id, stats_synced, streams_left};
use super::lists::{lemma_select_take, running_by_name, select};
use super::{has_text, App, Effect, FilesState, LogTarget, Search, Toast};
use crate::files::{child_of, fs_views, mock_dir};
use crate::model::Container;
use crate::text::{chars_of, concat2, owned, slice_chars, string_of};
use crate::tree::{KindV, Row, RowKind};
use crate::util::strs;

verus! {

// ---------------------------------------------------------------- searching lists

/// The first index of `s` whose element satisfies `f`.
pub open spec fn first_where<T>(s: Seq<T>, f: spec_fn(T) -> bool) -> Option<int>
    decreases s.len(),
{
    if s.len() == 0 {
        None
    } else {
        match first_where(s.drop_last(), f) {
            Some(i) => Some(i),
            None => if f(s.last()) {
                Some(s.len() - 1)
            } else {
                None
            },
        }
    }
}

pub proof fn lemma_first_where<T>(s: Seq<T>, f: spec_fn(T) -> bool)
    ensures
        match first_where(s, f) {
            Some(i) => 0 <= i < s.len() && f(s[i]) && forall|j: int| 0 <= j < i ==> !f(#[trigger] s[j]),
            None => forall|j: int| 0 <= j < s.len() ==> !f(#[trigger] s[j]),
        },
    decreases s.len(),
{
    if s.len() > 0 {
        lemma_first_where(s.drop_last(), f);
        assert forall|j: int| 0 <= j < s.len() - 1 implies s[j] == s.drop_last()[j] by {}
    }
}

/// The container has id `id`.
pub open spec fn with_id(id: Seq<char>) -> spec_fn(Container) -> bool {
    |c: Container| c.id@ == id
}

/// The first container with id `id`.
pub open spec fn container_with(cs: Seq<Container>, id: Seq<char>) -> Option<Container> {
    match first_where(cs, with_id(id)) {
        Some(i) => Some(cs[i]),
        None => None,
    }
}

pub proof fn lemma_container_with(cs: Seq<Container>, id: Seq<char>)
    ensures
        match container_with(cs, id) {
            Some(c) => c.id@ == id,
            None => true,
        },
{
    let f = with_id(id);
    lemma_first_where(cs, f);
    match first_where(cs, f) {
        Some(i) => {
            assert(f(cs[i]));
        },
        None => {},
    }
}

/// The containers a row of kind `k` stands for: the container itself, or
/// the members of a service or project.
pub open spec fn row_containers(cs: Seq<Container>, k: KindV) -> Seq<Container> {
    if k.0 == 3 {
        match container_with(cs, k.1) {
            Some(c) => seq![c],
            None => Seq::empty(),
        }
    } else if k.0 == 2 {
        select(cs, |c: Container| c.project() == Some(k.1) && c.service() == Some(k.2))
    } else if k.0 == 1 {
        select(cs, |c: Container| c.project() == Some(k.1))
    } else {
        Seq::empty()
    }
}

/// The distinct texts of `s`, in order of first appearance.
pub open spec fn uniq(s: Seq<Seq<char>>) -> Seq<Seq<char>>
    decreases s.len(),
{
    if s.len() == 0 {
        s
    } else {
        let r = uniq(s.drop_last());
        if r.contains(s.last()) {
            r
        } else {
            r.push(s.last())
        }
    }
}

/// The names of the log targets.
pub open spec fn target_names(ts: Seq<LogTarget>) -> Seq<Seq<char>> {
    ts.map_values(|t: LogTarget| t.name@)
}

/// Log targets for the containers `cs`.
pub open spec fn targets_for(cs: Seq<Container>) -> Seq<LogTarget> {
    cs.map_values(|c: Container| LogTarget { id: c.id, name: c.name })
}

// ---------------------------------------------------------------- what a move does

/// `new` is `m` with the log view opened afresh on `targets`.
pub open spec fn logs_reset(m: App, new: App, targets: Seq<LogTarget>) -> bool {
    &&& new.log_lines@.len() == 0
    &&& strs(new.log_names@) == uniq(target_names(targets))
    &&& new.log_targets@ == targets
    &&& pushed(m.effects@, new.effects@)
    &&& match new.effects@.last() {
        Effect::StartLogs(v) => !m.mock && m.connected && v@ == targets,
        Effect::StopLogs => m.mock || !m.connected,
        _ => false,
    }
    &&& new == (App {
        log_lines: new.log_lines,
        log_off: 0,
        log_follow: true,
        log_names: new.log_names,
        log_targets: new.log_targets,
        view: super::View::Logs,
        effects: new.effects,
        ..m
    })
}

/// `new` is `old` with the current view's streams stopped and the log view
/// opened on `targets`.
pub open spec fn logs_opened(old: App, new: App, targets: Seq<LogTarget>) -> bool {
    exists|m: App| #[trigger] streams_left(old, m) && logs_reset(m, new, targets)
}

/// `new` is `old` with the log view opened on the containers of the
/// selected row (nothing happens when it stands for none).
pub open spec fn row_logs_opened(old: App, new: App) -> bool {
    if old.tree_sel < old.tree_rows@.len() {
        let cs = row_containers(old.containers@, old.tree_rows@[old.tree_sel as int]@.0);
        if cs.len() == 0 {
            new == old
        } else {
            logs_opened(old, new, targets_for(cs))
        }
    } else {
        new == old
    }
}

/// The selected row is a container that exists.
pub open spec fn on_container(a: App) -> bool {
    match selected_container_id(a) {
        Some(id) => container_with(a.containers@, id) is Some,
        None => false,
    }
}

/// `new` is `old` after switching to view `v`.
pub open spec fn view_entered(old: App, new: App, v: super::View) -> bool {
    match v {
        super::View::Logs => if old.log_targets@.len() == 0 {
            if on_container(old) {
                row_logs_opened(old, new)
            } else if running_by_name(old.containers@).len() > 0 {
                let c = running_by_name(old.containers@)[0];
                logs_opened(old, new, seq![LogTarget { id: c.id, name: c.name }])
            } else {
                new == (App { view: super::View::Logs, ..old })
            }
        } else {
            new == (App { view: super::View::Logs, ..old })
        },
        super::View::Stats => exists|m: App|
            #[trigger] stats_synced(m, new) && m.stats_spawned@.len() == 0 && m == (App {
                view: super::View::Stats,
                stats_spawned: m.stats_spawned,
                ..old
            }),
        _ => new == (App { view: v, ..old }),
    }
}

/// The request number after `n`.
pub open spec fn next_req(n: u64) -> u64 {
    if n == u64::MAX {
        0
    } else {
        (n + 1) as u64
    }
}

/// `new` is `old` after asking for the explorer's current directory.
pub open spec fn files_requested(old: App, new: App) -> bool {
    match old.files {
        None => new == old,
        Some(f) => {
            let req = next_req(old.files_req);
            &&& new.files_req == req
            &&& new.files matches Some(g) && g.id == f.id && g.name == f.name && g.path == f.path
                && g.req == req && g.offset == f.offset && if old.mock {
                !g.loading && fs_views(g.entries@) == mock_dir(f.path@) && g.sel == 0
                    && g.error is None
            } else if !old.connected {
                !g.loading && g.entries == f.entries && g.sel == f.sel && (g.error matches Some(
                    e,
                ) && e@ == "not connected"@)
            } else {
                g.loading && g.entries == f.entries && g.sel == f.sel && g.error is None
            }
            &&& if !old.mock && old.connected {
                &&& pushed(old.effects@, new.effects@)
                &&& new.effects@.last() matches Effect::ListFiles { req: r, id, path } && r == req
                    && id@ == f.id@ && path@ == f.path@
            } else {
                new.effects == old.effects
            }
            &&& new == (App {
                files: new.files,
                files_req: new.files_req,
                effects: new.effects,
                ..old
            })
        },
    }
}

/// `new` is `old` with the explorer moved to `path` (selection at the top)
/// and the directory asked for.
pub open spec fn files_navigated(old: App, new: App, path: Seq<char>) -> bool {
    match old.files {
        None => new == old,
        Some(f) => exists|m: App|
            #[trigger] files_requested(m, new) && (m.files matches Some(g) && g.path@ == path
                && g == (FilesState { path: g.path, sel: 0, ..f })) && m == (App {
                files: m.files,
                ..old
            }),
    }
}

/// `new` is `old` with the explorer opened at `/` on container `id`
/// (shown as `name`).
pub open spec fn files_opened(old: App, new: App, id: Seq<char>, name: Seq<char>) -> bool {
    exists|m1: App, m2: App|
        #![trigger streams_left(old, m1), files_requested(m2, new)]
        streams_left(old, m1) && files_requested(m2, new) && (m2.files matches Some(g) && g.id@
            == id && g.name@ == name && g.path@ == "/"@ && g.entries@.len() == 0 && g.sel == 0
            && g.offset == 0 && !g.loading && g.error is None && g.req == 0) && m2 == (App {
            view: super::View::Files,
            files: m2.files,
            ..m1
        })
}

/// The first 12 characters of `s`.
pub open spec fn short12(s: Seq<char>) -> Seq<char> {
    if s.len() > 12 {
        s.take(12)
    } else {
        s
    }
}

/// `new` is `old` after a toast with text `text`.
pub open spec fn toasted(old: App, new: App, ok: bool, text: Seq<char>) -> bool {
    new.toast matches Some(t) && t.ok == ok && t.text@ == text && t.at_ms == old.now_ms && new == (
    App { toast: new.toast, ..old })
}

/// `new` is `old` with the explorer opened on the selected container (a
/// toast when the row is not a container).
pub open spec fn row_files_opened(old: App, new: App) -> bool {
    if old.tree_sel < old.tree_rows@.len() {
        match old.tree_rows@[old.tree_sel as int].kind {
            RowKind::Container(id) => files_opened(
                old,
                new,
                id@,
                match container_with(old.containers@, id@) {
                    Some(c) => c.name@,
                    None => short12(id@),
                },
            ),
            _ => toasted(old, new, false, "files: only containers can be browsed"@),
        }
    } else {
        new == old
    }
}

impl App {
    /// The selected tree row.
    pub fn selected_row(&self) -> (r: Option<&Row>)
        ensures
            match r {
                Some(x) => self.tree_sel < self.tree_rows@.len() && *x == self.tree_rows@[self.tree_sel as int],
                None => self.tree_sel >= self.tree_rows@.len(),
            },
    {
        if self.tree_sel < self.tree_rows.len() {
            Some(&self.tree_rows[self.tree_sel])
        } else {
            None
        }
    }

    /// The first container with id `id`.
    pub fn container_by_id(&self, id: &str) -> (r: Option<&Container>)
        ensures
            match r {
                Some(c) => container_with(self.containers@, id@) == Some(*c),
                None => container_with(self.containers@, id@) is None,
            },
    {
        let ghost f = with_id(id@);
        proof {
            lemma_first_where(self.containers@, f);
        }
        let mut i: usize = 0;
        while i < self.containers.len()
            invariant
                f == with_id(id@),
                i <= self.containers@.len(),
                forall|j: int| 0 <= j < i ==> !f(#[trigger] self.containers@[j]),
                match first_where(self.containers@, f) {
                    Some(p) => 0 <= p < self.containers@.len() && f(self.containers@[p]) && forall|
                        j: int,
                    | 0 <= j < p ==> !f(#[trigger] self.containers@[j]),
                    None => forall|j: int|
                        0 <= j < self.containers@.len() ==> !f(#[trigger] self.containers@[j]),
                },
            decreases self.containers@.len() - i,
        {
            if crate::text::eq_str(self.containers[i].id.as_str(), id) {
                proof {
                    assert(f(self.containers@[i as int]));
                    match first_where(self.containers@, f) {
                        Some(p) => {
                            if p > i {
                            }
                        },
                        None => {},
                    }
                }
                return Some(&self.containers[i]);
            }
            i += 1;
        }
        None
    }

    /// The container of the selected row, when it is a container row.
    pub fn selected_container(&self) -> (r: Option<&Container>)
        ensures
            match selected_container_id(*self) {
                Some(id) => match r {
                    Some(c) => container_with(self.containers@, id) == Some(*c),
                    None => container_with(self.containers@, id) is None,
                },
                None => r is None,
            },
    {
        let row = match self.selected_row() {
            Some(r) => r,
            None => {
                return None;
            },
        };
        match &row.kind {
            RowKind::Container(id) => self.container_by_id(id.as_str()),
            _ => None,
        }
    }

    /// The containers a row stands for.
    pub fn containers_for_row(&self, row: &Row) -> (r: Vec<&Container>)
        ensures
            super::lists::derefs(r@) == row_containers(self.containers@, row@.0),
    {
        let mut out: Vec<&Container> = Vec::new();
        match &row.kind {
            RowKind::Container(id) => {
                match self.container_by_id(id.as_str()) {
                    Some(c) => {
                        out.push(c);
                        assert(super::lists::derefs(out@) =~= seq![*c]);
                    },
                    None => {
                        assert(super::lists::derefs(out@) =~= Seq::<Container>::empty());
                    },
                }
                out
            },
            RowKind::Service(p, s) => {
                let ghost f = |c: Container| c.project() == Some(p@) && c.service() == Some(s@);
                let mut i: usize = 0;
                while i < self.containers.len()
                    invariant
                        f == (|c: Container| c.project() == Some(p@) && c.service() == Some(s@)),
                        i <= self.containers@.len(),
                        super::lists::derefs(out@) == select(self.containers@.take(i as int), f),
                    decreases self.containers@.len() - i,
                {
                    proof {
                        lemma_select_take(self.containers@, f, i as int);
                    }
                    let c = &self.containers[i];
                    let in_p = match c.compose_project() {
                        Some(x) => crate::text::eq_str(x.as_str(), p.as_str()),
                        None => false,
                    };
                    let in_s = match c.compose_service() {
                        Some(x) => crate::text::eq_str(x.as_str(), s.as_str()),
                        None => false,
                    };
                    if in_p && in_s {
                        let ghost before = out@;
                        out.push(c);
                        proof {
                            super::lists::lemma_derefs_push(before, c);
                        }
                    }
                    i += 1;
                }
                assert(self.containers@.take(self.containers@.len() as int) =~= self.containers@);
                out
            },
            RowKind::Project(p) => {
                let ghost f = |c: Container| c.project() == Some(p@);
                let mut i: usize = 0;
                while i < self.containers.len()
                    invariant
                        f == (|c: Container| c.project() == Some(p@)),
                        i <= self.containers@.len(),
                        super::lists::derefs(out@) == select(self.containers@.take(i as int), f),
                    decreases self.containers@.len() - i,
                {
                    proof {
                        lemma_select_take(self.containers@, f, i as int);
                    }
                    let c = &self.containers[i];
                    let in_p = match c.compose_project() {
                        Some(x) => crate::text::eq_str(x.as_str(), p.as_str()),
                        None => false,
                    };
                    if in_p {
                        let ghost before = out@;
                        out.push(c);
                        proof {
                            super::lists::lemma_derefs_push(before, c);
                        }
                    }
                    i += 1;
                }
                assert(self.containers@.take(self.containers@.len() as int) =~= self.containers@);
                out
            },
            _ => {
                assert(super::lists::derefs(out@) =~= Seq::<Container>::empty());
                out
            },
        }
    }

    /// Opens the log view on `targets`, following their output.
    pub fn open_logs(&mut self, targets: Vec<LogTarget>)
        ensures
            old(self).wf() ==> final(self).wf(),
            logs_opened(*old(self), *final(self), targets@),
    {
        self.leave_view_streams();
        let ghost m = *self;
        let mut names: Vec<String> = Vec::new();
        let mut i: usize = 0;
        while i < targets.len()
            invariant
                i <= targets@.len(),
                strs(names@) == uniq(target_names(targets@.take(i as int))),
            decreases targets@.len() - i,
        {
            assert(targets@.take(i + 1).drop_last() =~= targets@.take(i as int));
            assert(target_names(targets@.take(i + 1)) =~= target_names(targets@.take(i as int)).push(
                targets@[i as int].name@,
            ));
            assert(target_names(targets@.take(i as int)).push(targets@[i as int].name@).drop_last()
                =~= target_names(targets@.take(i as int)));
            if !has_text(&names, targets[i].name.as_str()) {
                let ghost before = names@;
                let n = targets[i].name.clone();
                names.push(n);
                proof {
                    crate::text::lemma_map_push(before, n, |s: String| s@);
                }
            }
            i += 1;
        }
        assert(targets@.take(targets@.len() as int) =~= targets@);
        let e = if !self.mock && self.connected {
            let mut copy: Vec<LogTarget> = Vec::new();
            let mut j: usize = 0;
            while j < targets.len()
                invariant
                    j <= targets@.len(),
                    copy@ == targets@.take(j as int),
                decreases targets@.len() - j,
            {
                copy.push(targets[j].clone());
                assert(copy@ =~= targets@.take(j + 1));
                j += 1;
            }
            assert(copy@ =~= targets@);
            Effect::StartLogs(copy)
        } else {
            Effect::StopLogs
        };
        self.effects.push(e);
        assert(self.effects@.drop_last() =~= m.effects@);
        self.log_lines = Vec::new();
        self.log_off = 0;
        self.log_follow = true;
        self.log_names = names;
        self.log_targets = targets;
        self.view = super::View::Logs;
        assert(streams_left(*old(self), m));
    }

    /// Opens the log view on the containers of the selected row.
    pub fn open_logs_for_row(&mut self)
        ensures
            old(self).wf() ==> final(self).wf(),
            row_logs_opened(*old(self), *final(self)),
    {
        if self.tree_sel >= self.tree_rows.len() {
            return;
        }
        let row = self.tree_rows[self.tree_sel].clone();
        let targets = {
            let cs = self.containers_for_row(&row);
            if cs.len() == 0 {
                return;
            }
            let mut targets: Vec<LogTarget> = Vec::new();
            let mut i: usize = 0;
            while i < cs.len()
                invariant
                    i <= cs@.len(),
                    targets@ == targets_for(super::lists::derefs(cs@).take(i as int)),
                decreases cs@.len() - i,
            {
                let c = cs[i];
                let t = LogTarget { id: c.id.clone(), name: c.name.clone() };
                targets.push(t);
                assert(super::lists::derefs(cs@).take(i + 1) =~= super::lists::derefs(cs@).take(
                    i as int,
                ).push(*c));
                assert(targets@ =~= targets_for(super::lists::derefs(cs@).take(i + 1)));
                i += 1;
            }
            assert(super::lists::derefs(cs@).take(cs@.len() as int) =~= super::lists::derefs(cs@));
            targets
        };
        self.open_logs(targets);
    }

    /// Switches to view `view`, starting what it needs.
    pub fn enter_view(&mut self, view: super::View)
        ensures
            old(self).wf() ==> final(self).wf(),
            view_entered(*old(self), *final(self), view),
    {
        match view {
            super::View::Logs => {
                if self.log_targets.len() == 0 {
                    let on_c = self.selected_container().is_some();
                    if on_c {
                        self.open_logs_for_row();
                    } else {
                        let first = {
                            let run = self.running_containers();
                            if run.len() > 0 {
                                let c = run[0];
                                Some(LogTarget { id: c.id.clone(), name: c.name.clone() })
                            } else {
                                None
                            }
                        };
                        match first {
                            Some(t) => {
                                let mut ts: Vec<LogTarget> = Vec::new();
                                ts.push(t);
                                self.open_logs(ts);
                            },
                            None => {
                                self.view = super::View::Logs;
                            },
                        }
                    }
                } else {
                    self.view = super::View::Logs;
                }
            },
            super::View::Stats => {
                self.view = super::View::Stats;
                self.stats_spawned = Vec::new();
                let ghost m = *self;
                self.sync_stats_tasks();
                assert(stats_synced(m, *self));
            },
            _ => {
                self.view = view;
            },
        }
    }

    /// Drops the `/` filter and rebuilds the tree.
    pub fn clear_filter(&mut self)
        ensures
            old(self).wf() ==> final(self).wf(),
            ({
                let m = App { search: Search { active: None, error: None, ..old(self).search }, ..*old(self) };
                final(self).rebuilt_from(m) && final(self).same_but_tree(m)
            }),
    {
        self.search.active = None;
        self.search.error = None;
        self.rebuild_tree();
    }

    // ---- filesystem explorer ----

    /// Asks for the explorer's current directory (in the demo, lists it
    /// at once).
    pub fn request_files(&mut self)
        ensures
            old(self).wf() ==> final(self).wf(),
            files_requested(*old(self), *final(self)),
    {
        if self.files.is_none() {
            return;
        }
        let req = self.files_req.wrapping_add(1);
        self.files_req = req;
        let mock = self.mock;
        let connected = self.connected;
        let mut f = match self.files.take() {
            Some(f) => f,
            None => {
                return;
            },
        };
        f.req = req;
        f.loading = true;
        f.error = None;
        if mock {
            f.entries = crate::files::mock_listing(f.path.as_str());
            f.loading = false;
            f.sel = 0;
            self.files = Some(f);
            return;
        }
        if !connected {
            f.loading = false;
            f.error = Some(owned("not connected"));
            self.files = Some(f);
            return;
        }
        let ghost before = self.effects@;
        self.effects.push(Effect::ListFiles { req, id: f.id.clone(), path: f.path.clone() });
        assert(self.effects@.drop_last() =~= before);
        self.files = Some(f);
    }

    /// Moves the explorer to `path`.
    pub fn files_navigate(&mut self, path: &str)
        ensures
            old(self).wf() ==> final(self).wf(),
            files_navigated(*old(self), *final(self), path@),
    {
        match self.files.take() {
            Some(mut f) => {
                f.path = owned(path);
                f.sel = 0;
                self.files = Some(f);
            },
            None => {
                return;
            },
        }
        let ghost m = *self;
        self.request_files();
        assert(files_requested(m, *self));
    }

    /// Moves the explorer into subdirectory `name`.
    pub fn files_enter(&mut self, name: &str)
        ensures
            old(self).wf() ==> final(self).wf(),
            match old(self).files {
                Some(f) => files_navigated(*old(self), *final(self), child_of(f.path@, name@)),
                None => *final(self) == *old(self),
            },
    {
        let path = match &self.files {
            Some(f) => crate::files::child_path(f.path.as_str(), name),
            None => {
                return;
            },
        };
        self.files_navigate(path.as_str());
    }

    /// Opens the explorer at `/` on container `id`.
    pub fn open_files(&mut self, id: String, name: String)
        ensures
            old(self).wf() ==> final(self).wf(),
            files_opened(*old(self), *final(self), id@, name@),
    {
        self.leave_view_streams();
        let ghost m1 = *self;
        self.view = super::View::Files;
        self.files = Some(
            FilesState {
                id,
                name,
                path: owned("/"),
                entries: Vec::new(),
                sel: 0,
                offset: 0,
                loading: false,
                error: None,
                req: 0,
            },
        );
        let ghost m2 = *self;
        self.request_files();
        assert(streams_left(*old(self), m1));
        assert(files_requested(m2, *self));
    }

    /// Opens the explorer on the selected container.
    pub fn open_files_for_row(&mut self)
        ensures
            old(self).wf() ==> final(self).wf(),
            row_files_opened(*old(self), *final(self)),
    {
        if self.tree_sel >= self.tree_rows.len() {
            return;
        }
        let id = match &self.tree_rows[self.tree_sel].kind {
            RowKind::Container(id) => id.clone(),
            _ => {
                self.toast(false, owned("files: only containers can be browsed"));
                return;
            },
        };
        let name = match self.container_by_id(id.as_str()) {
            Some(c) => c.name.clone(),
            None => {
                let v = chars_of(id.as_str());
                let n = if v.len() > 12 {
                    12
                } else {
                    v.len()
                };
                let t = slice_chars(&v, 0, n);
                assert(t@ =~= short12(id@));
                string_of(&t)
            },
        };
        self.open_files(id, name);
    }
}

} // verus!
