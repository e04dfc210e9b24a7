//! What the interface does with each report of the background work.
use vstd::prelude::*;

use super::data::{
    assoc_put, hist_pushed, ids_of, keep_last, push_capped, push_hist, selection_inspected,
    stats_synced,
};
use super::views::{container_with, logs_opened, toasted};
use super::{
    assoc_find, assoc_pos, assoc_retain, App, ConnState, LogTarget, Msg, Popup, EVENT_CAP,
    HIST_LEN, LOG_CAP,
};
use crate::actions::{form_from, EditForm};
use crate::text::{concat2, concat3, owned, push_str};
use crate::tree::rows_view;
use crate::util::strs;

verus! {

/// The details kept for container `id` carry a creation spec.
pub open spec fn has_spec(a: App, id: Seq<char>) -> bool {
    match assoc_pos(a.details@, id) {
        Some(i) => a.details@[i].1.spec is Some,
        None => false,
    }
}

/// `new` is `old` with the edit form opened on container `id` from its
/// inspected spec (a toast when there is none; nothing for an unknown id).
pub open spec fn edit_form_opened(old: App, new: App, id: Seq<char>) -> bool {
    match container_with(old.containers@, id) {
        None => new == old,
        Some(c) => if has_spec(old, id) {
            &&& new.edit matches Some(f) && form_from(
                f,
                id,
                old.details@[assoc_pos(old.details@, id)->0].1.spec->0,
                c.running(),
            ) && f.wf()
            &&& new == (App { edit: new.edit, popup: Popup::Edit, ..old })
        } else {
            toasted(old, new, false, "no inspect data for edit"@)
        },
    }
}

/// The CPU sample kept for the sparkline: whole percent, at most 400.
pub open spec fn cpu_point(centi: u64) -> u64 {
    if centi / 100 > 400 {
        400
    } else {
        centi / 100
    }
}

/// `m` is `old` with `list` as the containers (the connection marked up
/// unless in the demo) and the data of vanished containers dropped.
pub open spec fn listed(old: App, m: App, list: Vec<crate::model::Container>) -> bool {
    let keep = ids_of(list@);
    &&& m.stats@ == assoc_retain(old.stats@, keep)
    &&& m.cpu_hist@ == assoc_retain(old.cpu_hist@, keep)
    &&& m.mem_hist@ == assoc_retain(old.mem_hist@, keep)
    &&& m.details@ == assoc_retain(old.details@, keep)
    &&& m.inspect_sent@ == assoc_retain(old.inspect_sent@, keep)
    &&& m == (App {
        conn: match old.conn {
            ConnState::Mock => ConnState::Mock,
            _ => ConnState::Connected,
        },
        stats: m.stats,
        cpu_hist: m.cpu_hist,
        mem_hist: m.mem_hist,
        details: m.details,
        inspect_sent: m.inspect_sent,
        containers: list,
        ..old
    })
}

/// What a log line looks like in the log view: prefixed with the
/// container's name while more than one container is followed.
pub open spec fn log_text(a: App, name: Seq<char>, line: Seq<char>) -> Seq<char> {
    if a.log_names@.len() > 1 {
        "["@ + name + "] "@ + line
    } else {
        line
    }
}

/// The toast text for a finished action.
pub open spec fn done_text(label: Seq<char>, ok: bool, message: Seq<char>) -> Seq<char> {
    if ok {
        label + " done"@
    } else {
        label + " failed: "@ + message
    }
}

/// `new` is `old` once a daemon connection is up.
pub open spec fn conn_ok_handled(old: App, new: App) -> bool {
    exists|m1: App, m2: App|
        #![trigger stats_synced(m1, m2), selection_inspected(m2, new)]
        stats_synced(m1, m2) && selection_inspected(m2, new) && m1.conn_err@.len() == 0 && m1 == (
        App { conn: ConnState::Connected, conn_err: m1.conn_err, connected: true, ..old })
}

/// `new` is `old` after a new container list.
pub open spec fn containers_handled(old: App, new: App, list: Vec<crate::model::Container>) -> bool {
    exists|m1: App, m2: App, m3: App|
        #![trigger listed(old, m1, list), stats_synced(m2, m3), selection_inspected(m3, new)]
        listed(old, m1, list) && m2.rebuilt_from(m1) && m2.same_but_tree(m1) && stats_synced(m2, m3)
            && selection_inspected(m3, new)
}

/// `new` is `old` after a stats sample of container `id`.
pub open spec fn stats_handled(
    old: App,
    new: App,
    id: String,
    sample: crate::model::StatsSample,
) -> bool {
    &&& hist_pushed(
        old.cpu_hist@,
        new.cpu_hist@,
        id@,
        cpu_point(sample.cpu_centi),
        HIST_LEN as int,
    )
    &&& hist_pushed(old.mem_hist@, new.mem_hist@, id@, sample.mem, HIST_LEN as int)
    &&& new.stats@ == assoc_put(old.stats@, id, sample)
    &&& new == (App { cpu_hist: new.cpu_hist, mem_hist: new.mem_hist, stats: new.stats, ..old })
}

/// `new` is `old` after a log line of container `name` (dropped unless
/// that container is followed).
pub open spec fn log_line_handled(old: App, new: App, name: Seq<char>, line: Seq<char>) -> bool {
    if strs(old.log_names@).contains(name) {
        &&& strs(new.log_lines@) == keep_last(
            strs(old.log_lines@).push(log_text(old, name, line)),
            LOG_CAP as int,
        )
        &&& new == (App { log_lines: new.log_lines, ..old })
    } else {
        new == old
    }
}

/// An edit form waits for the details of `id`.
pub open spec fn edit_waits(a: App, id: Seq<char>) -> bool {
    a.edit_pending matches Some(p) && p@ == id
}

/// `new` is `old` after the details of container `id` came in (the edit
/// form opens when it waited for them).
pub open spec fn inspected_handled(
    old: App,
    new: App,
    id: String,
    details: crate::model::ContainerDetails,
) -> bool {
    exists|m: App|
        #[trigger] m.details@ == assoc_put(old.details@, id, details) && m == (App {
            details: m.details,
            edit_pending: if edit_waits(old, id@) {
                None
            } else {
                old.edit_pending
            },
            ..old
        }) && if edit_waits(old, id@) {
            edit_form_opened(m, new, id@)
        } else {
            new == m
        }
}

/// `new` is `old` after directory listing `req` came back (ignored unless
/// it answers the explorer's latest request).
pub open spec fn files_listed(
    old: App,
    new: App,
    req: u64,
    result: Result<Vec<crate::files::FsEntry>, String>,
) -> bool {
    match old.files {
        Some(f) => if f.req == req {
            new.files matches Some(g) && !g.loading && match result {
                Ok(es) => g.entries == es && g.sel == (if f.sel < es@.len() {
                    f.sel as int
                } else if es@.len() > 0 {
                    es@.len() - 1
                } else {
                    0
                }) && g.error is None,
                Err(e) => g.entries@.len() == 0 && g.error == Some(e),
            } && g == (crate::app::FilesState {
                loading: false,
                entries: g.entries,
                sel: g.sel,
                error: g.error,
                ..f
            }) && new == (App { files: new.files, ..old })
        } else {
            new == old
        },
        None => new == old,
    }
}

/// `new` is `old` after an action finished: a toast, and the log view on
/// the container it asks to follow.
pub open spec fn action_done_handled(
    old: App,
    new: App,
    label: Seq<char>,
    ok: bool,
    message: Seq<char>,
    open_logs: Option<LogTarget>,
) -> bool {
    exists|m: App|
        #[trigger] toasted(old, m, ok, done_text(label, ok, message)) && match open_logs {
            Some(t) => logs_opened(m, new, seq![t]),
            None => new == m,
        }
}

/// `new` is `old` after handling `msg`.
pub open spec fn msg_handled(old: App, new: App, msg: Msg) -> bool {
    match msg {
        Msg::ConnMock => new.conn_err@.len() == 0 && new == (App {
            conn: ConnState::Mock,
            conn_err: new.conn_err,
            ..old
        }),
        Msg::ConnOk => conn_ok_handled(old, new),
        Msg::ConnErr(e) => new == (App {
            conn: match old.conn {
                ConnState::Connecting => ConnState::Connecting,
                _ => ConnState::Error(e),
            },
            conn_err: e,
            ..old
        }),
        Msg::Containers(list) => containers_handled(old, new, list),
        Msg::Volumes(list) => ({
            let m = App { volumes: list, ..old };
            new.rebuilt_from(m) && new.same_but_tree(m)
        }),
        Msg::Event(ev) => new.events@ == keep_last(old.events@.push(ev), EVENT_CAP as int) && new
            == (App { events: new.events, ..old }),
        Msg::Stats { id, sample } => stats_handled(old, new, id, sample),
        Msg::LogLine { name, line } => log_line_handled(old, new, name@, line@),
        Msg::Inspected { id, details } => inspected_handled(old, new, id, details),
        Msg::FilesListed { req, result } => files_listed(old, new, req, result),
        Msg::ActionDone { label, ok, message, open_logs } => action_done_handled(
            old,
            new,
            label@,
            ok,
            message@,
            open_logs,
        ),
    }
}

impl App {
    /// Opens the edit form on container `id` from its inspected spec.
    pub fn open_edit_form(&mut self, id: &str)
        ensures
            old(self).wf() ==> final(self).wf(),
            edit_form_opened(*old(self), *final(self), id@),
    {
        let running = match self.container_by_id(id) {
            Some(c) => c.is_running(),
            None => {
                return;
            },
        };
        let form: Option<EditForm> = match assoc_find(&self.details, id) {
            Some(i) => match &self.details[i].1.spec {
                Some(spec) => Some(EditForm::from_spec(id, spec, running)),
                None => None,
            },
            None => None,
        };
        match form {
            Some(f) => {
                self.edit = Some(f);
                self.popup = Popup::Edit;
            },
            None => {
                self.toast(false, owned("no inspect data for edit"));
            },
        }
    }

    fn on_conn_ok(&mut self)
        ensures
            old(self).wf() ==> final(self).wf(),
            conn_ok_handled(*old(self), *final(self)),
    {
        self.conn = ConnState::Connected;
        self.conn_err = String::new();
        self.connected = true;
        let ghost m1 = *self;
        self.sync_stats_tasks();
        let ghost m2 = *self;
        self.request_inspect_for_selection();
        assert(stats_synced(m1, m2));
        assert(selection_inspected(m2, *self));
    }

    fn on_containers(&mut self, list: Vec<crate::model::Container>)
        ensures
            old(self).wf() ==> final(self).wf(),
            containers_handled(*old(self), *final(self), list),
    {
        let is_mock = match self.conn {
            ConnState::Mock => true,
            _ => false,
        };
        if !is_mock {
            self.conn = ConnState::Connected;
        }
        self.prune_stale(&list);
        self.containers = list;
        let ghost m1 = *self;
        self.rebuild_tree();
        let ghost m2 = *self;
        self.sync_stats_tasks();
        let ghost m3 = *self;
        self.request_inspect_for_selection();
        assert(listed(*old(self), m1, m1.containers));
        assert(stats_synced(m2, m3));
        assert(selection_inspected(m3, *self));
    }

    fn on_stats(&mut self, id: String, sample: crate::model::StatsSample)
        ensures
            old(self).wf() ==> final(self).wf(),
            stats_handled(*old(self), *final(self), id, sample),
    {
        let pct = sample.cpu_centi / 100;
        let cpu = if pct > 400 {
            400
        } else {
            pct
        };
        push_hist(&mut self.cpu_hist, id.as_str(), cpu, HIST_LEN);
        push_hist(&mut self.mem_hist, id.as_str(), sample.mem, HIST_LEN);
        super::data::put_entry(&mut self.stats, id, sample);
    }

    fn on_log_line(&mut self, name: String, line: String)
        ensures
            old(self).wf() ==> final(self).wf(),
            log_line_handled(*old(self), *final(self), name@, line@),
    {
        if !super::has_text(&self.log_names, name.as_str()) {
            return;
        }
        let text = if self.log_names.len() > 1 {
            let mut t = concat3("[", name.as_str(), "] ");
            push_str(&mut t, line.as_str());
            t
        } else {
            line
        };
        let ghost before = self.log_lines@;
        let ghost tv = text@;
        push_capped(&mut self.log_lines, text, LOG_CAP);
        proof {
            let full = before.push(text);
            assert(strs(full) =~= strs(before).push(tv));
            if full.len() > LOG_CAP {
                assert(strs(full.skip(full.len() - LOG_CAP)) =~= strs(full).skip(
                    strs(full).len() - LOG_CAP,
                ));
            }
        }
    }

    fn on_inspected(&mut self, id: String, details: crate::model::ContainerDetails)
        ensures
            old(self).wf() ==> final(self).wf(),
            inspected_handled(*old(self), *final(self), id, details),
    {
        let open_edit = match &self.edit_pending {
            Some(p) => crate::text::eq_str(p.as_str(), id.as_str()),
            None => false,
        };
        let key = id.clone();
        super::data::put_entry(&mut self.details, key, details);
        if open_edit {
            self.edit_pending = None;
        }
        let ghost m = *self;
        if open_edit {
            self.open_edit_form(id.as_str());
        }
        assert(m.details@ == assoc_put(old(self).details@, id, details));
    }

    fn on_files_listed(&mut self, req: u64, result: Result<Vec<crate::files::FsEntry>, String>)
        ensures
            old(self).wf() ==> final(self).wf(),
            files_listed(*old(self), *final(self), req, result),
    {
        let mut f = match self.files.take() {
            Some(f) => f,
            None => {
                return;
            },
        };
        if f.req == req {
            f.loading = false;
            match result {
                Ok(entries) => {
                    let n = entries.len();
                    f.entries = entries;
                    if f.sel >= n {
                        f.sel = if n > 0 {
                            n - 1
                        } else {
                            0
                        };
                    }
                    f.error = None;
                },
                Err(e) => {
                    f.entries = Vec::new();
                    f.error = Some(e);
                },
            }
        }
        self.files = Some(f);
    }

    fn on_action_done(&mut self, label: String, ok: bool, message: String, open_logs: Option<LogTarget>)
        ensures
            old(self).wf() ==> final(self).wf(),
            action_done_handled(*old(self), *final(self), label@, ok, message@, open_logs),
    {
        let text = if ok {
            concat2(label.as_str(), " done")
        } else {
            concat3(label.as_str(), " failed: ", message.as_str())
        };
        self.toast(ok, text);
        let ghost m = *self;
        match open_logs {
            Some(t) => {
                let mut ts: Vec<LogTarget> = Vec::new();
                ts.push(t);
                assert(ts@ =~= seq![t]);
                self.open_logs(ts);
            },
            None => {},
        }
        assert(toasted(*old(self), m, ok, done_text(label@, ok, message@)));
    }

    /// Takes in one report of the background work.
    pub fn handle_msg(&mut self, msg: Msg)
        ensures
            old(self).wf() ==> final(self).wf(),
            msg_handled(*old(self), *final(self), msg),
    {
        match msg {
            Msg::ConnMock => {
                self.conn = ConnState::Mock;
                self.conn_err = String::new();
            },
            Msg::ConnOk => self.on_conn_ok(),
            Msg::ConnErr(e) => {
                match self.conn {
                    ConnState::Connecting => {},
                    _ => {
                        self.conn = ConnState::Error(e.clone());
                    },
                }
                self.conn_err = e;
            },
            Msg::Containers(list) => self.on_containers(list),
            Msg::Volumes(list) => {
                self.volumes = list;
                self.rebuild_tree();
            },
            Msg::Event(ev) => {
                push_capped(&mut self.events, ev, EVENT_CAP);
            },
            Msg::Stats { id, sample } => self.on_stats(id, sample),
            Msg::LogLine { name, line } => self.on_log_line(name, line),
            Msg::Inspected { id, details } => self.on_inspected(id, details),
            Msg::FilesListed { req, result } => self.on_files_listed(req, result),
            Msg::ActionDone { label, ok, message, open_logs } => self.on_action_done(
                label,
                ok,
                message,
                open_logs,
            ),
        }
    }
}

/// A new container list replaces the shown containers; the stats, both
/// histories and the details keep exactly the entries of containers still
/// listed, unchanged and in order; no container row shows one that is not
/// listed; and the daemon counts as connected (unless in the demo).
pub proof fn lemma_containers_prune(old: App, new: App, list: Vec<crate::model::Container>)
    requires
        containers_handled(old, new, list),
    ensures
        new.containers == list,
        new.stats@ == old.stats@.filter(super::key_kept(ids_of(list@))),
        new.cpu_hist@ == old.cpu_hist@.filter(super::key_kept(ids_of(list@))),
        new.mem_hist@ == old.mem_hist@.filter(super::key_kept(ids_of(list@))),
        new.details@ == old.details@.filter(super::key_kept(ids_of(list@))),
        forall|i: int| 0 <= i < new.stats@.len() ==> ids_of(list@).contains((#[trigger] new.stats@[i]).0@),
        forall|i: int|
            0 <= i < new.cpu_hist@.len() ==> ids_of(list@).contains((#[trigger] new.cpu_hist@[i]).0@),
        forall|i: int|
            0 <= i < new.mem_hist@.len() ==> ids_of(list@).contains((#[trigger] new.mem_hist@[i]).0@),
        forall|i: int|
            0 <= i < new.details@.len() ==> ids_of(list@).contains((#[trigger] new.details@[i]).0@),
        forall|i: int|
            0 <= i < new.tree_rows@.len() && (#[trigger] rows_view(new.tree_rows@)[i]).0.0 == 3
                ==> ids_of(list@).contains(rows_view(new.tree_rows@)[i].0.1),
        old.conn != ConnState::Mock ==> new.conn == ConnState::Connected,
{
    let (m1, m2, m3) = choose|m1: App, m2: App, m3: App|
        #![trigger listed(old, m1, list), stats_synced(m2, m3), selection_inspected(m3, new)]
        listed(old, m1, list) && m2.rebuilt_from(m1) && m2.same_but_tree(m1) && stats_synced(m2, m3)
            && selection_inspected(m3, new);
    let keep = ids_of(list@);
    super::lemma_assoc_retain(old.stats@, keep);
    super::lemma_assoc_retain(old.cpu_hist@, keep);
    super::lemma_assoc_retain(old.mem_hist@, keep);
    super::lemma_assoc_retain(old.details@, keep);
    let se = super::mark_seen(strs(m1.seen_nodes@), strs(m1.expanded@), super::node_keys(list@));
    let rs = crate::tree::tree_spec(list@, m1.volumes@, se.1, m1.pattern() is Some);
    crate::tree::lemma_tree_rows_of(list@, m1.volumes@, se.1, m1.pattern() is Some);
    if let Some(p) = m1.pattern() {
        crate::tree::lemma_filter_rows_of(p, rs, list@);
    }
    let rv = rows_view(new.tree_rows@);
    assert(rv == rows_view(m2.tree_rows@));
    assert forall|i: int| 0 <= i < new.tree_rows@.len() && (#[trigger] rows_view(new.tree_rows@)[i]).0.0 == 3 implies keep.contains(rows_view(new.tree_rows@)[i].0.1) by {
        let j = choose|j: int| 0 <= j < list@.len() && rv[i].0.1 == (#[trigger] list@[j]).id@;
        assert(keep[j] == list@[j].id@);
    }
}


/// An event is kept, as the newest, and at most `EVENT_CAP` are kept.
pub proof fn lemma_event_cap(old: App, new: App, ev: crate::model::DockerEvent)
    requires
        msg_handled(old, new, Msg::Event(ev)),
    ensures
        new.events@.len() <= EVENT_CAP,
        new.events@.last() == ev,
{
    super::data::lemma_keep_last(old.events@, ev, EVENT_CAP as int);
}

/// A line of a followed container is kept, as the newest, and at most
/// `LOG_CAP` lines are kept.
pub proof fn lemma_log_cap(old: App, new: App, name: String, line: String)
    requires
        msg_handled(old, new, Msg::LogLine { name, line }),
        strs(old.log_names@).contains(name@),
    ensures
        new.log_lines@.len() <= LOG_CAP,
        new.log_lines@.last()@ == log_text(old, name@, line@),
{
    super::data::lemma_keep_last(strs(old.log_lines@), log_text(old, name@, line@), LOG_CAP as int);
    assert(strs(new.log_lines@).len() == new.log_lines@.len());
    assert(strs(new.log_lines@).last() == new.log_lines@.last()@);
}

/// A stats sample of a container with a history keeps at most `HIST_LEN`
/// points of it, the newest being the sample's.
pub proof fn lemma_history_cap(old: App, new: App, id: String, sample: crate::model::StatsSample)
    requires
        msg_handled(old, new, Msg::Stats { id, sample }),
        assoc_pos(old.cpu_hist@, id@) is Some,
    ensures
        new.cpu_hist@[assoc_pos(old.cpu_hist@, id@)->0].1@.len() <= HIST_LEN,
        new.cpu_hist@[assoc_pos(old.cpu_hist@, id@)->0].1@.last() == cpu_point(sample.cpu_centi),
{
    let i = assoc_pos(old.cpu_hist@, id@)->0;
    super::lemma_assoc_pos(old.cpu_hist@, id@);
    super::data::lemma_keep_last(old.cpu_hist@[i].1@, cpu_point(sample.cpu_centi), HIST_LEN as int);
}


} // verus!
