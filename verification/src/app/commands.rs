//! The interface's commands: moving in the tree, container actions (acted
//! out on the demo data in mock mode), the edit form, exec and ops.
use vstd::prelude::*;

use super::data::{
    inspect_requested, pushed, selected_container_id, selection_inspected, stats_synced,
};
use super::lists::{lemma_select_take, select};
use super::msgs::has_spec;
use super::views::{container_with, first_where, with_id, files_requested, logs_opened, on_container, toasted};
use super::{assoc_find, assoc_pos, rebuilt, App, Effect, LogTarget, Popup};
use crate::actions::{action_word, form_from, ContainerAction, EditForm, PendingAction};
use crate::exec::ExecRequest;
use crate::model::Container;
use crate::ops::{Op, RecreateRequest};
use crate::text::{concat2, concat3, owned, push_str};
use crate::tree::{rows_view, RowKind, RowV};
use crate::util::strs;

verus! {

// ---------------------------------------------------------------- small edits

/// `exp` with `k` taken out (when present) or added.
pub open spec fn toggled_key(exp: Seq<Seq<char>>, k: Seq<char>) -> Seq<Seq<char>> {
    if exp.contains(k) {
        select(exp, |x: Seq<char>| x != k)
    } else {
        exp.push(k)
    }
}

/// Removes every copy of `k`.
pub fn remove_text(v: &mut Vec<String>, k: &str)
    ensures
        strs(final(v)@) == select(strs(old(v)@), |x: Seq<char>| x != k@),
{
    let ghost f = |x: Seq<char>| x != k@;
    let ghost sv = strs(v@);
    let mut out: Vec<String> = Vec::new();
    let mut i: usize = 0;
    while i < v.len()
        invariant
            f == (|x: Seq<char>| x != k@),
            sv == strs(v@),
            i <= v@.len(),
            strs(out@) == select(sv.take(i as int), f),
        decreases v@.len() - i,
    {
        proof {
            lemma_select_take(sv, f, i as int);
        }
        if !crate::text::eq_str(v[i].as_str(), k) {
            let ghost before = out@;
            let t = v[i].clone();
            out.push(t);
            proof {
                crate::text::lemma_map_push(before, t, |s: String| s@);
            }
        }
        i += 1;
    }
    assert(sv.take(v@.len() as int) =~= sv);
    *v = out;
}

/// Drops the entry keyed `k`.
/// Whether an entry is not keyed `k`.
pub open spec fn key_other<V>(k: Seq<char>) -> spec_fn((String, V)) -> bool {
    |e: (String, V)| e.0@ != k
}

/// Whether a container does not have id `id`.
pub open spec fn id_other(id: Seq<char>) -> spec_fn(Container) -> bool {
    |c: Container| c.id@ != id
}

pub fn drop_key<V>(m: &mut Vec<(String, V)>, k: &str)
    ensures
        final(m)@ == select(old(m)@, key_other(k@)),
        super::keys_unique(old(m)@) ==> super::keys_unique(final(m)@),
{
    proof {
        if super::keys_unique(old(m)@) {
            super::lemma_unique_select(old(m)@, key_other(k@));
        }
    }
    let ghost f = key_other::<V>(k@);
    let ghost orig = m@;
    let mut rest: Vec<(String, V)> = Vec::new();
    std::mem::swap(&mut rest, m);
    assert(orig.len() == rest@.len());
    assert(rest@.len() == rest.len());
    assert(m@ =~= select(orig.take(0), f));
    let mut i: usize = 0;
    while rest.len() > 0
        invariant
            f == key_other::<V>(k@),
            orig.len() <= usize::MAX,
            i + rest@.len() == orig.len(),
            rest@ == orig.skip(i as int),
            m@ == select(orig.take(i as int), f),
        decreases rest@.len(),
    {
        proof {
            lemma_select_take(orig, f, i as int);
        }
        let e = rest.remove(0);
        assert(e == orig[i as int]);
        if !crate::text::eq_str(e.0.as_str(), k) {
            m.push(e);
        }
        i += 1;
        assert(rest@ =~= orig.skip(i as int));
    }
    assert(orig.take(orig.len() as int) =~= orig);
}

// ---------------------------------------------------------------- tree moves

/// `new` is `old` with row `i` selected, the detail pane scrolled to the
/// top and the row's container asked for.
pub open spec fn row_selected(old: App, new: App, i: int) -> bool {
    selection_inspected(App { tree_sel: i as usize, detail_scroll: 0, ..old }, new)
}

/// `x` kept within `lo..=hi`.
pub open spec fn clamp(x: int, lo: int, hi: int) -> int {
    if x < lo {
        lo
    } else if x > hi {
        hi
    } else {
        x
    }
}

/// `new` is `old` with the selection moved `delta` rows (kept on a row).
pub open spec fn moved_by(old: App, new: App, delta: int) -> bool {
    if old.tree_rows@.len() == 0 {
        new == old
    } else {
        let t = clamp(old.tree_sel + delta, 0, old.tree_rows@.len() - 1);
        if t == old.tree_sel {
            new == old
        } else {
            row_selected(old, new, t)
        }
    }
}

/// `new` is `m` with its tree rebuilt.
pub open spec fn rebuilt_after(m: App, new: App) -> bool {
    new.rebuilt_from(m) && new.same_but_tree(m)
}

/// `new` is `old` with the selected node toggled open or shut.
pub open spec fn expand_toggled(old: App, new: App) -> bool {
    if old.tree_sel < old.tree_rows@.len() && old.tree_rows@[old.tree_sel as int].has_children {
        let k = old.tree_rows@[old.tree_sel as int].key@;
        exists|m: App|
            #[trigger] rebuilt_after(m, new) && strs(m.expanded@) == toggled_key(
                strs(old.expanded@),
                k,
            ) && m == (App { expanded: m.expanded, ..old })
    } else {
        new == old
    }
}

/// The last row before `j` that sits shallower than depth `d`.
pub open spec fn last_shallower(rows: Seq<RowV>, j: int, d: nat) -> Option<int>
    decreases j,
{
    if j <= 0 {
        None
    } else if rows[j - 1].2 < d {
        Some(j - 1)
    } else {
        last_shallower(rows, j - 1, d)
    }
}

/// `new` is `old` with the selected open node shut, or else the selection
/// moved up to its parent.
pub open spec fn collapsed_or_up(old: App, new: App) -> bool {
    if old.tree_sel < old.tree_rows@.len() {
        let r = old.tree_rows@[old.tree_sel as int];
        if r.has_children && r.expanded {
            exists|m: App|
                #[trigger] rebuilt_after(m, new) && strs(m.expanded@) == select(
                    strs(old.expanded@),
                    |x: Seq<char>| x != r.key@,
                ) && m == (App { expanded: m.expanded, ..old })
        } else {
            match last_shallower(rows_view(old.tree_rows@), old.tree_sel as int, r.depth as nat) {
                Some(i) => row_selected(old, new, i),
                None => new == old,
            }
        }
    } else {
        new == old
    }
}

/// The split after nudging by `delta` percent: within 20..=80.
pub open spec fn nudged(split: int, delta: int) -> int {
    clamp(split + delta, 20, 80)
}

/// The split for a drag to column `col`.
pub open spec fn split_at(a: super::Areas, col: int) -> int {
    let full = if a.tree.width + a.detail.width > 1 {
        a.tree.width + a.detail.width
    } else {
        1
    };
    let rel = if col > a.tree.x {
        col - a.tree.x
    } else {
        0
    };
    clamp(rel * 100 / full, 20, 80)
}

// ---------------------------------------------------------------- refresh

/// The steps of a refresh: forget the inspect requests and poll now,
/// restart what the view streams, ask for the selection again.
pub open spec fn refresh_steps(old: App, m1: App, m2: App, m3: App, new: App) -> bool {
    &&& m1.inspect_sent@.len() == 0
    &&& m1.effects@ == old.effects@.push(Effect::Refresh)
    &&& m1 == (App { inspect_sent: m1.inspect_sent, effects: m1.effects, ..old })
    &&& if old.view == super::View::Stats {
        m2.stats_spawned@.len() == 0 && m2 == (App { stats_spawned: m2.stats_spawned, ..m1 })
            && stats_synced(m2, m3)
    } else if old.view == super::View::Files {
        m2 == m1 && files_requested(m2, m3)
    } else {
        m2 == m1 && m3 == m1
    }
    &&& selection_inspected(m3, new)
}

/// `new` is `old` after a refresh.
pub open spec fn refreshed(old: App, new: App) -> bool {
    exists|m1: App, m2: App, m3: App| #[trigger] refresh_steps(old, m1, m2, m3, new)
}

// ---------------------------------------------------------------- actions

/// The state and status a demo container shows after `a`.
pub open spec fn mock_state(a: ContainerAction) -> (Seq<char>, Seq<char>) {
    match a {
        ContainerAction::Start => ("running"@, "Up (mock)"@),
        ContainerAction::Stop => ("exited"@, "Exited (0) (mock)"@),
        ContainerAction::Restart => ("running"@, "Up (mock, restarted)"@),
        ContainerAction::Remove => (Seq::empty(), Seq::empty()),
    }
}

/// `new` is `old` with container `i` showing state `st` and status `su`.
pub open spec fn restated(old: Seq<Container>, new: Seq<Container>, i: int, st: Seq<char>, su: Seq<char>) -> bool {
    &&& new.len() == old.len()
    &&& forall|j: int| 0 <= j < old.len() && j != i ==> #[trigger] new[j] == old[j]
    &&& new[i] == (Container { state: new[i].state, status: new[i].status, ..old[i] })
    &&& new[i].state@ == st
    &&& new[i].status@ == su
}

/// Where the container with id `id` sits.
pub open spec fn container_pos(cs: Seq<Container>, id: Seq<char>) -> Option<int> {
    first_where(cs, with_id(id))
}

/// The steps of removing demo container `id`: it and everything kept for
/// it goes, the tree is rebuilt, a toast says so.
pub open spec fn mock_remove_steps(old: App, m1: App, m2: App, new: App, id: Seq<char>, text: Seq<char>) -> bool {
    &&& m1.containers@ == select(old.containers@, id_other(id))
    &&& m1.details@ == select(old.details@, key_other(id))
    &&& m1.stats@ == select(old.stats@, key_other(id))
    &&& m1.cpu_hist@ == select(old.cpu_hist@, key_other(id))
    &&& m1.mem_hist@ == select(old.mem_hist@, key_other(id))
    &&& m1 == (App {
        containers: m1.containers,
        details: m1.details,
        stats: m1.stats,
        cpu_hist: m1.cpu_hist,
        mem_hist: m1.mem_hist,
        ..old
    })
    &&& rebuilt_after(m1, m2)
    &&& toasted(m2, new, true, text)
}

/// Removing a demo container forgets it: no container, details, stats or
/// history keyed by its id is left.
pub proof fn lemma_mock_remove_forgets(old: App, m1: App, m2: App, new: App, id: Seq<char>, text: Seq<char>)
    requires
        mock_remove_steps(old, m1, m2, new, id, text),
    ensures
        forall|i: int| 0 <= i < new.containers@.len() ==> (#[trigger] new.containers@[i]).id@ != id,
        forall|i: int| 0 <= i < new.details@.len() ==> (#[trigger] new.details@[i]).0@ != id,
        forall|i: int| 0 <= i < new.stats@.len() ==> (#[trigger] new.stats@[i]).0@ != id,
        forall|i: int| 0 <= i < new.cpu_hist@.len() ==> (#[trigger] new.cpu_hist@[i]).0@ != id,
        forall|i: int| 0 <= i < new.mem_hist@.len() ==> (#[trigger] new.mem_hist@[i]).0@ != id,
{
    super::lists::lemma_select_sat(old.containers@, id_other(id));
    super::lists::lemma_select_sat(old.details@, key_other(id));
    super::lists::lemma_select_sat(old.stats@, key_other(id));
    super::lists::lemma_select_sat(old.cpu_hist@, key_other(id));
    super::lists::lemma_select_sat(old.mem_hist@, key_other(id));
}

/// The steps of restating demo container `i`, then a toast.
pub open spec fn mock_restate_steps(old: App, m: App, new: App, i: int, a: ContainerAction, text: Seq<char>) -> bool {
    &&& restated(old.containers@, m.containers@, i, mock_state(a).0, mock_state(a).1)
    &&& m == (App { containers: m.containers, ..old })
    &&& toasted(m, new, true, text)
}

/// `new` is `old` after acting out `a` on demo container `id` (`name`).
pub open spec fn mock_action_done(old: App, new: App, id: Seq<char>, name: Seq<char>, a: ContainerAction) -> bool {
    let text = action_word(a) + " "@ + name + " done (mock)"@;
    match container_pos(old.containers@, id) {
        None => toasted(old, new, false, name + ": not found"@),
        Some(i) => if a == ContainerAction::Remove {
            exists|m1: App, m2: App| #[trigger] mock_remove_steps(old, m1, m2, new, id, text)
        } else {
            exists|m: App| #[trigger] mock_restate_steps(old, m, new, i, a, text)
        },
    }
}

/// The port texts for a port map.
pub open spec fn mock_ports(pm: crate::ops::PortMapView) -> Seq<Seq<char>>
    decreases pm.len(),
{
    if pm.len() == 0 {
        Seq::empty()
    } else {
        mock_ports(pm.drop_last()) + pm.last().1.map_values(
            |b: crate::ops::BindingView| crate::ops::binding_line(pm.last().0, b),
        )
    }
}

/// Demo container `n` is `o` recreated from `req`.
pub open spec fn recreated_row(o: Container, n: Container, req: RecreateRequest) -> bool {
    &&& n.id == o.id
    &&& n.name@ == match req.spec.name {
        Some(x) => x@,
        None => o.name@,
    }
    &&& n.image@ == match req.spec.image {
        Some(x) => x@,
        None => o.image@,
    }
    &&& n.state@ == "running"@
    &&& n.status@ == "Up (mock, recreated)"@
    &&& n.created == o.created
    &&& n.command == o.command
    &&& n.labels == o.labels
    &&& strs(n.ports@) == match req.spec.host.port_bindings {
        Some(pm) => mock_ports(pm@),
        None => Seq::empty(),
    }
}

/// Demo details `n` are `o` updated from `req`.
pub open spec fn recreated_details(
    o: crate::model::ContainerDetails,
    n: crate::model::ContainerDetails,
    req: RecreateRequest,
) -> bool {
    &&& n.env@ == req.spec.env@
    &&& n.privileged == match req.spec.host.privileged {
        Some(b) => b,
        None => false,
    }
    &&& strs(n.gpus@) == crate::actions::gpu_badges(req.spec.host)
    &&& n.network_mode == req.spec.host.network_mode
    &&& n.pid_mode == req.spec.host.pid_mode
    &&& n.ipc_mode == req.spec.host.ipc_mode
    &&& n.user == match req.spec.user {
        Some(u) => Some(u),
        None => o.user,
    }
    &&& n.spec matches Some(s) && crate::ops::same_spec(s, req.spec)
    &&& n == (crate::model::ContainerDetails {
        env: n.env,
        privileged: n.privileged,
        gpus: n.gpus,
        network_mode: n.network_mode,
        pid_mode: n.pid_mode,
        ipc_mode: n.ipc_mode,
        user: n.user,
        spec: n.spec,
        ..o
    })
}

/// `m1` is `old` with demo container `i` and its details recreated from
/// `req`.
pub open spec fn recreate_applied(old: App, m1: App, i: int, req: RecreateRequest) -> bool {
    &&& m1.containers@.len() == old.containers@.len()
    &&& forall|j: int|
        0 <= j < old.containers@.len() && j != i ==> #[trigger] m1.containers@[j] == old.containers@[j]
    &&& recreated_row(old.containers@[i], m1.containers@[i], req)
    &&& match assoc_pos(old.details@, req.old_id@) {
        Some(k) => {
            &&& m1.details@.len() == old.details@.len()
            &&& forall|j: int|
                0 <= j < old.details@.len() && j != k ==> #[trigger] m1.details@[j] == old.details@[j]
            &&& m1.details@[k].0 == old.details@[k].0
            &&& recreated_details(old.details@[k].1, m1.details@[k].1, req)
        },
        None => m1.details == old.details,
    }
    &&& m1 == (App { containers: m1.containers, details: m1.details, ..old })
}

/// The steps of recreating demo container `i` from `req`: the data, the
/// tree, a toast.
pub open spec fn mock_recreate_steps(old: App, m1: App, m2: App, new: App, i: int, req: RecreateRequest) -> bool {
    &&& recreate_applied(old, m1, i, req)
    &&& rebuilt_after(m1, m2)
    &&& toasted(
        m2,
        new,
        true,
        "recreate "@ + (match req.spec.name {
            Some(n) => n@,
            None => req.old_name@,
        }) + " done (mock)"@,
    )
}

/// `new` is `old` after acting out the recreate `req` on the demo data.
pub open spec fn mock_recreate_done(old: App, new: App, req: RecreateRequest) -> bool {
    match container_pos(old.containers@, req.old_id@) {
        None => toasted(old, new, false, "recreate: container not found"@),
        Some(i) => exists|m1: App, m2: App| #[trigger] mock_recreate_steps(old, m1, m2, new, i, req),
    }
}

/// `new` is `old` after carrying out `a` (acted out on the demo data, or
/// handed to the daemon, followed by a poll).
pub open spec fn action_applied(old: App, new: App, a: PendingAction) -> bool {
    if old.mock {
        match a {
            PendingAction::Container { id, name, action } => mock_action_done(
                old,
                new,
                id@,
                name@,
                action,
            ),
            PendingAction::Recreate(req) => mock_recreate_done(old, new, *req),
        }
    } else if !old.connected {
        toasted(old, new, false, "not connected"@)
    } else {
        &&& new.effects@.len() == old.effects@.len() + 2
        &&& new.effects@.take(old.effects@.len() as int) == old.effects@
        &&& new.effects@.last() == Effect::Refresh
        &&& match a {
            PendingAction::Container { id, name, action } => new.effects@[old.effects@.len() as int]
                == Effect::ContainerAction { id, name, action },
            PendingAction::Recreate(req) => new.effects@[old.effects@.len() as int]
                == Effect::Recreate(*req),
        }
        &&& new == (App { effects: new.effects, ..old })
    }
}

/// `new` is `old` with action `a` on the selected container asking for
/// confirmation.
pub open spec fn action_confirming(old: App, new: App, a: ContainerAction) -> bool {
    match selected_container_id(old) {
        Some(id) => match container_with(old.containers@, id) {
            Some(c) => new == (App {
                pending: Some(PendingAction::Container { id: c.id, name: c.name, action: a }),
                popup: Popup::Confirm,
                ..old
            }),
            None => new == old,
        },
        None => new == old,
    }
}

/// `new` is `old` after action `a` on the selected container (removal
/// asks for confirmation first).
pub open spec fn container_action_done(old: App, new: App, a: ContainerAction) -> bool {
    match selected_container_id(old) {
        Some(id) => match container_with(old.containers@, id) {
            Some(c) => if a == ContainerAction::Remove {
                action_confirming(old, new, a)
            } else {
                action_applied(old, new, PendingAction::Container { id: c.id, name: c.name, action: a })
            },
            None => new == old,
        },
        None => new == old,
    }
}

/// The details kept for `id`, when they carry a spec.
pub open spec fn spec_of(a: App, id: Seq<char>) -> crate::ops::ContainerSpec {
    a.details@[assoc_pos(a.details@, id)->0].1.spec->0
}

/// `new` is `old` after asking to edit the selected container: the form
/// opens from its spec, or (against a daemon) its details are fetched
/// first.
pub open spec fn edit_started(old: App, new: App) -> bool {
    match selected_container_id(old) {
        Some(id) => match container_with(old.containers@, id) {
            Some(c) => if has_spec(old, id) {
                &&& new.edit matches Some(f) && form_from(f, c.id@, spec_of(old, id), c.running())
                    && f.wf()
                &&& new == (App { edit: new.edit, popup: Popup::Edit, ..old })
            } else if old.mock {
                toasted(old, new, false, "no inspect data for edit (mock)"@)
            } else if old.connected {
                exists|m1: App, m2: App|
                    #![trigger inspect_requested(m1, m2, c.id@), toasted(m2, new, true, "inspecting "@ + c.name@ + "…"@)]
                    m1 == (App { edit_pending: Some(c.id), ..old }) && inspect_requested(
                        m1,
                        m2,
                        c.id@,
                    ) && toasted(m2, new, true, "inspecting "@ + c.name@ + "…"@)
            } else {
                new == old
            },
            None => new == old,
        },
        None => new == old,
    }
}

/// `new` is `old` after asking for a shell in the selected container.
pub open spec fn exec_popup_opened(old: App, new: App) -> bool {
    match selected_container_id(old) {
        Some(id) => match container_with(old.containers@, id) {
            Some(c) => if c.running() {
                new == (App { popup: Popup::Exec, popup_sel: 0, exec_user_input: None, ..old })
            } else {
                toasted(old, new, false, c.name@ + " is not running"@)
            },
            None => new == old,
        },
        None => new == old,
    }
}

/// `new` is `old` after asking for a shell as `user` in the selected
/// container.
pub open spec fn exec_launched(old: App, new: App, user: Option<Seq<char>>) -> bool {
    match selected_container_id(old) {
        Some(id) => match container_with(old.containers@, id) {
            Some(c) => if old.mock || !old.connected {
                toasted(old, new, false, "exec needs a real docker connection"@)
            } else if !old.exec_available {
                toasted(old, new, false, "exec unavailable"@)
            } else {
                &&& pushed(old.effects@, new.effects@)
                &&& new.effects@.last() matches Effect::Exec(r) && r.id == c.id && r.name == c.name
                    && crate::ops::opt_view(r.user) == user
                &&& new == (App { effects: new.effects, ..old })
            },
            None => new == old,
        },
        None => new == old,
    }
}

/// `new` is `old` with every popup and form closed.
pub open spec fn popup_closed(old: App, new: App) -> bool {
    new == (App {
        popup: Popup::Closed,
        pending: None,
        edit: None,
        env_editor: None,
        exec_user_input: None,
        ..old
    })
}

/// The port texts of a demo container for port map `pm`.
fn mock_port_texts(pm: &crate::ops::PortMap) -> (r: Vec<String>)
    ensures
        strs(r@) == mock_ports(pm@),
{
    let mut out: Vec<String> = Vec::new();
    let mut i: usize = 0;
    while i < pm.entries.len()
        invariant
            i <= pm.entries@.len(),
            strs(out@) == mock_ports(pm@.take(i as int)),
        decreases pm.entries@.len() - i,
    {
        let cport = &pm.entries[i].0;
        let bs = &pm.entries[i].1;
        let ghost pv = pm@[i as int];
        let ghost base = strs(out@);
        assert(pm@.take(i + 1).drop_last() =~= pm@.take(i as int));
        assert(pm@.take(i + 1).last() == pv);
        let mut j: usize = 0;
        while j < bs.len()
            invariant
                j <= bs@.len(),
                pv == pm@[i as int],
                pv.0 == cport@,
                pv.1 == bs@.map_values(|b: crate::ops::PortBinding| b@),
                strs(out@) == base + pv.1.take(j as int).map_values(
                    |b: crate::ops::BindingView| crate::ops::binding_line(pv.0, b),
                ),
            decreases bs@.len() - j,
        {
            let b = &bs[j];
            let mut t = match &b.host_ip {
                Some(ip) => ip.clone(),
                None => owned("0.0.0.0"),
            };
            push_str(&mut t, ":");
            match &b.host_port {
                Some(p) => push_str(&mut t, p.as_str()),
                None => push_str(&mut t, "?"),
            }
            push_str(&mut t, " -> ");
            push_str(&mut t, cport.as_str());
            let ghost before = out@;
            out.push(t);
            proof {
                crate::text::lemma_map_push(before, t, |s: String| s@);
                assert(pv.1[j as int] == b@);
                crate::text::lemma_map_take_succ(
                    pv.1,
                    j as int,
                    |b: crate::ops::BindingView| crate::ops::binding_line(pv.0, b),
                );
            }
            j += 1;
        }
        assert(pv.1.take(bs@.len() as int) =~= pv.1);
        i += 1;
    }
    assert(pm@.take(pm.entries@.len() as int) =~= pm@);
    out
}

/// Demo container `c` recreated from `req`.
fn recreated_container(c: Container, req: &RecreateRequest) -> (n: Container)
    ensures
        recreated_row(c, n, *req),
{
    let mut n = c;
    match &req.spec.name {
        Some(x) => {
            n.name = x.clone();
        },
        None => {},
    }
    match &req.spec.image {
        Some(x) => {
            n.image = x.clone();
        },
        None => {},
    }
    n.state = owned("running");
    n.status = owned("Up (mock, recreated)");
    n.ports = match &req.spec.host.port_bindings {
        Some(pm) => mock_port_texts(pm),
        None => {
            let v: Vec<String> = Vec::new();
            assert(strs(v@) =~= Seq::<Seq<char>>::empty());
            v
        },
    };
    n
}

/// Demo details `d` updated from `req`.
fn recreated_detail(d: crate::model::ContainerDetails, req: &RecreateRequest) -> (n: crate::model::ContainerDetails)
    ensures
        recreated_details(d, n, *req),
{
    let mut n = d;
    n.env = crate::model::clone_strings(&req.spec.env);
    n.privileged = match req.spec.host.privileged {
        Some(b) => b,
        None => false,
    };
    n.gpus = crate::actions::gpu_summary(&req.spec.host);
    n.network_mode = crate::ops::clone_opt(&req.spec.host.network_mode);
    n.pid_mode = crate::ops::clone_opt(&req.spec.host.pid_mode);
    n.ipc_mode = crate::ops::clone_opt(&req.spec.host.ipc_mode);
    match &req.spec.user {
        Some(u) => {
            n.user = Some(u.clone());
        },
        None => {},
    }
    n.spec = Some(req.spec.clone());
    n
}

impl App {
    /// Re-polls now, forgets the inspect requests and restarts what the
    /// current view streams.
    pub fn refresh(&mut self)
        ensures
            old(self).wf() ==> final(self).wf(),
            refreshed(*old(self), *final(self)),
    {
        self.inspect_sent = Vec::new();
        self.effects.push(Effect::Refresh);
        let ghost m1 = *self;
        if self.view == super::View::Stats {
            self.stats_spawned = Vec::new();
        }
        let ghost m2 = *self;
        if self.view == super::View::Stats {
            self.sync_stats_tasks();
        }
        if self.view == super::View::Files {
            self.request_files();
        }
        let ghost m3 = *self;
        self.request_inspect_for_selection();
        assert(refresh_steps(*old(self), m1, m2, m3, *self));
    }

    /// Selects row `i`, scrolls the detail pane to the top and asks for
    /// the row's container.
    pub fn select_row(&mut self, i: usize)
        ensures
            old(self).wf() ==> final(self).wf(),
            row_selected(*old(self), *final(self), i as int),
    {
        self.tree_sel = i;
        self.detail_scroll = 0;
        self.request_inspect_for_selection();
    }

    /// Moves the selection `delta` rows.
    pub fn tree_move(&mut self, delta: i32)
        ensures
            old(self).wf() ==> final(self).wf(),
            moved_by(*old(self), *final(self), delta as int),
    {
        let n = self.tree_rows.len();
        if n == 0 {
            return;
        }
        let cur = self.tree_sel;
        let t: usize = if delta < 0 {
            let back = (-(delta as i64)) as usize;
            let base = if cur > n - 1 {
                n - 1
            } else {
                cur
            };
            if cur >= back {
                if cur - back > n - 1 {
                    n - 1
                } else {
                    cur - back
                }
            } else {
                0
            }
        } else {
            let fwd = delta as usize;
            if cur >= n - 1 || fwd >= n - 1 - cur {
                n - 1
            } else {
                cur + fwd
            }
        };
        if t != cur {
            self.select_row(t);
        }
    }

    /// Opens the selected node when shut, shuts it when open.
    pub fn toggle_expand(&mut self)
        ensures
            old(self).wf() ==> final(self).wf(),
            expand_toggled(*old(self), *final(self)),
    {
        if self.tree_sel >= self.tree_rows.len() || !self.tree_rows[self.tree_sel].has_children {
            return;
        }
        let key = self.tree_rows[self.tree_sel].key.clone();
        if super::has_text(&self.expanded, key.as_str()) {
            remove_text(&mut self.expanded, key.as_str());
        } else {
            let ghost before = self.expanded@;
            let ghost kv = key@;
            self.expanded.push(key);
            assert(strs(self.expanded@) =~= strs(before).push(kv));
        }
        let ghost m = *self;
        self.rebuild_tree();
        assert(rebuilt_after(m, *self));
    }

    /// Shuts the selected node when open, else moves to its parent.
    pub fn collapse_or_up(&mut self)
        ensures
            old(self).wf() ==> final(self).wf(),
            collapsed_or_up(*old(self), *final(self)),
    {
        if self.tree_sel >= self.tree_rows.len() {
            return;
        }
        let sel = self.tree_sel;
        let depth = self.tree_rows[sel].depth;
        if self.tree_rows[sel].has_children && self.tree_rows[sel].expanded {
            let key = self.tree_rows[sel].key.clone();
            remove_text(&mut self.expanded, key.as_str());
            let ghost m = *self;
            self.rebuild_tree();
            assert(rebuilt_after(m, *self));
            return;
        }
        match self.parent_row() {
            Some(i) => self.select_row(i),
            None => {},
        }
    }

    /// The row the selection's parent sits on.
    fn parent_row(&self) -> (r: Option<usize>)
        requires
            self.tree_sel < self.tree_rows@.len(),
        ensures
            match r {
                Some(i) => last_shallower(
                    rows_view(self.tree_rows@),
                    self.tree_sel as int,
                    self.tree_rows@[self.tree_sel as int].depth as nat,
                ) == Some(i as int),
                None => last_shallower(
                    rows_view(self.tree_rows@),
                    self.tree_sel as int,
                    self.tree_rows@[self.tree_sel as int].depth as nat,
                ) is None,
            },
    {
        let ghost rv = rows_view(self.tree_rows@);
        let sel = self.tree_sel;
        let depth = self.tree_rows[sel].depth;
        let mut i: usize = sel;
        while i > 0
            invariant
                sel == self.tree_sel,
                depth == self.tree_rows@[sel as int].depth,
                i <= sel,
                sel < self.tree_rows@.len(),
                rv == rows_view(self.tree_rows@),
                last_shallower(rv, sel as int, depth as nat) == last_shallower(
                    rv,
                    i as int,
                    depth as nat,
                ),
            decreases i,
        {
            assert(rv[i - 1].2 == self.tree_rows@[i - 1].depth);
            if self.tree_rows[i - 1].depth < depth {
                return Some(i - 1);
            }
            i -= 1;
        }
        None
    }

    /// Moves the tree/detail split by `delta` percent.
    pub fn nudge_split(&mut self, delta: i16)
        ensures
            old(self).wf() ==> final(self).wf(),
            *final(self) == (App {
                split_pct: nudged(old(self).split_pct as int, delta as int) as u16,
                ..*old(self)
            }),
    {
        let v = self.split_pct as i32 + delta as i32;
        self.split_pct = if v < 20 {
            20
        } else if v > 80 {
            80
        } else {
            v as u16
        };
    }

    /// Puts the tree/detail split at column `col`.
    pub fn set_split_from_col(&mut self, col: u16)
        ensures
            old(self).wf() ==> final(self).wf(),
            *final(self) == (App {
                split_pct: split_at(old(self).areas, col as int) as u16,
                ..*old(self)
            }),
    {
        let t = self.areas.tree;
        let d = self.areas.detail;
        let sum = t.width as u32 + d.width as u32;
        let full: u32 = if sum > 1 {
            sum
        } else {
            1
        };
        let rel: u32 = if col > t.x {
            (col - t.x) as u32
        } else {
            0
        };
        let pct = rel * 100 / full;
        self.split_pct = if pct < 20 {
            20
        } else if pct > 80 {
            80
        } else {
            pct as u16
        };
    }

    // ---- container actions ----

    /// Carries out `action`: on the demo data in mock mode, else through
    /// the daemon (followed by a poll).
    pub fn apply_action(&mut self, action: PendingAction)
        ensures
            old(self).wf() ==> final(self).wf(),
            action_applied(*old(self), *final(self), action),
    {
        if self.mock {
            match action {
                PendingAction::Container { id, name, action } => {
                    self.mock_container_action(id, name, action);
                },
                PendingAction::Recreate(req) => {
                    self.mock_recreate(*req);
                },
            }
            return;
        }
        if !self.connected {
            self.toast(false, owned("not connected"));
            return;
        }
        let ghost before = self.effects@;
        match action {
            PendingAction::Container { id, name, action } => {
                self.effects.push(Effect::ContainerAction { id, name, action });
            },
            PendingAction::Recreate(req) => {
                self.effects.push(Effect::Recreate(*req));
            },
        }
        self.effects.push(Effect::Refresh);
        assert(self.effects@.take(before.len() as int) =~= before);
    }

    /// Acts out `action` on demo container `id`.
    fn mock_container_action(&mut self, id: String, name: String, action: ContainerAction)
        ensures
            old(self).wf() ==> final(self).wf(),
            mock_action_done(*old(self), *final(self), id@, name@, action),
    {
        let ghost f = with_id(id@);
        let pos = self.find_container(id.as_str());
        let i = match pos {
            Some(i) => i,
            None => {
                self.toast(false, concat2(name.as_str(), ": not found"));
                return;
            },
        };
        proof {
            super::views::lemma_first_where(self.containers@, with_id(id@));
        }
        let mut text = concat3(action.label(), " ", name.as_str());
        push_str(&mut text, " done (mock)");
        match action {
            ContainerAction::Remove => {
                self.mock_remove(id.as_str(), text);
            },
            _ => {
                let (st, su) = match action {
                    ContainerAction::Start => ("running", "Up (mock)"),
                    ContainerAction::Stop => ("exited", "Exited (0) (mock)"),
                    _ => ("running", "Up (mock, restarted)"),
                };
                let mut c = self.containers.remove(i);
                c.state = owned(st);
                c.status = owned(su);
                self.containers.insert(i, c);
                let ghost m = *self;
                self.toast(true, text);
                assert(mock_restate_steps(*old(self), m, *self, i as int, action, text@));
            },
        }
    }

    /// Removes demo container `id` and everything kept for it.
    fn mock_remove(&mut self, id: &str, text: String)
        ensures
            old(self).wf() ==> final(self).wf(),
            exists|m1: App, m2: App| #[trigger] mock_remove_steps(*old(self), m1, m2, *final(self), id@, text@),
    {
        let mut keep: Vec<Container> = Vec::new();
        let mut rest: Vec<Container> = Vec::new();
        std::mem::swap(&mut rest, &mut self.containers);
        let ghost orig = rest@;
        let ghost g = id_other(id@);
        assert(rest@.len() == rest.len());
        assert(keep@ =~= select(orig.take(0), g));
        let mut k: usize = 0;
        while rest.len() > 0
            invariant
                g == id_other(id@),
                orig.len() <= usize::MAX,
                k + rest@.len() == orig.len(),
                rest@ == orig.skip(k as int),
                keep@ == select(orig.take(k as int), g),
            decreases rest@.len(),
        {
            proof {
                lemma_select_take(orig, g, k as int);
            }
            let c = rest.remove(0);
            assert(c == orig[k as int]);
            if !crate::text::eq_str(c.id.as_str(), id) {
                keep.push(c);
            }
            k += 1;
            assert(rest@ =~= orig.skip(k as int));
        }
        assert(orig.take(orig.len() as int) =~= orig);
        self.containers = keep;
        drop_key(&mut self.details, id);
        drop_key(&mut self.stats, id);
        drop_key(&mut self.cpu_hist, id);
        drop_key(&mut self.mem_hist, id);
        let ghost m1 = *self;
        self.rebuild_tree();
        let ghost m2 = *self;
        let ghost tv = text@;
        self.toast(true, text);
        assert(mock_remove_steps(*old(self), m1, m2, *self, id@, tv));
    }

    /// Recreates demo container `i` and its details from `req`.
    fn apply_recreate(&mut self, i: usize, req: &RecreateRequest)
        requires
            i < old(self).containers@.len(),
        ensures
            old(self).wf() ==> final(self).wf(),
            recreate_applied(*old(self), *final(self), i as int, *req),
    {
        let ghost cs0 = self.containers@;
        let c = recreated_container(self.containers.remove(i), req);
        let ghost cn = c;
        self.containers.insert(i, c);
        assert(self.containers@ =~= cs0.update(i as int, cn));
        let ghost ds0 = self.details@;
        match assoc_find(&self.details, req.old_id.as_str()) {
            Some(k) => {
                let (key, d0) = self.details.remove(k);
                let d = recreated_detail(d0, req);
                let ghost dn = (key, d);
                self.details.insert(k, (key, d));
                assert(self.details@ =~= ds0.update(k as int, dn));
            },
            None => {},
        }
    }

    /// Acts out the recreate `req` on the demo data.
    fn mock_recreate(&mut self, req: RecreateRequest)
        ensures
            old(self).wf() ==> final(self).wf(),
            mock_recreate_done(*old(self), *final(self), req),
    {
        let i = match self.find_container(req.old_id.as_str()) {
            Some(i) => i,
            None => {
                self.toast(false, owned("recreate: container not found"));
                return;
            },
        };
        proof {
            super::views::lemma_first_where(self.containers@, with_id(req.old_id@));
        }
        self.apply_recreate(i, &req);
        let ghost m1 = *self;
        self.rebuild_tree();
        let ghost m2 = *self;
        let text = concat3(
            "recreate ",
            match &req.spec.name {
                Some(n) => n.as_str(),
                None => req.old_name.as_str(),
            },
            " done (mock)",
        );
        self.toast(true, text);
        assert(mock_recreate_steps(*old(self), m1, m2, *self, i as int, req));
    }

    /// Where container `id` sits in the list.
    fn find_container(&self, id: &str) -> (r: Option<usize>)
        ensures
            match r {
                Some(i) => container_pos(self.containers@, id@) == Some(i as int),
                None => container_pos(self.containers@, id@) is None,
            },
    {
        let ghost f = with_id(id@);
        proof {
            super::views::lemma_first_where(self.containers@, f);
        }
        let mut i: usize = 0;
        while i < self.containers.len()
            invariant
                f == with_id(id@),
                i <= self.containers@.len(),
                forall|j: int| 0 <= j < i ==> !f(#[trigger] self.containers@[j]),
                match first_where(self.containers@, f) {
                    Some(p) => 0 <= p < self.containers@.len() && f(self.containers@[p]) && forall|
                        j: int,
                    | 0 <= j < p ==> !f(#[trigger] self.containers@[j]),
                    None => forall|j: int|
                        0 <= j < self.containers@.len() ==> !f(#[trigger] self.containers@[j]),
                },
            decreases self.containers@.len() - i,
        {
            if crate::text::eq_str(self.containers[i].id.as_str(), id) {
                proof {
                    assert(f(self.containers@[i as int]));
                    match first_where(self.containers@, f) {
                        Some(p) => {
                            if p > i {
                            }
                        },
                        None => {},
                    }
                }
                return Some(i);
            }
            i += 1;
        }
        None
    }
}

} // verus!
