//! Commands that act on the selected container or open and answer the
//! popups: actions, the edit form, exec, ops, contexts.
use vstd::prelude::*;

use super::commands::{
    action_applied, action_confirming, container_action_done, edit_started, exec_launched,
    exec_popup_opened, popup_closed, rebuilt_after, spec_of,
};
use super::data::{bootstrapped, pushed, selected_container_id};
use super::msgs::has_spec;
use super::views::{container_with, logs_opened, toasted};
use super::{assoc_find, App, Effect, LogTarget, Popup};
use super::commands::clamp;
use super::keys::{dec1, edit_input, edited, edits_text, is_edit_key};
use crate::actions::{
    cycled, env_lines, env_pairs, field_pos, request_from, text_fits, text_of, ContainerAction,
    EditForm, EnvCol, EnvEditor, FormField, FormValue, PendingAction, TextInput,
};
use crate::keys::KeyCode;
use crate::ops::RecreateRequest;
use crate::text::byte_len;
use crate::exec::ExecRequest;
use crate::model::Container;
use crate::ops::{created_from, expand_vars, port_spec, same_op, Op};
use crate::text::{concat2, concat3, owned, push_str};
use crate::util::strs;

verus! {

/// The port texts a demo op container shows for port specs `ps` (specs
/// that do not parse are left out).
pub open spec fn op_port_texts(ps: Seq<Seq<char>>) -> Seq<Seq<char>>
    decreases ps.len(),
{
    if ps.len() == 0 {
        Seq::empty()
    } else {
        let r = op_port_texts(ps.drop_last());
        match port_spec(ps.last()) {
            Some(kb) => r.push(crate::ops::binding_line(kb.0, kb.1)),
            None => r,
        }
    }
}

/// The name of the container op `op` starts in the demo.
pub open spec fn op_cname(op: Op, vars: Seq<(String, String)>) -> Seq<char> {
    match op.name {
        Some(n) => expand_vars(n@, vars),
        None => "unnamed"@,
    }
}

/// `c` is the demo container op `op` starts at `secs` (`nanos`).
pub open spec fn op_container(c: Container, op: Op, vars: Seq<(String, String)>, secs: i64, nanos: u32) -> bool {
    &&& c.id@ == "mock"@ + crate::text::hex(nanos as nat)
    &&& c.name@ == op_cname(op, vars)
    &&& c.image@ == op.image_text()
    &&& c.state@ == "running"@
    &&& c.status@ == "Up (mock op)"@
    &&& c.created == secs
    &&& c.command@ == match op.command {
        Some(cmd) => cmd.line(),
        None => Seq::empty(),
    }
    &&& c.labels@ == op.labels@
    &&& strs(c.ports@) == op_port_texts(strs(op.ports@))
}

/// The steps of running op `op` (named `name`) on the demo data.
pub open spec fn mock_op_steps(
    old: App,
    m1: App,
    m2: App,
    m3: App,
    m4: App,
    new: App,
    name: Seq<char>,
    op: Op,
) -> bool {
    let c = m1.containers@.last();
    &&& pushed(old.containers@, m1.containers@)
    &&& op_container(c, op, old.env_vars@, old.now_secs, old.now_nanos)
    &&& m1 == (App { containers: m1.containers, ..old })
    &&& rebuilt_after(m1, m2)
    &&& toasted(
        m2,
        m3,
        true,
        "op "@ + name + " started "@ + op_cname(op, old.env_vars@) + " (mock)"@,
    )
    &&& if op.attach {
        toasted(m3, m4, false, "attach needs a real docker connection"@)
    } else {
        m4 == m3
    }
    &&& if op.follow_logs {
        logs_opened(m4, new, seq![LogTarget { id: c.id, name: c.name }])
    } else {
        new == m4
    }
}

/// `new` is `old` after launching op `op` named `name`: acted out on the
/// demo data, handed to the terminal when it attaches, else to the daemon.
pub open spec fn op_ran(old: App, new: App, name: String, op: Op) -> bool {
    if old.mock {
        exists|m1: App, m2: App, m3: App, m4: App|
            #[trigger] mock_op_steps(old, m1, m2, m3, m4, new, name@, op)
    } else if op.attach {
        if !old.exec_available {
            toasted(old, new, false, "attach unavailable"@)
        } else {
            &&& pushed(old.effects@, new.effects@)
            &&& new.effects@.last() matches Effect::AttachRun { name: n, config } && created_from(
                (
                    match op.name {
                        Some(_) => Some(n),
                        None => None,
                    },
                    config,
                ),
                op,
                old.env_vars@,
            ) && (op.name is None ==> n@.len() == 0)
            &&& new == (App { effects: new.effects, ..old })
        }
    } else if !old.connected {
        toasted(old, new, false, "not connected"@)
    } else {
        exists|m: App|
            #[trigger] toasted(m, new, true, "running op "@ + name@ + "…"@) && m.effects@
                == old.effects@.push(Effect::RunOp { name, op }) && m == (App {
                effects: m.effects,
                ..old
            })
    }
}

/// `new` is `old` after choosing the highlighted entry of the open popup.
pub open spec fn popup_activated(old: App, new: App) -> bool {
    let sel = old.popup_sel;
    match old.popup {
        Popup::Context => exists|m: App|
            #[trigger] popup_closed(old, m) && if sel != old.current_ctx {
                bootstrapped(App { current_ctx: sel, ..m }, new)
            } else {
                new == m
            },
        Popup::ContainerSelect => exists|m: App|
            #[trigger] popup_closed(old, m) && if sel < old.containers@.len() {
                logs_opened(
                    m,
                    new,
                    seq![
                        LogTarget {
                            id: old.containers@[sel as int].id,
                            name: old.containers@[sel as int].name,
                        },
                    ],
                )
            } else {
                new == m
            },
        Popup::Help => popup_closed(old, new),
        Popup::Ops => if sel < old.ops@.len() {
            exists|m: App, o: Op|
                #![trigger popup_closed(old, m), op_ran(m, new, old.ops@[sel as int].0, o)]
                popup_closed(old, m) && same_op(o, old.ops@[sel as int].1) && op_ran(
                    m,
                    new,
                    old.ops@[sel as int].0,
                    o,
                )
        } else {
            popup_closed(old, new)
        },
        Popup::Exec => if sel == 0 {
            exists|m: App| #[trigger] popup_closed(old, m) && exec_launched(m, new, None)
        } else if sel == 1 {
            exists|m: App| #[trigger] popup_closed(old, m) && exec_launched(m, new, Some("root"@))
        } else {
            &&& new.exec_user_input matches Some(t) && t@ == (Seq::<char>::empty(), 0int) && t.wf()
            &&& new == (App { exec_user_input: new.exec_user_input, ..old })
        },
        _ => new == old,
    }
}

/// Cycles the selected choice or toggle of the form.
fn cycle_form(form: &mut EditForm)
    requires
        old(form).wf(),
        old(form).sel < old(form).fields@.len(),
        !(old(form).fields@[old(form).sel as int].value is Text),
    ensures
        form_cycled(*old(form), *final(form)),
        final(form).wf(),
{
    let ghost fi = form.fields@[form.sel as int];
    assert(match fi.value {
        FormValue::Text(t) => t.wf(),
        FormValue::Choice(c) => c < 5,
        FormValue::Toggle(_) => true,
    });
    let ghost f0 = *form;
    form.cycle_selected();
    proof {
        assert forall|j: int| 0 <= j < form.fields@.len() implies match (
        #[trigger] form.fields@[j]).value {
            FormValue::Text(t) => t.wf(),
            FormValue::Choice(c) => c < 5,
            FormValue::Toggle(_) => true,
        } by {
            assert(f0.fields@[j] == f0.fields@[j]);
        }
    }
}

/// Edits the selected text field of the form with key `code`.
fn edit_form_text(form: &mut EditForm, code: KeyCode)
    requires
        old(form).wf(),
        old(form).sel < old(form).fields@.len(),
        old(form).fields@[old(form).sel as int].value is Text,
        edits_text(code),
    ensures
        form_text_edited(*old(form), *final(form), code),
        final(form).wf(),
{
    let sel = form.sel;
    let ghost f0 = *form;
    let f = form.fields.remove(sel);
    let label = f.label;
    let value = match f.value {
        FormValue::Text(mut t) => {
            assert(f0.fields@[sel as int] == f);
            edit_input(&mut t, code);
            FormValue::Text(t)
        },
        v => v,
    };
    let ghost nf = FormField { label, value };
    form.fields.insert(sel, FormField { label, value });
    assert(form.fields@ =~= f0.fields@.update(sel as int, nf));
    proof {
        assert forall|j: int| 0 <= j < form.fields@.len() implies match (
        #[trigger] form.fields@[j]).value {
            FormValue::Text(t) => t.wf(),
            FormValue::Choice(c) => c < 5,
            FormValue::Toggle(_) => true,
        } by {
            assert(f0.fields@[j] == f0.fields@[j]);
        }
    }
}

/// The port texts of a demo op container.
fn op_port_list(ports: &Vec<String>) -> (r: Vec<String>)
    ensures
        strs(r@) == op_port_texts(strs(ports@)),
{
    let mut out: Vec<String> = Vec::new();
    let mut i: usize = 0;
    while i < ports.len()
        invariant
            i <= ports@.len(),
            strs(out@) == op_port_texts(strs(ports@).take(i as int)),
        decreases ports@.len() - i,
    {
        assert(strs(ports@).take(i + 1).drop_last() =~= strs(ports@).take(i as int));
        assert(strs(ports@).take(i + 1).last() == ports@[i as int]@);
        match crate::ops::parse_port(ports[i].as_str()) {
            Some((k, b)) => {
                let mut t = match &b.host_ip {
                    Some(ip) => ip.clone(),
                    None => owned("0.0.0.0"),
                };
                push_str(&mut t, ":");
                match &b.host_port {
                    Some(p) => push_str(&mut t, p.as_str()),
                    None => push_str(&mut t, "?"),
                }
                push_str(&mut t, " -> ");
                push_str(&mut t, k.as_str());
                let ghost before = out@;
                out.push(t);
                proof {
                    crate::text::lemma_map_push(before, t, |s: String| s@);
                }
            },
            None => {},
        }
        i += 1;
    }
    assert(strs(ports@).take(ports@.len() as int) =~= strs(ports@));
    out
}

/// The demo container op `op` starts.
fn op_container_of(op: &Op, vars: &Vec<(String, String)>, secs: i64, nanos: u32) -> (c: Container)
    ensures
        op_container(c, *op, vars@, secs, nanos),
{
    let cname = match op.container_name(vars) {
        Some(n) => n,
        None => owned("unnamed"),
    };
    Container {
        id: concat2("mock", crate::text::hex_text(nanos as u64).as_str()),
        name: cname,
        image: owned(op.image()),
        state: owned("running"),
        status: owned("Up (mock op)"),
        created: secs,
        command: match &op.command {
            Some(c) => c.to_line(),
            None => String::new(),
        },
        labels: crate::model::clone_labels(&op.labels),
        ports: op_port_list(&op.ports),
    }
}

// ---------------------------------------------------------------- popup keys

/// How many entries the open list popup has.
pub open spec fn popup_len(a: App) -> int {
    match a.popup {
        Popup::Context => a.contexts@.len() as int,
        Popup::ContainerSelect => a.containers@.len() as int,
        Popup::Ops => a.ops@.len() as int,
        Popup::Exec => 3,
        _ => 0,
    }
}

/// `new` is `old` after key `code` while typing the exec user name.
pub open spec fn exec_input_key_handled(old: App, new: App, code: KeyCode) -> bool {
    let t = old.exec_user_input->0;
    match code {
        KeyCode::Esc => new == (App { exec_user_input: None, ..old }),
        KeyCode::Enter => {
            let user = crate::text::trim(t.value@);
            exec_launched(
                App { popup: Popup::Closed, exec_user_input: None, ..old },
                new,
                if user.len() > 0 {
                    Some(user)
                } else {
                    None
                },
            )
        },
        _ => if edits_text(code) {
            (new.exec_user_input matches Some(u) && u@ == edited(t@, code) && u.wf()) && new == (
            App { exec_user_input: new.exec_user_input, ..old })
        } else {
            new == old
        },
    }
}

/// `new` is `old` after key `code` in the confirmation popup.
pub open spec fn confirm_key_handled(old: App, new: App, code: KeyCode) -> bool {
    match code {
        KeyCode::Esc | KeyCode::Char('n') => popup_closed(old, new),
        KeyCode::Enter | KeyCode::Char('y') => match old.pending {
            Some(a) => action_applied(App { pending: None, popup: Popup::Closed, ..old }, new, a),
            None => popup_closed(old, new),
        },
        _ => new == old,
    }
}

/// `new` is `old` after key `code` in a list popup.
pub open spec fn list_popup_key_handled(old: App, new: App, code: KeyCode) -> bool {
    let n = popup_len(old);
    match code {
        KeyCode::Esc => popup_closed(old, new),
        KeyCode::Up | KeyCode::Char('k') => new == (App { popup_sel: dec1(old.popup_sel as int) as usize, ..old }),
        KeyCode::Down | KeyCode::Char('j') => new == (App {
            popup_sel: if n > 0 {
                clamp(old.popup_sel + 1, 0, n - 1) as usize
            } else {
                old.popup_sel
            },
            ..old
        }),
        KeyCode::Char('g') | KeyCode::Home => new == (App { popup_sel: 0, ..old }),
        KeyCode::Char('G') | KeyCode::End => new == (App { popup_sel: dec1(n) as usize, ..old }),
        KeyCode::Enter => popup_activated(old, new),
        _ => new == old,
    }
}

/// `g` is form `f` with its selected choice or toggle cycled.
pub open spec fn form_cycled(f: EditForm, g: EditForm) -> bool {
    &&& g.fields@ == f.fields@.update(
        f.sel as int,
        FormField { label: f.fields@[f.sel as int].label, value: cycled(f.fields@[f.sel as int].value) },
    )
    &&& g == (EditForm { fields: g.fields, ..f })
}

/// `g` is form `f` with its selected text field edited by key `code`.
pub open spec fn form_text_edited(f: EditForm, g: EditForm, code: KeyCode) -> bool {
    let i = f.sel as int;
    &&& g.fields@.len() == f.fields@.len()
    &&& forall|j: int| 0 <= j < f.fields@.len() && j != i ==> #[trigger] g.fields@[j] == f.fields@[j]
    &&& g.fields@[i].label == f.fields@[i].label
    &&& g.fields@[i].value matches FormValue::Text(u) && f.fields@[i].value matches FormValue::Text(t)
        && u@ == edited(t@, code) && u.wf()
    &&& g == (EditForm { fields: g.fields, ..f })
}

/// `new` is `old` with the edit form replaced by one satisfying `p`.
pub open spec fn form_replaced(old: App, new: App) -> bool {
    new.edit is Some && new == (App { edit: new.edit, ..old })
}

/// `new` is `old` with the env editor opened on the form's Env text.
pub open spec fn env_opened(old: App, new: App, f: EditForm) -> bool {
    &&& new.env_editor matches Some(e) && e.pairs() == env_pairs(text_of(f.fields@, "Env"@))
        && e.sel == 0 && e.editing is None && e.wf()
    &&& new == (App { env_editor: new.env_editor, ..old })
}

/// `new` is `old` after applying the edit form `form`: the popup closes
/// and the container is recreated as the form describes.
pub open spec fn form_applied(old: App, new: App, form: EditForm) -> bool {
    exists|m: App, req: RecreateRequest|
        #![trigger request_from(req, form), action_applied(m, new, PendingAction::Recreate(Box::new(req)))]
        request_from(req, form) && popup_closed(old, m) && action_applied(
            m,
            new,
            PendingAction::Recreate(Box::new(req)),
        )
}

/// `new` is `old` after key `code` in the edit form.
pub open spec fn form_key_handled(old: App, new: App, code: KeyCode) -> bool {
    match old.edit {
        None => popup_closed(old, new),
        Some(form) => {
            let n = form.fields@.len() as int;
            let sel = form.sel as int;
            let is_text = sel < n && form.fields@[sel].value is Text;
            match code {
                KeyCode::Esc => popup_closed(old, new),
                KeyCode::Up => new == (App {
                    edit: Some(EditForm { sel: dec1(sel) as usize, ..form }),
                    ..old
                }),
                KeyCode::Down | KeyCode::Tab => new == (App {
                    edit: Some(
                        EditForm {
                            sel: if sel < n {
                                (sel + 1) as usize
                            } else {
                                form.sel
                            },
                            ..form
                        },
                    ),
                    ..old
                }),
                KeyCode::Enter => if sel == n {
                    form_applied(old, new, form)
                } else if sel > n {
                    new == old
                } else if form.fields@[sel].label@ == "Env"@ {
                    env_opened(old, new, form)
                } else if is_text {
                    new == (App { edit: Some(EditForm { sel: (sel + 1) as usize, ..form }), ..old })
                } else {
                    form_replaced(old, new) && form_cycled(form, new.edit->0)
                },
                _ => if is_text && edits_text(code) {
                    form_replaced(old, new) && form_text_edited(form, new.edit->0, code)
                } else if !is_text && code == KeyCode::Char(' ') && sel < n {
                    form_replaced(old, new) && form_cycled(form, new.edit->0)
                } else {
                    new == old
                },
            }
        },
    }
}

/// `t` is a fresh input holding `text`, the cursor at its end.
pub open spec fn fresh_input(t: TextInput, text: Seq<char>) -> bool {
    t.value@ == text && (text_fits(text) ==> t.cursor == byte_len(text)) && t.wf()
}

/// `new` is `old` with the env editor closed, its rows written back into
/// the form's Env field.
pub open spec fn env_closed(old: App, new: App) -> bool {
    let ed = old.env_editor->0;
    let text = crate::text::join(env_lines(ed.pairs()), "; "@);
    match old.edit {
        Some(form) => match field_pos(form.fields@, "Env"@) {
            Some(i) => {
                &&& new.edit matches Some(g) && g == (EditForm { fields: g.fields, ..form })
                    && g.fields@.len() == form.fields@.len() && (forall|j: int|
                    0 <= j < form.fields@.len() && j != i ==> #[trigger] g.fields@[j]
                        == form.fields@[j]) && g.fields@[i].label == form.fields@[i].label && (
                g.fields@[i].value matches FormValue::Text(t) && fresh_input(t, text))
                &&& new == (App { edit: new.edit, env_editor: None, ..old })
            },
            None => new == (App { env_editor: None, ..old }),
        },
        None => new == (App { env_editor: None, ..old }),
    }
}

/// `e` is `ed` with the cell in column `col` of the selected row edited
/// by key `code`.
pub open spec fn cell_edited(ed: EnvEditor, e: EnvEditor, col: EnvCol, code: KeyCode) -> bool {
    let i = ed.sel as int;
    &&& e.sel == ed.sel
    &&& e.editing == ed.editing
    &&& e.rows@.len() == ed.rows@.len()
    &&& forall|j: int| 0 <= j < ed.rows@.len() && j != i ==> #[trigger] e.rows@[j] == ed.rows@[j]
    &&& match col {
        EnvCol::Key => e.rows@[i].key@ == edited(ed.rows@[i].key@, code) && e.rows@[i].value
            == ed.rows@[i].value,
        EnvCol::Value => e.rows@[i].value@ == edited(ed.rows@[i].value@, code) && e.rows@[i].key
            == ed.rows@[i].key,
    }
    &&& e.wf()
}

/// `e` is `ed` with an empty row added and being edited.
pub open spec fn row_added(ed: EnvEditor, e: EnvEditor) -> bool {
    &&& e.pairs() == ed.pairs().push((Seq::<char>::empty(), Seq::<char>::empty()))
    &&& e.sel == ed.rows@.len()
    &&& e.editing == Some(EnvCol::Key)
    &&& e.wf()
}

/// `e` is `ed` with the selected row removed (the last one left is
/// emptied instead).
pub open spec fn row_deleted(ed: EnvEditor, e: EnvEditor) -> bool {
    &&& ed.rows@.len() > 1 ==> e.pairs() == ed.pairs().remove(ed.sel as int)
    &&& ed.rows@.len() > 1 && ed.sel < ed.rows@.len() - 1 ==> e.sel == ed.sel
    &&& ed.rows@.len() > 1 && ed.sel == ed.rows@.len() - 1 ==> e.sel == ed.sel - 1
    &&& ed.rows@.len() == 1 ==> e.pairs() == seq![(Seq::<char>::empty(), Seq::<char>::empty())]
        && e.sel == 0
    &&& e.editing is None
    &&& e.wf()
}

/// `new` is `old` with the env editor replaced.
pub open spec fn env_replaced(old: App, new: App) -> bool {
    new.env_editor is Some && new == (App { env_editor: new.env_editor, ..old })
}

/// `new` is `old` after key `code` in the env editor.
pub open spec fn env_key_handled(old: App, new: App, code: KeyCode) -> bool {
    let ed = old.env_editor->0;
    let n = ed.rows@.len() as int;
    let sel = ed.sel as int;
    if code == KeyCode::Esc {
        if ed.editing is Some {
            new == (App { env_editor: Some(EnvEditor { editing: None, ..ed }), ..old })
        } else {
            env_closed(old, new)
        }
    } else if ed.editing is Some {
        let col = ed.editing->0;
        match code {
            KeyCode::Enter | KeyCode::Tab => new == (App {
                env_editor: Some(
                    EnvEditor {
                        editing: if col == EnvCol::Key {
                            Some(EnvCol::Value)
                        } else {
                            None
                        },
                        ..ed
                    },
                ),
                ..old
            }),
            KeyCode::Up => new == (App {
                env_editor: Some(EnvEditor { editing: None, sel: dec1(sel) as usize, ..ed }),
                ..old
            }),
            KeyCode::Down => new == (App {
                env_editor: Some(
                    EnvEditor {
                        editing: None,
                        sel: if sel + 1 < n {
                            (sel + 1) as usize
                        } else {
                            ed.sel
                        },
                        ..ed
                    },
                ),
                ..old
            }),
            _ => if edits_text(code) {
                env_replaced(old, new) && cell_edited(ed, new.env_editor->0, col, code)
            } else {
                new == old
            },
        }
    } else {
        match code {
            KeyCode::Up | KeyCode::Char('k') => new == (App {
                env_editor: Some(EnvEditor { sel: dec1(sel) as usize, ..ed }),
                ..old
            }),
            KeyCode::Down | KeyCode::Char('j') => new == (App {
                env_editor: Some(
                    EnvEditor {
                        sel: if n > 1 {
                            clamp(sel + 1, 0, n - 1) as usize
                        } else {
                            ed.sel
                        },
                        ..ed
                    },
                ),
                ..old
            }),
            KeyCode::Char('g') | KeyCode::Home => new == (App {
                env_editor: Some(EnvEditor { sel: 0, ..ed }),
                ..old
            }),
            KeyCode::Char('G') | KeyCode::End => new == (App {
                env_editor: Some(EnvEditor { sel: dec1(n) as usize, ..ed }),
                ..old
            }),
            KeyCode::Enter => new == (App {
                env_editor: Some(EnvEditor { editing: Some(EnvCol::Key), ..ed }),
                ..old
            }),
            KeyCode::Tab => new == (App {
                env_editor: Some(EnvEditor { editing: Some(EnvCol::Value), ..ed }),
                ..old
            }),
            KeyCode::Char('a') => if n < usize::MAX {
                env_replaced(old, new) && row_added(ed, new.env_editor->0)
            } else {
                new == old
            },
            KeyCode::Char('d') | KeyCode::Delete => env_replaced(old, new) && row_deleted(
                ed,
                new.env_editor->0,
            ),
            _ => new == old,
        }
    }
}

/// `new` is `old` after key `code` in the edit popup.
pub open spec fn edit_key_handled(old: App, new: App, code: KeyCode) -> bool {
    if old.env_editor is Some {
        env_key_handled(old, new, code)
    } else {
        form_key_handled(old, new, code)
    }
}

/// `new` is `old` after key `code` with a popup open.
pub open spec fn popup_key_handled(old: App, new: App, code: KeyCode) -> bool {
    if old.popup == Popup::Exec && old.exec_user_input is Some {
        exec_input_key_handled(old, new, code)
    } else if old.popup == Popup::Edit {
        edit_key_handled(old, new, code)
    } else if old.popup == Popup::Confirm {
        confirm_key_handled(old, new, code)
    } else {
        list_popup_key_handled(old, new, code)
    }
}


impl App {
    /// Action `action` on the selected container; removal asks first.
    pub fn container_action(&mut self, action: ContainerAction)
        ensures
            old(self).wf() ==> final(self).wf(),
            container_action_done(*old(self), *final(self), action),
    {
        let (id, name) = match self.selected_container() {
            Some(c) => (c.id.clone(), c.name.clone()),
            None => {
                return;
            },
        };
        if action == ContainerAction::Remove {
            self.confirm_container_action(action);
            return;
        }
        self.apply_action(PendingAction::Container { id, name, action });
    }

    /// Asks to confirm `action` on the selected container.
    pub fn confirm_container_action(&mut self, action: ContainerAction)
        ensures
            old(self).wf() ==> final(self).wf(),
            action_confirming(*old(self), *final(self), action),
    {
        let (id, name) = match self.selected_container() {
            Some(c) => (c.id.clone(), c.name.clone()),
            None => {
                return;
            },
        };
        self.pending = Some(PendingAction::Container { id, name, action });
        self.popup = Popup::Confirm;
    }

    /// Opens the edit form on the selected container, fetching its details
    /// first when they are not known.
    pub fn open_edit(&mut self)
        ensures
            old(self).wf() ==> final(self).wf(),
            edit_started(*old(self), *final(self)),
    {
        let (id, name, running) = match self.selected_container() {
            Some(c) => (c.id.clone(), c.name.clone(), c.is_running()),
            None => {
                return;
            },
        };
        proof {
            super::views::lemma_container_with(self.containers@, selected_container_id(*self)->0);
        }
        let form: Option<EditForm> = match assoc_find(&self.details, id.as_str()) {
            Some(i) => match &self.details[i].1.spec {
                Some(spec) => Some(EditForm::from_spec(id.as_str(), spec, running)),
                None => None,
            },
            None => None,
        };
        match form {
            Some(f) => {
                self.edit = Some(f);
                self.popup = Popup::Edit;
                return;
            },
            None => {},
        }
        if self.mock {
            self.toast(false, owned("no inspect data for edit (mock)"));
            return;
        }
        if self.connected {
            self.edit_pending = Some(id.clone());
            let ghost m1 = *self;
            self.request_inspect(id.as_str());
            let ghost m2 = *self;
            self.toast(true, concat3("inspecting ", name.as_str(), "…"));
            proof {
                let c = container_with(old(self).containers@, selected_container_id(*old(self))->0)->0;
                assert(super::data::inspect_requested(m1, m2, c.id@));
                assert(toasted(m2, *self, true, "inspecting "@ + c.name@ + "…"@));
            }
        }
    }

    /// Opens the exec popup on the selected container when it runs.
    pub fn open_exec_popup(&mut self)
        ensures
            old(self).wf() ==> final(self).wf(),
            exec_popup_opened(*old(self), *final(self)),
    {
        let (running, name) = match self.selected_container() {
            Some(c) => (c.is_running(), c.name.clone()),
            None => {
                return;
            },
        };
        if !running {
            self.toast(false, concat2(name.as_str(), " is not running"));
            return;
        }
        self.popup = Popup::Exec;
        self.popup_sel = 0;
        self.exec_user_input = None;
    }

    /// Asks for a shell in the selected container as `user`.
    pub fn launch_exec(&mut self, user: Option<String>)
        ensures
            old(self).wf() ==> final(self).wf(),
            exec_launched(*old(self), *final(self), crate::ops::opt_view(user)),
    {
        let (id, name) = match self.selected_container() {
            Some(c) => (c.id.clone(), c.name.clone()),
            None => {
                return;
            },
        };
        if self.mock || !self.connected {
            self.toast(false, owned("exec needs a real docker connection"));
            return;
        }
        if !self.exec_available {
            self.toast(false, owned("exec unavailable"));
            return;
        }
        let ghost before = self.effects@;
        self.effects.push(Effect::Exec(ExecRequest { id, name, user }));
        assert(self.effects@.drop_last() =~= before);
    }

    /// Launches op `op` named `name`.
    pub fn run_op(&mut self, name: String, op: Op)
        ensures
            old(self).wf() ==> final(self).wf(),
            op_ran(*old(self), *final(self), name, op),
    {
        if self.mock {
            self.mock_run_op(name, op);
            return;
        }
        if op.attach {
            if !self.exec_available {
                self.toast(false, owned("attach unavailable"));
                return;
            }
            let (cname, config) = op.to_create(&self.env_vars);
            let ghost cn = cname;
            let n = match cname {
                Some(n) => n,
                None => String::new(),
            };
            let ghost before = self.effects@;
            self.effects.push(Effect::AttachRun { name: n, config });
            assert(self.effects@.drop_last() =~= before);
            return;
        }
        if !self.connected {
            self.toast(false, owned("not connected"));
            return;
        }
        let text = concat3("running op ", name.as_str(), "…");
        self.effects.push(Effect::RunOp { name, op });
        let ghost m = *self;
        self.toast(true, text);
        assert(toasted(m, *self, true, text@));
    }

    /// Acts out op `op` on the demo data.
    fn mock_run_op(&mut self, name: String, op: Op)
        requires
            old(self).mock,
        ensures
            old(self).wf() ==> final(self).wf(),
            exists|m1: App, m2: App, m3: App, m4: App|
                #[trigger] mock_op_steps(*old(self), m1, m2, m3, m4, *final(self), name@, op),
    {
        let c = op_container_of(&op, &self.env_vars, self.now_secs, self.now_nanos);
        let id = c.id.clone();
        let cname = c.name.clone();
        let ghost before = self.containers@;
        self.containers.push(c);
        assert(self.containers@.drop_last() =~= before);
        let ghost m1 = *self;
        self.rebuild_tree();
        let ghost m2 = *self;
        let mut text = concat3("op ", name.as_str(), " started ");
        push_str(&mut text, cname.as_str());
        push_str(&mut text, " (mock)");
        self.toast(true, text);
        let ghost m3 = *self;
        if op.attach {
            self.toast(false, owned("attach needs a real docker connection"));
        }
        let ghost m4 = *self;
        if op.follow_logs {
            let mut ts: Vec<LogTarget> = Vec::new();
            ts.push(LogTarget { id, name: cname });
            assert(ts@ =~= seq![LogTarget { id: m1.containers@.last().id, name: m1.containers@.last().name }]);
            self.open_logs(ts);
        }
        assert(mock_op_steps(*old(self), m1, m2, m3, m4, *self, name@, op));
    }

    /// Closes every popup and form.
    pub fn close_popup(&mut self)
        ensures
            old(self).wf() ==> final(self).wf(),
            popup_closed(*old(self), *final(self)),
    {
        self.popup = Popup::Closed;
        self.pending = None;
        self.edit = None;
        self.env_editor = None;
        self.exec_user_input = None;
    }

    /// Chooses the highlighted entry of the open popup.
    pub fn activate_popup(&mut self)
        ensures
            old(self).wf() ==> final(self).wf(),
            popup_activated(*old(self), *final(self)),
    {
        let sel = self.popup_sel;
        match self.popup {
            Popup::Context => {
                self.close_popup();
                let ghost m = *self;
                if sel != self.current_ctx {
                    self.current_ctx = sel;
                    self.bootstrap();
                }
                assert(popup_closed(*old(self), m));
            },
            Popup::ContainerSelect => {
                self.close_popup();
                let ghost m = *self;
                if sel < self.containers.len() {
                    let t = LogTarget {
                        id: self.containers[sel].id.clone(),
                        name: self.containers[sel].name.clone(),
                    };
                    let mut ts: Vec<LogTarget> = Vec::new();
                    ts.push(t);
                    assert(ts@ =~= seq![t]);
                    self.open_logs(ts);
                }
                assert(popup_closed(*old(self), m));
            },
            Popup::Help => {
                self.close_popup();
            },
            Popup::Ops => {
                self.close_popup();
                let ghost m = *self;
                if sel < self.ops.len() {
                    let name = self.ops[sel].0.clone();
                    let op = self.ops[sel].1.clone();
                    let ghost o = op;
                    self.run_op(name, op);
                    assert(popup_closed(*old(self), m));
                    assert(op_ran(m, *self, old(self).ops@[sel as int].0, o));
                }
            },
            Popup::Exec => {
                if sel == 0 {
                    self.close_popup();
                    let ghost m = *self;
                    self.launch_exec(None);
                    assert(popup_closed(*old(self), m));
                } else if sel == 1 {
                    self.close_popup();
                    let ghost m = *self;
                    let root = owned("root");
                    proof {
                        reveal_strlit("root");
                    }
                    self.launch_exec(Some(root));
                    assert(popup_closed(*old(self), m));
                } else {
                    let t = TextInput::new(String::new());
                    proof {
                        assert(crate::text::byte_len(Seq::<char>::empty()) == 0) by {
                            reveal_with_fuel(crate::text::byte_len, 1);
                        }
                    }
                    self.exec_user_input = Some(t);
                }
            },
            _ => {},
        }
    }
    /// A key with a popup open.
    pub fn handle_popup_key(&mut self, code: KeyCode)
        requires
            old(self).wf(),
        ensures
            popup_key_handled(*old(self), *final(self), code),
            final(self).wf(),
    {
        if self.popup == Popup::Exec && self.exec_user_input.is_some() {
            self.handle_exec_input_key(code);
            return;
        }
        if self.popup == Popup::Edit {
            if self.env_editor.is_some() {
                self.handle_env_key(code);
            } else {
                self.handle_form_key(code);
            }
            return;
        }
        if self.popup == Popup::Confirm {
            match code {
                KeyCode::Esc | KeyCode::Char('n') => self.close_popup(),
                KeyCode::Enter | KeyCode::Char('y') => {
                    match self.pending.take() {
                        Some(action) => {
                            self.popup = Popup::Closed;
                            self.apply_action(action);
                        },
                        None => self.close_popup(),
                    }
                },
                _ => {},
            }
            return;
        }
        let n: usize = match self.popup {
            Popup::Context => self.contexts.len(),
            Popup::ContainerSelect => self.containers.len(),
            Popup::Ops => self.ops.len(),
            Popup::Exec => 3,
            _ => 0,
        };
        match code {
            KeyCode::Esc => self.close_popup(),
            KeyCode::Up | KeyCode::Char('k') => {
                if self.popup_sel > 0 {
                    self.popup_sel = self.popup_sel - 1;
                }
            },
            KeyCode::Down | KeyCode::Char('j') => {
                if n > 0 {
                    self.popup_sel = if self.popup_sel >= n - 1 {
                        n - 1
                    } else {
                        self.popup_sel + 1
                    };
                }
            },
            KeyCode::Char('g') | KeyCode::Home => {
                self.popup_sel = 0;
            },
            KeyCode::Char('G') | KeyCode::End => {
                self.popup_sel = if n > 0 {
                    n - 1
                } else {
                    0
                };
            },
            KeyCode::Enter => self.activate_popup(),
            _ => {},
        }
    }

    /// A key while typing the exec user name.
    fn handle_exec_input_key(&mut self, code: KeyCode)
        requires
            old(self).wf(),
            old(self).exec_user_input is Some,
        ensures
            exec_input_key_handled(*old(self), *final(self), code),
            final(self).wf(),
    {
        let mut t = match self.exec_user_input.take() {
            Some(t) => t,
            None => {
                return;
            },
        };
        match code {
            KeyCode::Esc => {},
            KeyCode::Enter => {
                let user = crate::text::trim_str(t.value.as_str());
                self.popup = Popup::Closed;
                let u = if user.as_str().is_empty() {
                    None
                } else {
                    Some(user)
                };
                self.launch_exec(u);
            },
            _ => {
                edit_input(&mut t, code);
                self.exec_user_input = Some(t);
            },
        }
    }

    /// A key in the edit form.
    #[verifier::rlimit(60)]
    fn handle_form_key(&mut self, code: KeyCode)
        requires
            old(self).wf(),
            old(self).env_editor is None,
        ensures
            form_key_handled(*old(self), *final(self), code),
            final(self).wf(),
    {
        let mut form = match self.edit.take() {
            Some(f) => f,
            None => {
                self.close_popup();
                return;
            },
        };
        let n = form.fields.len();
        let sel = form.sel;
        let is_text = sel < n && match &form.fields[sel].value {
            FormValue::Text(_) => true,
            _ => false,
        };
        match code {
            KeyCode::Esc => {
                self.edit = Some(form);
                self.close_popup();
            },
            KeyCode::Up => {
                if form.sel > 0 {
                    form.sel = form.sel - 1;
                }
                self.edit = Some(form);
            },
            KeyCode::Down | KeyCode::Tab => {
                if form.sel < n {
                    form.sel = form.sel + 1;
                }
                self.edit = Some(form);
            },
            KeyCode::Enter => {
                if sel == n {
                    self.edit = Some(form);
                    self.apply_form();
                } else if sel > n {
                    self.edit = Some(form);
                } else if crate::text::eq_str(form.fields[sel].label, "Env") {
                    let ed = EnvEditor::from_text(form.text("Env"));
                    self.edit = Some(form);
                    self.env_editor = Some(ed);
                } else if is_text {
                    form.sel = form.sel + 1;
                    self.edit = Some(form);
                } else {
                    cycle_form(&mut form);
                    self.edit = Some(form);
                }
            },
            _ => {
                if is_text && is_edit_key(code) {
                    edit_form_text(&mut form, code);
                    self.edit = Some(form);
                } else if !is_text && code == KeyCode::Char(' ') && sel < n {
                    cycle_form(&mut form);
                    self.edit = Some(form);
                } else {
                    self.edit = Some(form);
                }
            },
        }
    }

    /// Closes the edit form and recreates the container as it describes.
    fn apply_form(&mut self)
        requires
            old(self).wf(),
            old(self).edit is Some,
        ensures
            form_applied(*old(self), *final(self), old(self).edit->0),
            final(self).wf(),
    {
        let req = match &self.edit {
            Some(form) => {
                proof {
                    crate::actions::lemma_choice_in_range(*form);
                }
                form.to_request()
            },
            None => {
                return;
            },
        };
        self.close_popup();
        let ghost m = *self;
        let ghost r = req;
        self.apply_action(PendingAction::Recreate(Box::new(req)));
        assert(popup_closed(*old(self), m));
        assert(request_from(r, old(self).edit->0));
    }

    /// Writes the env editor back into the form's Env field and closes it.
    pub fn close_env_editor(&mut self)
        requires
            old(self).wf(),
            old(self).env_editor is Some,
        ensures
            env_closed(*old(self), *final(self)),
            final(self).wf(),
    {
        let text = match self.env_editor.take() {
            Some(ed) => ed.to_text(),
            None => {
                return;
            },
        };
        let mut form = match self.edit.take() {
            Some(f) => f,
            None => {
                return;
            },
        };
        match crate::actions::find_field(&form.fields, "Env") {
            Some(i) => {
                let f = form.fields.remove(i);
                form.fields.insert(
                    i,
                    FormField { label: f.label, value: FormValue::Text(TextInput::new(text)) },
                );
            },
            None => {},
        }
        self.edit = Some(form);
    }

    /// A key in the env editor.
    fn handle_env_key(&mut self, code: KeyCode)
        requires
            old(self).wf(),
            old(self).env_editor is Some,
        ensures
            env_key_handled(*old(self), *final(self), code),
            final(self).wf(),
    {
        if code == KeyCode::Esc {
            let editing = match &self.env_editor {
                Some(e) => e.editing.is_some(),
                None => false,
            };
            if editing {
                match self.env_editor.take() {
                    Some(mut e) => {
                        e.editing = None;
                        self.env_editor = Some(e);
                    },
                    None => {},
                }
            } else {
                self.close_env_editor();
            }
            return;
        }
        let mut ed = match self.env_editor.take() {
            Some(e) => e,
            None => {
                return;
            },
        };
        let n = ed.rows.len();
        match ed.editing {
            Some(col) => {
                match code {
                    KeyCode::Enter | KeyCode::Tab => {
                        ed.editing = if col == EnvCol::Key {
                            Some(EnvCol::Value)
                        } else {
                            None
                        };
                    },
                    KeyCode::Up => {
                        ed.editing = None;
                        if ed.sel > 0 {
                            ed.sel = ed.sel - 1;
                        }
                    },
                    KeyCode::Down => {
                        ed.editing = None;
                        if ed.sel + 1 < n {
                            ed.sel = ed.sel + 1;
                        }
                    },
                    _ => {
                        if is_edit_key(code) {
                            let i = ed.sel;
                            let ghost e0 = ed;
                            let mut row = ed.rows.remove(i);
                            assert(row == e0.rows@[i as int]);
                            match col {
                                EnvCol::Key => {
                                    edit_input(&mut row.key, code);
                                },
                                EnvCol::Value => {
                                    edit_input(&mut row.value, code);
                                },
                            }
                            let ghost nr = row;
                            ed.rows.insert(i, row);
                            assert(ed.rows@ =~= e0.rows@.update(i as int, nr));
                            proof {
                                assert forall|j: int| 0 <= j < ed.rows@.len() implies (
                                #[trigger] ed.rows@[j]).key.wf() && ed.rows@[j].value.wf() by {
                                    assert(e0.rows@[j] == e0.rows@[j]);
                                }
                            }
                        }
                    },
                }
            },
            None => {
                match code {
                    KeyCode::Up | KeyCode::Char('k') => {
                        if ed.sel > 0 {
                            ed.sel = ed.sel - 1;
                        }
                    },
                    KeyCode::Down | KeyCode::Char('j') => {
                        if n > 1 {
                            ed.sel = if ed.sel >= n - 1 {
                                n - 1
                            } else {
                                ed.sel + 1
                            };
                        }
                    },
                    KeyCode::Char('g') | KeyCode::Home => {
                        ed.sel = 0;
                    },
                    KeyCode::Char('G') | KeyCode::End => {
                        ed.sel = if n > 0 {
                            n - 1
                        } else {
                            0
                        };
                    },
                    KeyCode::Enter => {
                        ed.editing = Some(EnvCol::Key);
                    },
                    KeyCode::Tab => {
                        ed.editing = Some(EnvCol::Value);
                    },
                    KeyCode::Char('a') => {
                        if n < usize::MAX {
                            ed.add_row();
                        }
                    },
                    KeyCode::Char('d') | KeyCode::Delete => {
                        ed.delete_row();
                    },
                    _ => {},
                }
            },
        }
        self.env_editor = Some(ed);
    }
}

} // verus!
