//! The one-line parts of the screen: the header, the key hints, the
//! search prompt, toasts and the connection banner, as styled text.
use vstd::prelude::*;

use crate::actions::{EditForm, FormField, FormValue, TextInput};
use crate::app::{App, ConnState, Toast};
use crate::app::View as Pane;
use crate::model::Container;
use crate::text::{byte_len, char_index, dec, first_index, on_boundary, owned, u64_text};
use crate::theme::{bold, line_view, lines_view, plain, Color, Line, Span, SpanV, Style};

verus! {

fn push_span(l: &mut Line, text: String, style: Style)
    ensures
        line_view(final(l)@) == line_view(old(l)@).push((text@, style)),
{
    let ghost before = l@;
    let s = Span { text, style };
    l.push(s);
    proof {
        crate::text::lemma_map_push(before, s, |x: Span| x@);
    }
}

// ---------------------------------------------------------------- header

/// How the connection state reads in the header.
pub open spec fn conn_span(c: ConnState) -> SpanV {
    match c {
        ConnState::Connected => (" ● connected "@, plain(Color::LightGreen)),
        ConnState::Mock => (" ● mock "@, plain(Color::Magenta)),
        ConnState::Connecting => (" ◌ connecting "@, plain(Color::LightYellow)),
        ConnState::Error(_) => (" ✖ disconnected "@, plain(Color::LightRed)),
    }
}

/// The separator between header fields.
pub open spec fn sep_span() -> SpanV {
    (" │ "@, plain(Color::DarkGray))
}

/// The header after the program's badge: the context, the connection,
/// the number of compose projects, running and all containers, volumes,
/// and the view.
pub open spec fn header_v(a: App) -> Seq<SpanV> {
    seq![
        (" "@, plain(Color::Default)),
        ("ctx:"@, plain(Color::DarkGray)),
        (a.contexts@[a.current_ctx as int].name@, bold(Color::Cyan)),
        conn_span(a.conn),
        sep_span(),
        ("projects "@, plain(Color::DarkGray)),
        (dec(crate::tree::projects_of(a.containers@).len()), plain(Color::White)),
        sep_span(),
        ("containers "@, plain(Color::DarkGray)),
        (dec(crate::tree::n_running(a.containers@)) + "/"@ + dec(a.containers@.len()), plain(
            Color::White,
        )),
        sep_span(),
        ("volumes "@, plain(Color::DarkGray)),
        (dec(a.volumes@.len()), plain(Color::White)),
        sep_span(),
        ("view "@, plain(Color::DarkGray)),
        (crate::app::view_title(a.view), plain(Color::Yellow)),
    ]
}

fn running_total(cs: &Vec<Container>) -> (r: usize)
    ensures
        r == crate::tree::n_running(cs@),
{
    let mut n: usize = 0;
    let mut i: usize = 0;
    while i < cs.len()
        invariant
            i <= cs@.len(),
            n == crate::tree::n_running(cs@.take(i as int)),
            n <= i,
        decreases cs@.len() - i,
    {
        assert(cs@.take(i + 1).drop_last() =~= cs@.take(i as int));
        assert(cs@.take(i + 1).last() == cs@[i as int]);
        if cs[i].is_running() {
            n += 1;
        }
        i += 1;
    }
    assert(cs@.take(cs@.len() as int) =~= cs@);
    n
}

fn sep() -> (r: String)
    ensures
        (r@, plain(Color::DarkGray)) == sep_span(),
{
    owned(" │ ")
}

/// The header after the program's badge.
pub fn header_line(app: &App) -> (r: Line)
    requires
        app.current_ctx < app.contexts@.len(),
    ensures
        line_view(r@) == header_v(*app),
{
    let mut l: Line = Vec::new();
    push_span(&mut l, owned(" "), Style { fg: Color::Default, bold: false });
    push_span(&mut l, owned("ctx:"), Style { fg: Color::DarkGray, bold: false });
    push_span(
        &mut l,
        app.contexts[app.current_ctx].name.clone(),
        Style { fg: Color::Cyan, bold: true },
    );
    let (t, c) = match &app.conn {
        ConnState::Connected => (" ● connected ", Color::LightGreen),
        ConnState::Mock => (" ● mock ", Color::Magenta),
        ConnState::Connecting => (" ◌ connecting ", Color::LightYellow),
        ConnState::Error(_) => (" ✖ disconnected ", Color::LightRed),
    };
    push_span(&mut l, owned(t), Style { fg: c, bold: false });
    push_span(&mut l, sep(), Style { fg: Color::DarkGray, bold: false });
    push_span(&mut l, owned("projects "), Style { fg: Color::DarkGray, bold: false });
    let projects = crate::tree::project_names(&app.containers);
    proof {
        assert(crate::util::strs(projects@).len() == projects@.len());
    }
    push_span(&mut l, u64_text(projects.len() as u64), Style { fg: Color::White, bold: false });
    push_span(&mut l, sep(), Style { fg: Color::DarkGray, bold: false });
    push_span(&mut l, owned("containers "), Style { fg: Color::DarkGray, bold: false });
    let mut counts = u64_text(running_total(&app.containers) as u64);
    crate::text::push_str(&mut counts, "/");
    crate::text::push_str(&mut counts, u64_text(app.containers.len() as u64).as_str());
    push_span(&mut l, counts, Style { fg: Color::White, bold: false });
    push_span(&mut l, sep(), Style { fg: Color::DarkGray, bold: false });
    push_span(&mut l, owned("volumes "), Style { fg: Color::DarkGray, bold: false });
    push_span(&mut l, u64_text(app.volumes.len() as u64), Style { fg: Color::White, bold: false });
    push_span(&mut l, sep(), Style { fg: Color::DarkGray, bold: false });
    push_span(&mut l, owned("view "), Style { fg: Color::DarkGray, bold: false });
    push_span(&mut l, owned(app.view.title()), Style { fg: Color::Yellow, bold: false });
    assert(line_view(l@) =~= header_v(*app));
    l
}

// ---------------------------------------------------------------- key hints

/// The key hints of a view, as (keys, what they do).
pub open spec fn hints_v(v: Pane) -> Seq<(Seq<char>, Seq<char>)> {
    match v {
        Pane::Tree => seq![
            ("j/k"@, "nav"@),
            ("enter"@, "open"@),
            ("tab"@, "pane"@),
            ("L"@, "logs"@),
            ("t"@, "sh"@),
            ("E"@, "edit"@),
            ("S/K/R/D"@, "ctl"@),
            ("/"@, "filter"@),
            ("o"@, "ops"@),
            ("?"@, "help"@),
            ("q"@, "quit"@),
        ],
        Pane::Stats => seq![
            ("j/k"@, "select"@),
            ("L"@, "logs"@),
            ("/"@, "filter"@),
            ("1"@, "tree"@),
            ("c"@, "context"@),
            ("q"@, "quit"@),
        ],
        Pane::Events => seq![
            ("j/k"@, "scroll"@),
            ("f"@, "live"@),
            ("/"@, "filter"@),
            ("1"@, "tree"@),
            ("c"@, "context"@),
            ("q"@, "quit"@),
        ],
        Pane::Logs => seq![
            ("j/k"@, "scroll"@),
            ("PgUp/Dn"@, "page"@),
            ("f"@, "follow"@),
            ("s"@, "switch"@),
            ("/"@, "filter"@),
            ("esc"@, "back"@),
            ("q"@, "quit"@),
        ],
        Pane::Files => seq![
            ("j/k"@, "select"@),
            ("enter"@, "open"@),
            ("h"@, "up"@),
            ("r"@, "reload"@),
            ("/"@, "filter"@),
            ("esc"@, "back"@),
            ("q"@, "quit"@),
        ],
    }
}

/// The spans of a list of hints: each `[keys]` in bold, then ` what`,
/// two spaces between hints.
pub open spec fn hint_spans(hs: Seq<(Seq<char>, Seq<char>)>) -> Seq<SpanV>
    decreases hs.len(),
{
    if hs.len() == 0 {
        Seq::empty()
    } else {
        let rest = hint_spans(hs.drop_last());
        let h = hs.last();
        let pair = seq![
            ("["@ + h.0 + "]"@, bold(Color::Cyan)),
            (" "@ + h.1, plain(Color::DarkGray)),
        ];
        if hs.len() == 1 {
            pair
        } else {
            rest.push(("  "@, plain(Color::Default))) + pair
        }
    }
}

fn hints(v: Pane) -> (r: Vec<(&'static str, &'static str)>)
    ensures
        r@.map_values(|h: (&'static str, &'static str)| (h.0@, h.1@)) == hints_v(v),
{
    let r: Vec<(&'static str, &'static str)> = match v {
        Pane::Tree => vec![
            ("j/k", "nav"),
            ("enter", "open"),
            ("tab", "pane"),
            ("L", "logs"),
            ("t", "sh"),
            ("E", "edit"),
            ("S/K/R/D", "ctl"),
            ("/", "filter"),
            ("o", "ops"),
            ("?", "help"),
            ("q", "quit"),
        ],
        Pane::Stats => vec![
            ("j/k", "select"),
            ("L", "logs"),
            ("/", "filter"),
            ("1", "tree"),
            ("c", "context"),
            ("q", "quit"),
        ],
        Pane::Events => vec![
            ("j/k", "scroll"),
            ("f", "live"),
            ("/", "filter"),
            ("1", "tree"),
            ("c", "context"),
            ("q", "quit"),
        ],
        Pane::Logs => vec![
            ("j/k", "scroll"),
            ("PgUp/Dn", "page"),
            ("f", "follow"),
            ("s", "switch"),
            ("/", "filter"),
            ("esc", "back"),
            ("q", "quit"),
        ],
        Pane::Files => vec![
            ("j/k", "select"),
            ("enter", "open"),
            ("h", "up"),
            ("r", "reload"),
            ("/", "filter"),
            ("esc", "back"),
            ("q", "quit"),
        ],
    };
    assert(r@.map_values(|h: (&'static str, &'static str)| (h.0@, h.1@)) =~= hints_v(v));
    r
}

/// The key hints of the view.
pub fn footer_line(v: Pane) -> (r: Line)
    ensures
        line_view(r@) == hint_spans(hints_v(v)),
{
    let hs = hints(v);
    let ghost hv = hs@.map_values(|h: (&'static str, &'static str)| (h.0@, h.1@));
    let mut l: Line = Vec::new();
    let mut i: usize = 0;
    assert(hv.take(0) =~= Seq::<(Seq<char>, Seq<char>)>::empty());
    while i < hs.len()
        invariant
            i <= hs@.len(),
            hv == hs@.map_values(|h: (&'static str, &'static str)| (h.0@, h.1@)),
            line_view(l@) == hint_spans(hv.take(i as int)),
        decreases hs@.len() - i,
    {
        assert(hv.take(i + 1).drop_last() =~= hv.take(i as int));
        assert(hv.take(i + 1).last() == hv[i as int]);
        if i > 0 {
            push_span(&mut l, owned("  "), Style { fg: Color::Default, bold: false });
        }
        let mut k = owned("[");
        crate::text::push_str(&mut k, hs[i].0);
        crate::text::push_str(&mut k, "]");
        push_span(&mut l, k, Style { fg: Color::Cyan, bold: true });
        let mut d = owned(" ");
        crate::text::push_str(&mut d, hs[i].1);
        push_span(&mut l, d, Style { fg: Color::DarkGray, bold: false });
        proof {
            let pair = seq![
                ("["@ + hv[i as int].0 + "]"@, bold(Color::Cyan)),
                (" "@ + hv[i as int].1, plain(Color::DarkGray)),
            ];
            if i == 0 {
                assert(line_view(l@) =~= pair);
            } else {
                assert(line_view(l@) =~= hint_spans(hv.take(i as int)).push(
                    ("  "@, plain(Color::Default)),
                ) + pair);
            }
        }
        i += 1;
    }
    assert(hv.take(hs@.len() as int) =~= hv);
    l
}

// ---------------------------------------------------------------- prompt

/// An input's text with a bar at the cursor.
pub open spec fn cursor_text(t: TextInput) -> Seq<char> {
    let k = char_index(t.value@, t.cursor as int) as int;
    t.value@.take(k) + "▏"@ + t.value@.skip(k)
}

/// An input's text with a bar at the cursor.
pub fn with_cursor(t: &TextInput) -> (r: String)
    ensures
        r@ == cursor_text(*t),
{
    let v = crate::text::chars_of(t.value.as_str());
    let k = crate::text::char_index_of(&v, t.cursor);
    proof {
        crate::text::lemma_char_index(v@, t.cursor as int);
    }
    let a = crate::text::slice_chars(&v, 0, k);
    let b = crate::text::slice_chars(&v, k, v.len());
    let mut s = crate::text::string_of(&a);
    crate::text::push_str(&mut s, "▏");
    crate::text::push_chars(&mut s, &b);
    assert(a@ =~= v@.take(k as int));
    assert(b@ =~= v@.skip(k as int));
    s
}

/// The search prompt: `/`, the input with its cursor, then the reason the
/// pattern does not compile, or how to finish.
pub open spec fn prompt_v(input: TextInput, error: Option<String>) -> Seq<SpanV> {
    seq![
        ("/"@, bold(Color::Cyan)),
        (cursor_text(input), plain(Color::White)),
        ("  "@, plain(Color::Default)),
        match error {
            Some(e) => ("invalid regex: "@ + e@, plain(Color::LightRed)),
            None => ("enter apply · esc cancel · ctrl-u clear"@, plain(Color::DarkGray)),
        },
    ]
}

pub fn search_prompt_line(app: &App) -> (r: Line)
    ensures
        line_view(r@) == prompt_v(app.search.input, app.search.error),
{
    let mut l: Line = Vec::new();
    push_span(&mut l, owned("/"), Style { fg: Color::Cyan, bold: true });
    push_span(&mut l, with_cursor(&app.search.input), Style { fg: Color::White, bold: false });
    push_span(&mut l, owned("  "), Style { fg: Color::Default, bold: false });
    match &app.search.error {
        Some(e) => {
            push_span(
                &mut l,
                crate::text::concat2("invalid regex: ", e.as_str()),
                Style { fg: Color::LightRed, bold: false },
            );
        },
        None => {
            push_span(
                &mut l,
                owned("enter apply · esc cancel · ctrl-u clear"),
                Style { fg: Color::DarkGray, bold: false },
            );
        },
    }
    assert(line_view(l@) =~= prompt_v(app.search.input, app.search.error));
    l
}

// ---------------------------------------------------------------- edit form

/// `s` padded with spaces to `w` characters.
pub open spec fn padded(s: Seq<char>, w: nat) -> Seq<char> {
    if s.len() >= w {
        s
    } else {
        s + Seq::new((w - s.len()) as nat, |i: int| ' ')
    }
}

/// The marker before a selected row, or blanks.
pub open spec fn marker(selected: bool) -> Seq<char> {
    if selected {
        "▶ "@
    } else {
        "  "@
    }
}

/// A field of the edit form: its marker, its label in a ten-wide column,
/// then its value (a text cut to `width` columns, with the cursor when
/// selected; on/off; the GPU choice).
pub open spec fn field_line_v(f: FormField, selected: bool, width: int) -> Seq<SpanV> {
    seq![
        (marker(selected), plain(Color::Cyan)),
        (padded(f.label@, 10), if selected {
            bold(Color::Cyan)
        } else {
            plain(Color::Blue)
        }),
        match f.value {
            FormValue::Text(t) => if selected {
                (crate::util::truncated(cursor_text(t), width), plain(Color::White))
            } else {
                (crate::util::truncated(t.value@, width), plain(Color::Gray))
            },
            FormValue::Toggle(b) => if b {
                ("on"@, plain(Color::LightGreen))
            } else {
                ("off"@, plain(Color::DarkGray))
            },
            FormValue::Choice(c) => (crate::actions::gpu_option(c as int), plain(Color::LightYellow)),
        },
    ]
}

/// The heading of the edit form: the old name, and the new one when it
/// changes.
pub open spec fn edit_heading(form: EditForm) -> Seq<char> {
    let name = crate::actions::text_of(form.fields@, "Name"@);
    if name == form.old_name@ {
        form.old_name@
    } else {
        form.old_name@ + "  →  "@ + name
    }
}

/// The lines of the edit form: heading, how to use it, a line per field,
/// a blank line and the APPLY row, values cut to `width` columns.
pub open spec fn edit_lines_v(form: EditForm, width: int) -> Seq<Seq<SpanV>> {
    let apply = form.sel == form.fields@.len();
    seq![
        seq![(edit_heading(form), bold(Color::White))],
        seq![("type to edit · ↑/↓/tab switch · space toggle · enter next"@, plain(Color::DarkGray))],
    ] + Seq::new(
        form.fields@.len(),
        |i: int| field_line_v(form.fields@[i], i == form.sel, width),
    ) + seq![
        Seq::<SpanV>::empty(),
        seq![(marker(apply), plain(Color::Cyan)), ("APPLY (recreate)"@, if apply {
            bold(Color::LightGreen)
        } else {
            plain(Color::Green)
        })],
    ]
}

fn padded_text(s: &str, w: usize) -> (r: String)
    ensures
        r@ == padded(s@, w as nat),
{
    let mut r = owned(s);
    let n = crate::text::chars_of(s).len();
    if n >= w {
        return r;
    }
    let mut k: usize = n;
    while k < w
        invariant
            n <= k <= w,
            n == s@.len(),
            r@ == s@ + Seq::new((k - n) as nat, |i: int| ' '),
        decreases w - k,
    {
        crate::text::push_char(&mut r, ' ');
        k += 1;
        assert(r@ =~= s@ + Seq::new((k - n) as nat, |i: int| ' '));
    }
    r
}

fn marker_text(selected: bool) -> (r: String)
    ensures
        r@ == marker(selected),
{
    if selected {
        owned("▶ ")
    } else {
        owned("  ")
    }
}

fn field_line(f: &FormField, selected: bool, width: usize) -> (r: Line)
    requires
        f.value matches FormValue::Choice(c) ==> c < 5,
    ensures
        line_view(r@) == field_line_v(*f, selected, width as int),
{
    let mut l: Line = Vec::new();
    push_span(&mut l, marker_text(selected), Style { fg: Color::Cyan, bold: false });
    let label_style = if selected {
        Style { fg: Color::Cyan, bold: true }
    } else {
        Style { fg: Color::Blue, bold: false }
    };
    push_span(&mut l, padded_text(f.label, 10), label_style);
    match &f.value {
        FormValue::Text(t) => {
            if selected {
                let shown = with_cursor(t);
                push_span(
                    &mut l,
                    crate::util::truncate(shown.as_str(), width),
                    Style { fg: Color::White, bold: false },
                );
            } else {
                push_span(
                    &mut l,
                    crate::util::truncate(t.value.as_str(), width),
                    Style { fg: Color::Gray, bold: false },
                );
            }
        },
        FormValue::Toggle(b) => {
            if *b {
                push_span(&mut l, owned("on"), Style { fg: Color::LightGreen, bold: false });
            } else {
                push_span(&mut l, owned("off"), Style { fg: Color::DarkGray, bold: false });
            }
        },
        FormValue::Choice(c) => {
            push_span(
                &mut l,
                owned(crate::actions::gpu_option_text(*c)),
                Style { fg: Color::LightYellow, bold: false },
            );
        },
    }
    assert(line_view(l@) =~= field_line_v(*f, selected, width as int));
    l
}

fn push_line(ls: &mut Vec<Line>, l: Line)
    ensures
        lines_view(final(ls)@) == lines_view(old(ls)@).push(line_view(l@)),
{
    let ghost before = ls@;
    ls.push(l);
    assert(lines_view(ls@) =~= lines_view(before).push(line_view(l@)));
}

/// The lines of the recreate form, values cut to `width` columns.
pub fn edit_lines(form: &EditForm, width: usize) -> (r: Vec<Line>)
    requires
        form.wf(),
    ensures
        lines_view(r@) == edit_lines_v(*form, width as int),
{
    let mut ls: Vec<Line> = Vec::new();
    let name = form.text("Name");
    let heading = if crate::text::eq_str(name, form.old_name.as_str()) {
        form.old_name.clone()
    } else {
        let mut h = crate::text::concat2(form.old_name.as_str(), "  →  ");
        crate::text::push_str(&mut h, name);
        h
    };
    proof {
        reveal_strlit("Name");
    }
    assert(line_view(Seq::<Span>::empty()) =~= Seq::<SpanV>::empty());
    assert(lines_view(Seq::<Line>::empty()) =~= Seq::<Seq<SpanV>>::empty());
    let ghost hv = heading@;
    let mut l0: Line = Vec::new();
    push_span(&mut l0, heading, Style { fg: Color::White, bold: true });
    assert(line_view(l0@) =~= seq![(hv, bold(Color::White))]);
    push_line(&mut ls, l0);
    let mut l1: Line = Vec::new();
    push_span(
        &mut l1,
        owned("type to edit · ↑/↓/tab switch · space toggle · enter next"),
        Style { fg: Color::DarkGray, bold: false },
    );
    assert(line_view(l1@) =~= seq![("type to edit · ↑/↓/tab switch · space toggle · enter next"@, plain(Color::DarkGray))]);
    push_line(&mut ls, l1);
    let ghost head = lines_view(ls@);
    assert(hv == edit_heading(*form));
    assert(head =~= seq![
        seq![(edit_heading(*form), bold(Color::White))],
        seq![("type to edit · ↑/↓/tab switch · space toggle · enter next"@, plain(Color::DarkGray))],
    ]);
    let mut i: usize = 0;
    while i < form.fields.len()
        invariant
            i <= form.fields@.len(),
            form.wf(),
            head.len() == 2,
            lines_view(ls@) == head + Seq::new(
                i as nat,
                |j: int| field_line_v(form.fields@[j], j == form.sel, width as int),
            ),
        decreases form.fields@.len() - i,
    {
        assert(match form.fields@[i as int].value {
            FormValue::Choice(c) => c < 5,
            _ => true,
        });
        let l = field_line(&form.fields[i], i == form.sel, width);
        push_line(&mut ls, l);
        i += 1;
        assert(lines_view(ls@) =~= head + Seq::new(
            i as nat,
            |j: int| field_line_v(form.fields@[j], j == form.sel, width as int),
        ));
    }
    let ghost mid = lines_view(ls@);
    push_line(&mut ls, Vec::new());
    assert(line_view(Seq::<Span>::empty()) =~= Seq::<SpanV>::empty());
    let apply = form.sel == form.fields.len();
    let mut l2: Line = Vec::new();
    push_span(&mut l2, marker_text(apply), Style { fg: Color::Cyan, bold: false });
    push_span(
        &mut l2,
        owned("APPLY (recreate)"),
        if apply {
            Style { fg: Color::LightGreen, bold: true }
        } else {
            Style { fg: Color::Green, bold: false }
        },
    );
    let ghost last = line_view(l2@);
    push_line(&mut ls, l2);
    assert(last =~= seq![(marker(apply), plain(Color::Cyan)), ("APPLY (recreate)"@, if apply {
        bold(Color::LightGreen)
    } else {
        plain(Color::Green)
    })]);
    assert(lines_view(ls@) =~= mid + seq![Seq::<SpanV>::empty(), last]);
    assert(lines_view(ls@) =~= edit_lines_v(*form, width as int));
    ls
}

// ---------------------------------------------------------------- messages

/// A toast: a check mark in green for success, a cross in red for a
/// failure, then its text in the same colour.
pub open spec fn toast_v(t: Toast) -> Seq<SpanV> {
    let c = if t.ok {
        Color::LightGreen
    } else {
        Color::LightRed
    };
    seq![(if t.ok {
        " ✓ "@
    } else {
        " ✖ "@
    }, bold(c)), (t.text@, plain(c))]
}

pub fn toast_line(t: &Toast) -> (r: Line)
    ensures
        line_view(r@) == toast_v(*t),
{
    let c = if t.ok {
        Color::LightGreen
    } else {
        Color::LightRed
    };
    let mut l: Line = Vec::new();
    push_span(
        &mut l,
        owned(
            if t.ok {
                " ✓ "
            } else {
                " ✖ "
            },
        ),
        Style { fg: c, bold: true },
    );
    push_span(&mut l, t.text.clone(), Style { fg: c, bold: false });
    assert(line_view(l@) =~= toast_v(*t));
    l
}

/// The banner of a lost connection, its reason cut to the screen width
/// (`width` columns, six of them taken by the frame).
pub open spec fn banner_v(err: Seq<char>, width: int) -> Seq<SpanV> {
    seq![
        (" ✖ "@, plain(Color::LightRed)),
        (crate::util::truncated(err, if width >= 6 {
            width - 6
        } else {
            0
        }), plain(Color::LightRed)),
        ("  press [c] to switch context"@, plain(Color::DarkGray)),
    ]
}

pub fn banner_line(err: &str, width: u16) -> (r: Line)
    ensures
        line_view(r@) == banner_v(err@, width as int),
{
    let w: usize = if width >= 6 {
        (width - 6) as usize
    } else {
        0
    };
    let mut l: Line = Vec::new();
    push_span(&mut l, owned(" ✖ "), Style { fg: Color::LightRed, bold: false });
    push_span(&mut l, crate::util::truncate(err, w), Style { fg: Color::LightRed, bold: false });
    push_span(
        &mut l,
        owned("  press [c] to switch context"),
        Style { fg: Color::DarkGray, bold: false },
    );
    assert(line_view(l@) =~= banner_v(err@, width as int));
    l
}

// ---------------------------------------------------------------- lists

/// The part of a list of `len` lines that a pane of `height` rows shows
/// when scrolled `off` lines up from the bottom: (first line, count).
pub open spec fn window(len: int, height: int, off: int) -> (int, int) {
    let visible = if height < len {
        height
    } else {
        len
    };
    let end = if len > off {
        len - off
    } else {
        0
    };
    (if end > visible {
        end - visible
    } else {
        0
    }, visible)
}

pub fn tail_window(len: usize, height: usize, off: usize) -> (r: (usize, usize))
    ensures
        (r.0 as int, r.1 as int) == window(len as int, height as int, off as int),
{
    let visible = if height < len {
        height
    } else {
        len
    };
    let end = if len > off {
        len - off
    } else {
        0
    };
    (if end > visible {
        end - visible
    } else {
        0
    }, visible)
}

proof fn lemma_byte_len_at_most(s: Seq<char>)
    ensures
        byte_len(s) <= 4 * s.len(),
    decreases s.len(),
{
    if s.len() > 0 {
        lemma_byte_len_at_most(s.drop_first());
    }
}

/// A log line carries a timestamp: it is longer than twenty bytes and
/// its fifth byte is a dash (as in `2026-…`).
pub open spec fn stamped(s: Seq<char>) -> bool {
    &&& byte_len(s) > 20
    &&& on_boundary(s, 4)
    &&& char_index(s, 4) < s.len()
    &&& s[char_index(s, 4) as int] == '-'
}

/// A log line cut into its timestamp and message at the first space; a
/// line without a timestamp is all message.
pub open spec fn log_split(s: Seq<char>) -> (Seq<char>, Seq<char>) {
    match first_index(s, ' ') {
        Some(i) => if stamped(s) {
            (s.take(i as int), s.skip(i as int + 1))
        } else {
            (Seq::empty(), s)
        },
        None => (Seq::empty(), s),
    }
}

pub fn split_log_line(line: &str) -> (r: (String, String))
    ensures
        (r.0@, r.1@) == log_split(line@),
{
    let v = crate::text::chars_of(line);
    let long = if v.len() > 20 {
        proof {
            crate::text::lemma_byte_len_nonneg(v@);
        }
        true
    } else {
        proof {
            lemma_byte_len_at_most(v@);
            assert(v@.take(v@.len() as int) =~= v@);
        }
        crate::text::prefix_byte_len(&v, v.len()) > 20
    };
    let k = crate::text::char_index_of(&v, 4);
    proof {
        crate::text::lemma_char_index(v@, 4);
        crate::text::lemma_byte_len_nonneg(v@.take(k as int));
    }
    let head = crate::text::slice_chars(&v, 0, k);
    proof {
        lemma_byte_len_at_most(head@);
        assert(head@ =~= v@.take(k as int));
        assert(head@.take(k as int) =~= head@);
    }
    let at = crate::text::prefix_byte_len(&head, k);
    let dash = at == 4 && k < v.len() && v[k] == '-';
    match crate::text::first_pos(&v, ' ') {
        Some(i) => {
            proof {
                crate::text::lemma_first_index(v@, ' ');
            }
            if long && dash {
                let a = crate::text::slice_chars(&v, 0, i);
                let b = crate::text::slice_chars(&v, i + 1, v.len());
                assert(a@ =~= v@.take(i as int));
                assert(b@ =~= v@.skip(i + 1));
                (crate::text::string_of(&a), crate::text::string_of(&b))
            } else {
                (String::new(), owned(line))
            }
        },
        None => (String::new(), owned(line)),
    }
}

/// What an empty tree says: that the filter matches nothing, or how the
/// connection stands.
pub open spec fn empty_note(filtering: bool, c: ConnState) -> Seq<char> {
    if filtering {
        "no matches (esc clears the filter)"@
    } else {
        match c {
            ConnState::Connecting => "connecting to docker…"@,
            ConnState::Mock => "loading mock data…"@,
            _ => "no containers"@,
        }
    }
}

pub fn empty_tree_note(app: &App) -> (r: &'static str)
    ensures
        r@ == empty_note(app.pattern() is Some, app.conn),
{
    if app.search_active() {
        "no matches (esc clears the filter)"
    } else {
        match &app.conn {
            ConnState::Connecting => "connecting to docker…",
            ConnState::Mock => "loading mock data…",
            _ => "no containers",
        }
    }
}

} // verus!
