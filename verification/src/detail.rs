//! The detail pane: what it shows for the selected container, service,
//! project or volume, as styled lines.
use vstd::prelude::*;

use crate::model::{
    label_get, prefix_in_bytes, Container, ContainerDetails, Volume, LABEL_CONFIG_FILES,
    LABEL_WORKING_DIR,
};
use crate::text::{dec, dec_int, join, owned, push_str};
use crate::theme::{
    bold, line_view, lines_view, plain, state_glyph, state_tone, Color, Line, Span, SpanV, Style,
};
use crate::tree::{n_running, of_project, services_of, sorted_cs, RowV};
use crate::util::{iec_bytes, strs, truncated};

verus! {

pub type LineV = Seq<SpanV>;

// ---------------------------------------------------------------- pieces

/// `n` copies of `c`.
pub open spec fn repeat(c: char, n: nat) -> Seq<char> {
    Seq::new(n, |i: int| c)
}

/// `s` padded with spaces to `n` characters.
pub open spec fn padded(s: Seq<char>, n: nat) -> Seq<char> {
    if s.len() < n {
        s + repeat(' ', (n - s.len()) as nat)
    } else {
        s
    }
}

/// A section heading.
pub open spec fn section_v(title: Seq<char>) -> LineV {
    seq![("── "@ + title + " "@, bold(Color::Cyan)), (repeat('─', 30), plain(Color::DarkGray))]
}

/// A key and its value.
pub open spec fn kv_v(k: Seq<char>, v: Seq<char>) -> LineV {
    kv_styled_v(k, v, Color::Reset)
}

/// A key and its value in colour `c`.
pub open spec fn kv_styled_v(k: Seq<char>, v: Seq<char>, c: Color) -> LineV {
    seq![(padded(k, 10), bold(Color::Blue)), (v, plain(c))]
}

/// Dimmed text.
pub open spec fn dim_v(t: Seq<char>) -> LineV {
    seq![(t, plain(Color::DarkGray))]
}

/// A key with a value when there is one.
pub open spec fn opt_kv(k: Seq<char>, o: Option<Seq<char>>) -> Seq<LineV> {
    match o {
        Some(v) => seq![kv_v(k, v)],
        None => Seq::empty(),
    }
}

/// Line `i` of a list under key `k`.
pub open spec fn multi_line(k: Seq<char>, item: Seq<char>, i: int) -> LineV {
    seq![
        (
            if i == 0 {
                padded(k, 10)
            } else {
                repeat(' ', 10)
            },
            bold(Color::Blue),
        ),
        (item, plain(Color::Reset)),
    ]
}

/// A list under key `k`, one item per line ("—" when empty).
pub open spec fn multi_v(k: Seq<char>, items: Seq<Seq<char>>) -> Seq<LineV> {
    if items.len() == 0 {
        seq![kv_v(k, "—"@)]
    } else {
        Seq::new(items.len(), |i: int| multi_line(k, items[i], i))
    }
}

fn span(text: String, style: Style) -> (r: Span)
    ensures
        r@ == (text@, style),
{
    Span { text, style }
}

fn repeat_text(c: char, n: usize) -> (r: String)
    ensures
        r@ == repeat(c, n as nat),
{
    let mut s = String::new();
    let mut i: usize = 0;
    while i < n
        invariant
            i <= n,
            s@ == repeat(c, i as nat),
        decreases n - i,
    {
        crate::text::push_char(&mut s, c);
        i += 1;
        assert(s@ =~= repeat(c, i as nat));
    }
    s
}

fn pad(s: &str, n: usize) -> (r: String)
    ensures
        r@ == padded(s@, n as nat),
{
    let v = crate::text::chars_of(s);
    if v.len() < n {
        let mut t = owned(s);
        let sp = repeat_text(' ', n - v.len());
        push_str(&mut t, sp.as_str());
        t
    } else {
        owned(s)
    }
}

fn push_line(lines: &mut Vec<Line>, l: Line)
    ensures
        lines_view(final(lines)@) == lines_view(old(lines)@).push(line_view(l@)),
{
    let ghost before = lines@;
    lines.push(l);
    assert(lines_view(lines@) =~= lines_view(before).push(line_view(l@)));
}

fn line2(a: Span, b: Span) -> (r: Line)
    ensures
        line_view(r@) == seq![a@, b@],
{
    let mut l: Line = Vec::new();
    l.push(a);
    l.push(b);
    assert(line_view(l@) =~= seq![a@, b@]);
    l
}

fn section_line(title: &str) -> (r: Line)
    ensures
        line_view(r@) == section_v(title@),
{
    let t = crate::text::concat3("── ", title, " ");
    line2(
        span(t, Style { fg: Color::Cyan, bold: true }),
        span(repeat_text('─', 30), Style { fg: Color::DarkGray, bold: false }),
    )
}

fn kv_styled_line(k: &str, v: String, c: Color) -> (r: Line)
    ensures
        line_view(r@) == kv_styled_v(k@, v@, c),
{
    line2(span(pad(k, 10), Style { fg: Color::Blue, bold: true }), span(v, Style { fg: c, bold: false }))
}

fn kv_line(k: &str, v: String) -> (r: Line)
    ensures
        line_view(r@) == kv_v(k@, v@),
{
    kv_styled_line(k, v, Color::Reset)
}

fn dim_line(t: &str) -> (r: Line)
    ensures
        line_view(r@) == dim_v(t@),
{
    let mut l: Line = Vec::new();
    l.push(span(owned(t), Style { fg: Color::DarkGray, bold: false }));
    assert(line_view(l@) =~= dim_v(t@));
    l
}

fn push_opt_kv(lines: &mut Vec<Line>, k: &str, o: &Option<String>)
    ensures
        lines_view(final(lines)@) == lines_view(old(lines)@) + opt_kv(k@, crate::ops::opt_view(*o)),
{
    let ghost before = lines_view(lines@);
    match o {
        Some(v) => push_line(lines, kv_line(k, v.clone())),
        None => {},
    }
    assert(lines_view(lines@) =~= before + opt_kv(k@, crate::ops::opt_view(*o)));
}

fn push_multi(lines: &mut Vec<Line>, k: &str, items: &Vec<String>)
    ensures
        lines_view(final(lines)@) == lines_view(old(lines)@) + multi_v(k@, strs(items@)),
{
    let ghost before = lines_view(lines@);
    if items.len() == 0 {
        push_line(lines, kv_line(k, owned("—")));
        assert(lines_view(lines@) =~= before + multi_v(k@, strs(items@)));
        return;
    }
    let ghost want = multi_v(k@, strs(items@));
    let mut i: usize = 0;
    while i < items.len()
        invariant
            i <= items@.len(),
            items@.len() > 0,
            want == multi_v(k@, strs(items@)),
            lines_view(lines@) == before + want.take(i as int),
        decreases items@.len() - i,
    {
        let prefix = if i == 0 {
            pad(k, 10)
        } else {
            repeat_text(' ', 10)
        };
        let l = line2(
            span(prefix, Style { fg: Color::Blue, bold: true }),
            span(items[i].clone(), Style { fg: Color::Reset, bold: false }),
        );
        push_line(lines, l);
        assert(want[i as int] == multi_line(k@, items@[i as int]@, i as int));
        assert(lines_view(lines@) =~= before + want.take(i + 1));
        i += 1;
    }
    assert(want.take(items@.len() as int) =~= want);
}

// ---------------------------------------------------------------- containers

/// The first container with id `id`.
pub open spec fn find_container(cs: Seq<Container>, id: Seq<char>) -> Option<Container>
    decreases cs.len(),
{
    if cs.len() == 0 {
        None
    } else if cs[0].id@ == id {
        Some(cs[0])
    } else {
        find_container(cs.drop_first(), id)
    }
}

/// The inspect details kept for container `id`.
pub open spec fn details_get(ds: Seq<(String, ContainerDetails)>, id: Seq<char>) -> Option<
    ContainerDetails,
>
    decreases ds.len(),
{
    if ds.len() == 0 {
        None
    } else if ds[0].0@ == id {
        Some(ds[0].1)
    } else {
        details_get(ds.drop_first(), id)
    }
}

/// The first line of a container's detail: state glyph, name, short id.
pub open spec fn container_head(c: Container) -> LineV {
    seq![
        (state_glyph(c.state@), plain(state_tone(c.state@))),
        (" "@, plain(Color::Default)),
        (c.name@, bold(Color::White)),
        ("  "@, plain(Color::Default)),
        (prefix_in_bytes(c.id@, 12), plain(Color::DarkGray)),
    ]
}

/// The container's own lines, before the inspect details.
pub open spec fn container_top(c: Container, created: Seq<char>) -> Seq<LineV> {
    seq![
        container_head(c),
        kv_v("Image"@, c.image@),
        kv_styled_v("State"@, c.state@ + " · "@ + c.status@, state_tone(c.state@)),
        kv_v("Created"@, created),
        kv_v("Command"@, c.command@),
    ] + (match (c.project(), c.service()) {
        (Some(p), Some(s)) => seq![kv_v("Compose"@, "project:"@ + p + " service:"@ + s)],
        _ => Seq::empty(),
    }) + opt_kv("Dir"@, label_get(c.labels@, LABEL_WORKING_DIR@))
}

/// The security and capability badges of a container.
pub open spec fn badges(d: ContainerDetails) -> Seq<SpanV> {
    (if crate::model::root_user(crate::ops::opt_view(d.user)) {
        seq![("root"@, bold(Color::LightRed))]
    } else {
        Seq::empty()
    }) + (if d.privileged {
        seq![("privileged"@, bold(Color::LightRed))]
    } else {
        Seq::empty()
    }) + (if d.gpus@.len() > 0 {
        seq![("gpus:"@ + join(strs(d.gpus@), ","@), bold(Color::LightYellow))]
    } else {
        Seq::empty()
    }) + (crate::model::ns_badge(d.network_mode, "net"@) + crate::model::ns_badge(
        d.pid_mode,
        "pid"@,
    ) + crate::model::ns_badge(d.ipc_mode, "ipc"@)).map_values(|t: Seq<char>| (t, plain(Color::Magenta))) + (if d.auto_remove {
        seq![("--rm"@, plain(Color::DarkGray))]
    } else {
        Seq::empty()
    })
}

/// Badges separated by dots.
pub open spec fn interleaved(bs: Seq<SpanV>) -> Seq<SpanV>
    decreases bs.len(),
{
    if bs.len() <= 1 {
        bs
    } else {
        interleaved(bs.drop_last()) + seq![(" · "@, plain(Color::DarkGray)), bs.last()]
    }
}

/// The badge line, when there are badges.
pub open spec fn badge_lines(d: ContainerDetails) -> Seq<LineV> {
    if badges(d).len() == 0 {
        Seq::empty()
    } else {
        seq![seq![("  "@, plain(Color::Default))] + interleaved(badges(d))]
    }
}

/// The colour of a health status.
pub open spec fn health_tone(h: Seq<char>) -> Color {
    if h == "healthy"@ {
        Color::LightGreen
    } else if h == "unhealthy"@ {
        Color::LightRed
    } else {
        Color::LightYellow
    }
}

/// An env entry as `  KEY` and `=value`.
pub open spec fn env_line(e: Seq<char>) -> LineV {
    let kvp = crate::actions::env_pair(e);
    seq![("  "@ + kvp.0, plain(Color::Magenta)), ("="@ + kvp.1, plain(Color::Gray))]
}

/// Badges, address, ports, mounts, networks, user and restart policy.
pub open spec fn inspect_head_v(d: ContainerDetails) -> Seq<LineV> {
    badge_lines(d) + opt_kv("IP"@, crate::ops::opt_view(d.ip)) + multi_v("Ports"@, strs(d.ports@))
        + multi_v("Mounts"@, strs(d.mounts@)) + multi_v("Networks"@, strs(d.networks@)) + opt_kv(
        "User"@,
        crate::ops::opt_view(d.user),
    ) + opt_kv("Restart"@, crate::ops::opt_view(d.restart_policy))
}

/// Shm size, health, entrypoint, working directory, restarts, exit code.
pub open spec fn inspect_tail_v(d: ContainerDetails) -> Seq<LineV> {
    (match d.shm_size {
        Some(s) => seq![
            kv_v(
                "ShmSize"@,
                iec_bytes(
                    if s < 0 {
                        0nat
                    } else {
                        s as nat
                    },
                ),
            ),
        ],
        None => Seq::empty(),
    }) + (match d.health {
        Some(h) => seq![kv_styled_v("Health"@, h@, health_tone(h@))],
        None => Seq::empty(),
    }) + (if d.entrypoint@.len() > 0 {
        seq![kv_v("Entry"@, d.entrypoint@)]
    } else {
        Seq::empty()
    }) + opt_kv("WorkDir"@, crate::ops::opt_view(d.working_dir)) + (match d.restart_count {
        Some(n) => seq![kv_v("Restarts"@, dec_int(n as int))],
        None => Seq::empty(),
    }) + (match d.exit_code {
        Some(n) => seq![kv_v("Exit"@, dec_int(n as int))],
        None => Seq::empty(),
    })
}

/// The env section: a heading with the count, then one line per entry.
pub open spec fn env_v(d: ContainerDetails) -> Seq<LineV> {
    seq![section_v("ENV VARS ("@ + dec(d.env@.len()) + ")"@)] + strs(d.env@).map_values(
        |e: Seq<char>| env_line(e),
    ) + if d.env@.len() == 0 {
        seq![dim_v("  (none)"@)]
    } else {
        Seq::empty()
    }
}

/// The lines of the inspect details.
pub open spec fn inspect_v(d: ContainerDetails) -> Seq<LineV> {
    inspect_head_v(d) + inspect_tail_v(d) + env_v(d)
}

/// The detail of a container, with its inspect details when loaded.
pub open spec fn container_v(c: Container, d: Option<ContainerDetails>, created: Seq<char>) -> Seq<
    LineV,
> {
    container_top(c, created) + match d {
        None => seq![section_v("INSPECT"@), dim_v("loading details…"@)],
        Some(d) => inspect_v(d),
    }
}


fn container_head_line(c: &Container) -> (r: Line)
    ensures
        line_view(r@) == container_head(*c),
{
    let mut l: Line = Vec::new();
    l.push(span(owned(crate::theme::state_icon(c.state.as_str())), Style { fg: crate::theme::state_color(c.state.as_str()), bold: false }));
    l.push(span(owned(" "), Style { fg: Color::Default, bold: false }));
    l.push(span(c.name.clone(), Style { fg: Color::White, bold: true }));
    l.push(span(owned("  "), Style { fg: Color::Default, bold: false }));
    l.push(span(c.short_id(), Style { fg: Color::DarkGray, bold: false }));
    assert(line_view(l@) =~= container_head(*c));
    l
}

fn push_container_top(lines: &mut Vec<Line>, c: &Container, created: &str)
    ensures
        lines_view(final(lines)@) == lines_view(old(lines)@) + container_top(*c, created@),
{
    let ghost before = lines_view(lines@);
    push_line(lines, container_head_line(c));
    push_line(lines, kv_line("Image", c.image.clone()));
    let mut st = c.state.clone();
    push_str(&mut st, " · ");
    push_str(&mut st, c.status.as_str());
    push_line(lines, kv_styled_line("State", st, crate::theme::state_color(c.state.as_str())));
    push_line(lines, kv_line("Created", owned(created)));
    push_line(lines, kv_line("Command", c.command.clone()));
    let ghost mid = lines_view(lines@);
    match (c.compose_project(), c.compose_service()) {
        (Some(p), Some(s)) => {
            let mut t = crate::text::concat2("project:", p.as_str());
            push_str(&mut t, " service:");
            push_str(&mut t, s.as_str());
            push_line(lines, kv_line("Compose", t));
        },
        _ => {},
    }
    let ghost mid2 = lines_view(lines@);
    assert(mid2 =~= mid + (match (c.project(), c.service()) {
        (Some(p), Some(s)) => seq![kv_v("Compose"@, "project:"@ + p + " service:"@ + s)],
        _ => Seq::<LineV>::empty(),
    }));
    let wd = c.compose_workdir();
    push_opt_kv(lines, "Dir", &wd);
    assert(lines_view(lines@) =~= before + container_top(*c, created@));
}

fn push_span(l: &mut Line, s: Span)
    ensures
        line_view(final(l)@) == line_view(old(l)@).push(s@),
{
    let ghost before = l@;
    l.push(s);
    assert(line_view(l@) =~= line_view(before).push(s@));
}

fn badge_spans(d: &ContainerDetails) -> (r: Line)
    ensures
        line_view(r@) == badges(*d),
{
    let mut l: Line = Vec::new();
    let ghost b0 = line_view(l@);
    if d.runs_as_root() {
        push_span(&mut l, span(owned("root"), Style { fg: Color::LightRed, bold: true }));
    }
    if d.privileged {
        push_span(&mut l, span(owned("privileged"), Style { fg: Color::LightRed, bold: true }));
    }
    let ghost b2 = line_view(l@);
    if d.gpus.len() > 0 {
        let g = crate::text::join_strings(&d.gpus, ",");
        push_span(&mut l, span(crate::text::concat2("gpus:", g.as_str()), Style { fg: Color::LightYellow, bold: true }));
    }
    let ghost b3 = line_view(l@);
    let ns = d.host_namespaces();
    let ghost nsv = ns@.map_values(|s: String| s@);
    let mut i: usize = 0;
    while i < ns.len()
        invariant
            i <= ns@.len(),
            nsv == ns@.map_values(|s: String| s@),
            line_view(l@) == b3 + nsv.take(i as int).map_values(
                |t: Seq<char>| (t, plain(Color::Magenta)),
            ),
        decreases ns@.len() - i,
    {
        push_span(&mut l, span(ns[i].clone(), Style { fg: Color::Magenta, bold: false }));
        proof {
            crate::text::lemma_map_take_succ(nsv, i as int, |t: Seq<char>| (t, plain(Color::Magenta)));
        }
        i += 1;
    }
    assert(nsv.take(ns@.len() as int) =~= nsv);
    if d.auto_remove {
        push_span(&mut l, span(owned("--rm"), Style { fg: Color::DarkGray, bold: false }));
    }
    assert(line_view(l@) =~= badges(*d));
    l
}

fn push_badge_line(lines: &mut Vec<Line>, d: &ContainerDetails)
    ensures
        lines_view(final(lines)@) == lines_view(old(lines)@) + badge_lines(*d),
{
    let ghost before = lines_view(lines@);
    let bs = badge_spans(d);
    if bs.len() == 0 {
        assert(lines_view(lines@) =~= before + badge_lines(*d));
        return;
    }
    let ghost bv = line_view(bs@);
    let mut row: Line = Vec::new();
    push_span(&mut row, span(owned("  "), Style { fg: Color::Default, bold: false }));
    let ghost head = line_view(row@);
    let mut i: usize = 0;
    while i < bs.len()
        invariant
            i <= bs@.len(),
            bv == line_view(bs@),
            head == seq![("  "@, plain(Color::Default))],
            line_view(row@) == head + interleaved(bv.take(i as int)),
        decreases bs@.len() - i,
    {
        assert(bv.take(i + 1).drop_last() =~= bv.take(i as int));
        assert(bv.take(i + 1).last() == bs@[i as int]@);
        if i > 0 {
            push_span(&mut row, span(owned(" · "), Style { fg: Color::DarkGray, bold: false }));
        }
        push_span(&mut row, span(bs[i].text.clone(), bs[i].style));
        proof {
            if i == 0 {
                assert(bv.take(1) =~= seq![bv[0]]);
            }
        }
        assert(line_view(row@) =~= head + interleaved(bv.take(i + 1)));
        i += 1;
    }
    assert(bv.take(bs@.len() as int) =~= bv);
    push_line(lines, row);
    assert(lines_view(lines@) =~= before + badge_lines(*d));
}

fn env_line_of(e: &String) -> (r: Line)
    ensures
        line_view(r@) == env_line(e@),
{
    let v = crate::text::chars_of(e.as_str());
    proof {
        crate::text::lemma_first_index(v@, '=');
    }
    let (k, val): (String, String) = match crate::text::first_pos(&v, '=') {
        Some(i) => {
            let a = crate::text::slice_chars(&v, 0, i);
            let b = crate::text::slice_chars(&v, i + 1, v.len());
            assert(a@ =~= v@.take(i as int));
            assert(b@ =~= v@.skip(i as int + 1));
            (crate::text::string_of(&a), crate::text::string_of(&b))
        },
        None => (e.clone(), String::new()),
    };
    line2(
        span(crate::text::concat2("  ", k.as_str()), Style { fg: Color::Magenta, bold: false }),
        span(crate::text::concat2("=", val.as_str()), Style { fg: Color::Gray, bold: false }),
    )
}

fn push_inspect_head(lines: &mut Vec<Line>, d: &ContainerDetails)
    ensures
        lines_view(final(lines)@) == lines_view(old(lines)@) + inspect_head_v(*d),
{
    push_badge_line(lines, d);
    push_opt_kv(lines, "IP", &d.ip);
    push_multi(lines, "Ports", &d.ports);
    push_multi(lines, "Mounts", &d.mounts);
    push_multi(lines, "Networks", &d.networks);
    push_opt_kv(lines, "User", &d.user);
    push_opt_kv(lines, "Restart", &d.restart_policy);
    assert(lines_view(lines@) =~= lines_view(old(lines)@) + inspect_head_v(*d));
}

#[verifier::rlimit(40)]
fn push_inspect_tail(lines: &mut Vec<Line>, d: &ContainerDetails)
    ensures
        lines_view(final(lines)@) == lines_view(old(lines)@) + inspect_tail_v(*d),
{
    let ghost s0 = lines_view(lines@);
    match d.shm_size {
        Some(s) => {
            let b: u64 = if s < 0 {
                0
            } else {
                s as u64
            };
            push_line(lines, kv_line("ShmSize", crate::model::human_bytes(b)));
        },
        None => {},
    }
    let ghost s1 = lines_view(lines@);
    match &d.health {
        Some(h) => {
            let tone = if crate::text::eq_str(h.as_str(), "healthy") {
                Color::LightGreen
            } else if crate::text::eq_str(h.as_str(), "unhealthy") {
                Color::LightRed
            } else {
                Color::LightYellow
            };
            push_line(lines, kv_styled_line("Health", h.clone(), tone));
        },
        None => {},
    }
    let ghost s2 = lines_view(lines@);
    if !d.entrypoint.as_str().is_empty() {
        push_line(lines, kv_line("Entry", d.entrypoint.clone()));
    }
    let ghost s3 = lines_view(lines@);
    push_opt_kv(lines, "WorkDir", &d.working_dir);
    let ghost s4 = lines_view(lines@);
    match d.restart_count {
        Some(n) => push_line(lines, kv_line("Restarts", crate::text::i64_text(n))),
        None => {},
    }
    let ghost s5 = lines_view(lines@);
    match d.exit_code {
        Some(n) => push_line(lines, kv_line("Exit", crate::text::i64_text(n))),
        None => {},
    }
    assert(s1 =~= s0 + (match d.shm_size {
        Some(s) => seq![
            kv_v(
                "ShmSize"@,
                iec_bytes(
                    if s < 0 {
                        0nat
                    } else {
                        s as nat
                    },
                ),
            ),
        ],
        None => Seq::<LineV>::empty(),
    }));
    assert(s2 =~= s1 + (match d.health {
        Some(h) => seq![kv_styled_v("Health"@, h@, health_tone(h@))],
        None => Seq::<LineV>::empty(),
    }));
    assert(s3 =~= s2 + (if d.entrypoint@.len() > 0 {
        seq![kv_v("Entry"@, d.entrypoint@)]
    } else {
        Seq::<LineV>::empty()
    }));
    assert(s5 =~= s4 + (match d.restart_count {
        Some(n) => seq![kv_v("Restarts"@, dec_int(n as int))],
        None => Seq::<LineV>::empty(),
    }));
    assert(lines_view(lines@) =~= s5 + (match d.exit_code {
        Some(n) => seq![kv_v("Exit"@, dec_int(n as int))],
        None => Seq::<LineV>::empty(),
    }));
    assert(lines_view(lines@) =~= s0 + inspect_tail_v(*d));
}

fn push_env(lines: &mut Vec<Line>, d: &ContainerDetails)
    ensures
        lines_view(final(lines)@) == lines_view(old(lines)@) + env_v(*d),
{
    let ghost before = lines_view(lines@);
    let n = crate::text::u64_text(d.env.len() as u64);
    let mut title = crate::text::concat2("ENV VARS (", n.as_str());
    push_str(&mut title, ")");
    push_line(lines, section_line(title.as_str()));
    let ghost mid = lines_view(lines@);
    let ghost ev = strs(d.env@);
    let mut i: usize = 0;
    while i < d.env.len()
        invariant
            i <= d.env@.len(),
            ev == strs(d.env@),
            lines_view(lines@) == mid + ev.take(i as int).map_values(|e: Seq<char>| env_line(e)),
        decreases d.env@.len() - i,
    {
        push_line(lines, env_line_of(&d.env[i]));
        proof {
            crate::text::lemma_map_take_succ(ev, i as int, |e: Seq<char>| env_line(e));
        }
        i += 1;
    }
    assert(ev.take(d.env@.len() as int) =~= ev);
    let ghost mid2 = lines_view(lines@);
    if d.env.len() == 0 {
        push_line(lines, dim_line("  (none)"));
    }
    assert(lines_view(lines@) =~= before + seq![
        section_v("ENV VARS ("@ + dec(d.env@.len()) + ")"@),
    ] + ev.map_values(|e: Seq<char>| env_line(e)) + if d.env@.len() == 0 {
        seq![dim_v("  (none)"@)]
    } else {
        Seq::<LineV>::empty()
    });
}

/// The detail lines of a container; `created` is its creation time as
/// the pane shows it.
pub fn container_lines(c: &Container, d: Option<&ContainerDetails>, created: &str) -> (r: Vec<Line>)
    ensures
        lines_view(r@) == container_v(
            *c,
            match d {
                Some(x) => Some(*x),
                None => None,
            },
            created@,
        ),
{
    let mut lines: Vec<Line> = Vec::new();
    assert(lines_view(lines@) =~= Seq::<LineV>::empty());
    push_container_top(&mut lines, c, created);
    let ghost top = lines_view(lines@);
    match d {
        None => {
            push_line(&mut lines, section_line("INSPECT"));
            push_line(&mut lines, dim_line("loading details…"));
            assert(lines_view(lines@) =~= top + seq![section_v("INSPECT"@), dim_v("loading details…"@)]);
        },
        Some(d) => {
            push_inspect_head(&mut lines, d);
            let ghost h = lines_view(lines@);
            push_inspect_tail(&mut lines, d);
            let ghost t = lines_view(lines@);
            push_env(&mut lines, d);
            assert(h =~= top + inspect_head_v(*d));
            assert(t =~= top + inspect_head_v(*d) + inspect_tail_v(*d));
            assert(lines_view(lines@) =~= top + inspect_v(*d));
        },
    }
    lines
}


// ---------------------------------------------------------------- projects, services, volumes

/// The containers of `cs` whose service label is `s`.
pub open spec fn labelled_service(cs: Seq<Container>, s: Seq<char>) -> Seq<Container>
    decreases cs.len(),
{
    if cs.len() == 0 {
        cs
    } else {
        let r = labelled_service(cs.drop_last(), s);
        if cs.last().service() == Some(s) {
            r.push(cs.last())
        } else {
            r
        }
    }
}

/// The volumes of compose project `p`, in order.
pub open spec fn project_volumes(vs: Seq<Volume>, p: Seq<char>) -> Seq<Volume>
    decreases vs.len(),
{
    if vs.len() == 0 {
        vs
    } else {
        let r = project_volumes(vs.drop_last(), p);
        if vs.last().project() == Some(p) {
            r.push(vs.last())
        } else {
            r
        }
    }
}

/// Green when all are up, red when none is, else yellow.
pub open spec fn ratio_tone(up: nat, total: nat) -> Color {
    if up == total {
        Color::LightGreen
    } else if up == 0 {
        Color::LightRed
    } else {
        Color::LightYellow
    }
}

/// "r/t up".
pub open spec fn up_text(r: nat, t: nat) -> Seq<char> {
    dec(r) + "/"@ + dec(t) + " up"@
}

/// A service of a project: name, how many are up, images.
pub open spec fn service_summary(pc: Seq<Container>, s: Seq<char>) -> LineV {
    let scs = labelled_service(pc, s);
    let up = n_running(scs);
    seq![
        ("  "@ + padded(s, 12), plain(Color::Cyan)),
        (dec(up) + "/"@ + dec(scs.len()) + " "@, plain(ratio_tone(up, scs.len()))),
        (join(scs.map_values(|c: Container| c.image@), ", "@), plain(Color::DarkGray)),
    ]
}

/// A volume of a project: name and size.
pub open spec fn project_volume_line(v: Volume) -> LineV {
    seq![
        ("  "@ + padded(truncated(v.name@, 24), 24), plain(Color::Cyan)),
        (
            match v.size {
                Some(s) => iec_bytes(s as nat),
                None => Seq::empty(),
            },
            plain(Color::DarkGray),
        ),
    ]
}

/// The detail of compose project `name`.
pub open spec fn project_v(cs: Seq<Container>, vs: Seq<Volume>, name: Seq<char>) -> Seq<LineV> {
    let pc = of_project(cs, name);
    let pv = project_volumes(vs, name);
    seq![
        seq![
            ("◆ "@, plain(Color::Cyan)),
            (name, bold(Color::White)),
            ("  "@, plain(Color::Default)),
            (up_text(n_running(pc), pc.len()), plain(Color::LightGreen)),
        ],
    ] + (if pc.len() > 0 {
        opt_kv("Dir"@, label_get(pc[0].labels@, LABEL_WORKING_DIR@)) + opt_kv(
            "Config"@,
            label_get(pc[0].labels@, LABEL_CONFIG_FILES@),
        )
    } else {
        Seq::empty()
    }) + seq![section_v("SERVICES"@)] + services_of(pc).map_values(
        |s: Seq<char>| service_summary(pc, s),
    ) + if pv.len() == 0 {
        Seq::empty()
    } else {
        seq![section_v("PROJECT VOLUMES"@)] + pv.map_values(|v: Volume| project_volume_line(v))
    }
}

/// The containers of project `p` labelled service `s`.
pub open spec fn of_project_service(cs: Seq<Container>, p: Seq<char>, s: Seq<char>) -> Seq<
    Container,
>
    decreases cs.len(),
{
    if cs.len() == 0 {
        cs
    } else {
        let r = of_project_service(cs.drop_last(), p, s);
        if cs.last().project() == Some(p) && cs.last().service() == Some(s) {
            r.push(cs.last())
        } else {
            r
        }
    }
}

/// A container line under a service.
pub open spec fn service_member_line(c: Container) -> LineV {
    seq![
        ("  "@ + state_glyph(c.state@) + " "@, plain(state_tone(c.state@))),
        (c.name@, plain(Color::White)),
        ("  "@, plain(Color::Default)),
        (c.image@, plain(Color::DarkGray)),
    ]
}

/// The detail of service `s` of project `p`.
pub open spec fn service_v(cs: Seq<Container>, p: Seq<char>, s: Seq<char>) -> Seq<LineV> {
    let sc = of_project_service(cs, p, s);
    seq![
        seq![
            ("◈ "@, plain(Color::Cyan)),
            (p + "/"@ + s, bold(Color::White)),
            ("  "@, plain(Color::Default)),
            (up_text(n_running(sc), sc.len()), plain(Color::LightGreen)),
        ],
    ] + sorted_cs(sc).map_values(|c: Container| service_member_line(c))
}

/// A label as `  key` and `=value`.
pub open spec fn label_line(l: (String, String)) -> LineV {
    seq![("  "@ + l.0@, plain(Color::Magenta)), ("="@ + l.1@, plain(Color::Gray))]
}

/// The detail of a volume (at most 12 labels shown).
pub open spec fn volume_v(v: Volume) -> Seq<LineV> {
    let shown = if v.labels@.len() > 12 {
        v.labels@.take(12)
    } else {
        v.labels@
    };
    seq![
        seq![("▤ "@, plain(Color::Cyan)), (truncated(v.name@, 60), bold(Color::White))],
        kv_v("Driver"@, v.driver@),
        kv_v("Scope"@, v.scope@),
    ] + (match v.size {
        Some(s) => seq![kv_v("Size"@, iec_bytes(s as nat))],
        None => Seq::empty(),
    }) + (match v.ref_count {
        Some(n) => seq![kv_v("RefCount"@, dec(n as nat))],
        None => Seq::empty(),
    }) + opt_kv("Compose"@, v.project()) + seq![kv_v("Mount"@, v.mountpoint@)] + if v.labels@.len()
        == 0 {
        Seq::empty()
    } else {
        seq![section_v("LABELS"@)] + shown.map_values(|l: (String, String)| label_line(l))
    }
}

/// The first volume named `name`.
pub open spec fn find_volume(vs: Seq<Volume>, name: Seq<char>) -> Option<Volume>
    decreases vs.len(),
{
    if vs.len() == 0 {
        None
    } else if vs[0].name@ == name {
        Some(vs[0])
    } else {
        find_volume(vs.drop_first(), name)
    }
}

/// What the pane shows with nothing to describe selected.
pub open spec fn hint_v() -> Seq<LineV> {
    seq![dim_v("select a container, service, project or volume"@), dim_v("press ? for help"@)]
}

/// The detail pane for the selected row.
pub open spec fn detail_v(
    row: Option<RowV>,
    cs: Seq<Container>,
    vs: Seq<Volume>,
    ds: Seq<(String, ContainerDetails)>,
    created: Seq<char>,
) -> Seq<LineV> {
    match row {
        Some(r) => if r.0.0 == 3 {
            match find_container(cs, r.0.1) {
                Some(c) => container_v(c, details_get(ds, c.id@), created),
                None => Seq::empty(),
            }
        } else if r.0.0 == 1 {
            project_v(cs, vs, r.0.1)
        } else if r.0.0 == 2 {
            service_v(cs, r.0.1, r.0.2)
        } else if r.0.0 == 4 {
            match find_volume(vs, r.0.1) {
                Some(v) => volume_v(v),
                None => Seq::empty(),
            }
        } else {
            hint_v()
        },
        None => hint_v(),
    }
}


fn labelled_members(cs: &Vec<Container>, idx: &Vec<usize>, s: &str) -> (r: Vec<usize>)
    requires
        crate::tree::idx_ok(cs@, idx@),
    ensures
        crate::tree::idx_ok(cs@, r@),
        crate::tree::idx_view(cs@, r@) == labelled_service(crate::tree::idx_view(cs@, idx@), s@),
{
    let ghost sub = crate::tree::idx_view(cs@, idx@);
    let mut r: Vec<usize> = Vec::new();
    let mut i: usize = 0;
    while i < idx.len()
        invariant
            i <= idx@.len(),
            crate::tree::idx_ok(cs@, idx@),
            sub == crate::tree::idx_view(cs@, idx@),
            crate::tree::idx_ok(cs@, r@),
            crate::tree::idx_view(cs@, r@) == labelled_service(sub.take(i as int), s@),
        decreases idx@.len() - i,
    {
        assert(sub.take(i + 1).drop_last() =~= sub.take(i as int));
        assert(sub.take(i + 1).last() == cs@[idx@[i as int] as int]);
        let k = idx[i];
        let keep = match cs[k].compose_service() {
            Some(x) => crate::text::eq_str(x.as_str(), s),
            None => false,
        };
        if keep {
            let ghost before = r@;
            r.push(k);
            assert(crate::tree::idx_view(cs@, r@) =~= crate::tree::idx_view(cs@, before).push(
                cs@[k as int],
            ));
        }
        i += 1;
    }
    assert(sub.take(idx@.len() as int) =~= sub);
    r
}

fn project_service_members(cs: &Vec<Container>, p: &str, s: &str) -> (r: Vec<usize>)
    ensures
        crate::tree::idx_ok(cs@, r@),
        crate::tree::idx_view(cs@, r@) == of_project_service(cs@, p@, s@),
{
    let mut r: Vec<usize> = Vec::new();
    let mut i: usize = 0;
    while i < cs.len()
        invariant
            i <= cs@.len(),
            crate::tree::idx_ok(cs@, r@),
            crate::tree::idx_view(cs@, r@) == of_project_service(cs@.take(i as int), p@, s@),
        decreases cs@.len() - i,
    {
        assert(cs@.take(i + 1).drop_last() =~= cs@.take(i as int));
        assert(cs@.take(i + 1).last() == cs@[i as int]);
        let inp = match cs[i].compose_project() {
            Some(x) => crate::text::eq_str(x.as_str(), p),
            None => false,
        };
        let ins = match cs[i].compose_service() {
            Some(x) => crate::text::eq_str(x.as_str(), s),
            None => false,
        };
        if inp && ins {
            let ghost before = r@;
            r.push(i);
            assert(crate::tree::idx_view(cs@, r@) =~= crate::tree::idx_view(cs@, before).push(
                cs@[i as int],
            ));
        }
        i += 1;
    }
    assert(cs@.take(cs@.len() as int) =~= cs@);
    r
}

fn up_string(r: usize, t: usize) -> (s: String)
    ensures
        s@ == up_text(r as nat, t as nat),
{
    let mut s = crate::text::u64_text(r as u64);
    push_str(&mut s, "/");
    let b = crate::text::u64_text(t as u64);
    push_str(&mut s, b.as_str());
    push_str(&mut s, " up");
    s
}

fn service_summary_line(cs: &Vec<Container>, pc: &Vec<usize>, s: &String) -> (r: Line)
    requires
        crate::tree::idx_ok(cs@, pc@),
    ensures
        line_view(r@) == service_summary(crate::tree::idx_view(cs@, pc@), s@),
{
    let scs = labelled_members(cs, pc, s.as_str());
    let up = crate::tree::count_running(cs, &scs);
    let ghost sv = crate::tree::idx_view(cs@, scs@);
    let mut images: Vec<String> = Vec::new();
    let mut i: usize = 0;
    while i < scs.len()
        invariant
            i <= scs@.len(),
            crate::tree::idx_ok(cs@, scs@),
            sv == crate::tree::idx_view(cs@, scs@),
            strs(images@) == sv.take(i as int).map_values(|c: Container| c.image@),
        decreases scs@.len() - i,
    {
        let ghost before = images@;
        let im = cs[scs[i]].image.clone();
        images.push(im);
        proof {
            crate::text::lemma_map_push(before, im, |x: String| x@);
            crate::text::lemma_map_take_succ(sv, i as int, |c: Container| c.image@);
        }
        i += 1;
    }
    assert(sv.take(scs@.len() as int) =~= sv);
    let tone = if up == scs.len() {
        Color::LightGreen
    } else if up == 0 {
        Color::LightRed
    } else {
        Color::LightYellow
    };
    let mut counts = crate::text::u64_text(up as u64);
    push_str(&mut counts, "/");
    let tot = crate::text::u64_text(scs.len() as u64);
    push_str(&mut counts, tot.as_str());
    push_str(&mut counts, " ");
    let mut l: Line = Vec::new();
    l.push(span(crate::text::concat2("  ", pad(s.as_str(), 12).as_str()), Style { fg: Color::Cyan, bold: false }));
    l.push(span(counts, Style { fg: tone, bold: false }));
    l.push(span(crate::text::join_strings(&images, ", "), Style { fg: Color::DarkGray, bold: false }));
    assert(line_view(l@) =~= service_summary(crate::tree::idx_view(cs@, pc@), s@));
    l
}

/// The detail lines of compose project `name`.
pub fn project_lines(cs: &Vec<Container>, vs: &Vec<Volume>, name: &str) -> (r: Vec<Line>)
    ensures
        lines_view(r@) == project_v(cs@, vs@, name@),
{
    let pc = crate::tree::project_members(cs, name);
    let ghost pcv = crate::tree::idx_view(cs@, pc@);
    let run = crate::tree::count_running(cs, &pc);
    let mut lines: Vec<Line> = Vec::new();
    let mut head: Line = Vec::new();
    head.push(span(owned("◆ "), Style { fg: Color::Cyan, bold: false }));
    head.push(span(owned(name), Style { fg: Color::White, bold: true }));
    head.push(span(owned("  "), Style { fg: Color::Default, bold: false }));
    head.push(span(up_string(run, pc.len()), Style { fg: Color::LightGreen, bold: false }));
    assert(pcv.len() == pc@.len());
    assert(pcv == of_project(cs@, name@));
    assert(line_view(head@) =~= seq![
        ("◆ "@, plain(Color::Cyan)),
        (name@, bold(Color::White)),
        ("  "@, plain(Color::Default)),
        (up_text(n_running(pcv), pcv.len()), plain(Color::LightGreen)),
    ]);
    push_line(&mut lines, head);
    let ghost l1 = lines_view(lines@);
    if pc.len() > 0 {
        let first = &cs[pc[0]];
        assert(*first == pcv[0]);
        let wd = first.compose_workdir();
        push_opt_kv(&mut lines, "Dir", &wd);
        let cf = first.compose_config_files();
        push_opt_kv(&mut lines, "Config", &cf);
    }
    let ghost l2 = lines_view(lines@);
    push_line(&mut lines, section_line("SERVICES"));
    let ghost l3 = lines_view(lines@);
    let services = crate::tree::service_names(cs, &pc);
    let ghost ss = strs(services@);
    let mut i: usize = 0;
    while i < services.len()
        invariant
            i <= services@.len(),
            ss == strs(services@),
            crate::tree::idx_ok(cs@, pc@),
            pcv == crate::tree::idx_view(cs@, pc@),
            lines_view(lines@) == l3 + ss.take(i as int).map_values(
                |s: Seq<char>| service_summary(pcv, s),
            ),
        decreases services@.len() - i,
    {
        push_line(&mut lines, service_summary_line(cs, &pc, &services[i]));
        proof {
            crate::text::lemma_map_take_succ(ss, i as int, |s: Seq<char>| service_summary(pcv, s));
        }
        i += 1;
    }
    assert(ss.take(services@.len() as int) =~= ss);
    let ghost l4 = lines_view(lines@);
    // project volumes
    let mut pv: Vec<usize> = Vec::new();
    let mut j: usize = 0;
    while j < vs.len()
        invariant
            j <= vs@.len(),
            forall|k: int| 0 <= k < pv@.len() ==> (#[trigger] pv@[k]) < vs@.len(),
            pv@.map_values(|k: usize| vs@[k as int]) == project_volumes(vs@.take(j as int), name@),
        decreases vs@.len() - j,
    {
        assert(vs@.take(j + 1).drop_last() =~= vs@.take(j as int));
        assert(vs@.take(j + 1).last() == vs@[j as int]);
        let keep = match vs[j].compose_project() {
            Some(x) => crate::text::eq_str(x.as_str(), name),
            None => false,
        };
        if keep {
            let ghost before = pv@;
            pv.push(j);
            assert(pv@.map_values(|k: usize| vs@[k as int]) =~= before.map_values(
                |k: usize| vs@[k as int],
            ).push(vs@[j as int]));
        }
        j += 1;
    }
    assert(vs@.take(vs@.len() as int) =~= vs@);
    let ghost pvv = pv@.map_values(|k: usize| vs@[k as int]);
    if pv.len() > 0 {
        push_line(&mut lines, section_line("PROJECT VOLUMES"));
        let ghost l5 = lines_view(lines@);
        let mut k: usize = 0;
        while k < pv.len()
            invariant
                k <= pv@.len(),
                forall|x: int| 0 <= x < pv@.len() ==> (#[trigger] pv@[x]) < vs@.len(),
                pvv == pv@.map_values(|x: usize| vs@[x as int]),
                lines_view(lines@) == l5 + pvv.take(k as int).map_values(
                    |v: Volume| project_volume_line(v),
                ),
            decreases pv@.len() - k,
        {
            let v = &vs[pv[k]];
            let size = match v.size {
                Some(s) => crate::model::human_bytes(s),
                None => String::new(),
            };
            let name_cell = pad(crate::util::truncate(v.name.as_str(), 24).as_str(), 24);
            let l = line2(
                span(crate::text::concat2("  ", name_cell.as_str()), Style { fg: Color::Cyan, bold: false }),
                span(size, Style { fg: Color::DarkGray, bold: false }),
            );
            assert(pvv[k as int] == vs@[pv@[k as int] as int]);
            assert(line_view(l@) =~= project_volume_line(pvv[k as int])) by {
                reveal_strlit("");
            }
            push_line(&mut lines, l);
            proof {
                crate::text::lemma_map_take_succ(pvv, k as int, |v: Volume| project_volume_line(v));
            }
            k += 1;
        }
        assert(pvv.take(pv@.len() as int) =~= pvv);
    }
    let ghost pvs = project_volumes(vs@, name@);
    assert(pvv == pvs);
    assert(l2 =~= l1 + (if pcv.len() > 0 {
        opt_kv("Dir"@, label_get(pcv[0].labels@, LABEL_WORKING_DIR@)) + opt_kv(
            "Config"@,
            label_get(pcv[0].labels@, LABEL_CONFIG_FILES@),
        )
    } else {
        Seq::<LineV>::empty()
    }));
    assert(l4 =~= l3 + services_of(pcv).map_values(|s: Seq<char>| service_summary(pcv, s)));
    assert(lines_view(lines@) =~= l4 + if pvs.len() == 0 {
        Seq::<LineV>::empty()
    } else {
        seq![section_v("PROJECT VOLUMES"@)] + pvs.map_values(|v: Volume| project_volume_line(v))
    });
    assert(lines_view(lines@) =~= project_v(cs@, vs@, name@));
    lines
}

/// The detail lines of service `s` of project `p`.
pub fn service_lines(cs: &Vec<Container>, p: &str, s: &str) -> (r: Vec<Line>)
    ensures
        lines_view(r@) == service_v(cs@, p@, s@),
{
    let sc = project_service_members(cs, p, s);
    let run = crate::tree::count_running(cs, &sc);
    let mut lines: Vec<Line> = Vec::new();
    let mut head: Line = Vec::new();
    head.push(span(owned("◈ "), Style { fg: Color::Cyan, bold: false }));
    head.push(span(crate::text::concat3(p, "/", s), Style { fg: Color::White, bold: true }));
    head.push(span(owned("  "), Style { fg: Color::Default, bold: false }));
    head.push(span(up_string(run, sc.len()), Style { fg: Color::LightGreen, bold: false }));
    assert(crate::tree::idx_view(cs@, sc@).len() == sc@.len());
    assert(line_view(head@) =~= seq![
        ("◈ "@, plain(Color::Cyan)),
        (p@ + "/"@ + s@, bold(Color::White)),
        ("  "@, plain(Color::Default)),
        (up_text(n_running(of_project_service(cs@, p@, s@)), of_project_service(cs@, p@, s@).len()), plain(Color::LightGreen)),
    ]);
    push_line(&mut lines, head);
    let ghost l1 = lines_view(lines@);
    let sorted = crate::tree::sort_members(cs, &sc);
    let ghost sv = crate::tree::idx_view(cs@, sorted@);
    let mut i: usize = 0;
    while i < sorted.len()
        invariant
            i <= sorted@.len(),
            crate::tree::idx_ok(cs@, sorted@),
            sv == crate::tree::idx_view(cs@, sorted@),
            lines_view(lines@) == l1 + sv.take(i as int).map_values(
                |c: Container| service_member_line(c),
            ),
        decreases sorted@.len() - i,
    {
        let c = &cs[sorted[i]];
        let mut l: Line = Vec::new();
        l.push(span(crate::text::concat3("  ", crate::theme::state_icon(c.state.as_str()), " "), Style { fg: crate::theme::state_color(c.state.as_str()), bold: false }));
        l.push(span(c.name.clone(), Style { fg: Color::White, bold: false }));
        l.push(span(owned("  "), Style { fg: Color::Default, bold: false }));
        l.push(span(c.image.clone(), Style { fg: Color::DarkGray, bold: false }));
        assert(line_view(l@) =~= service_member_line(*c));
        push_line(&mut lines, l);
        proof {
            crate::text::lemma_map_take_succ(sv, i as int, |c: Container| service_member_line(c));
        }
        i += 1;
    }
    assert(sv.take(sorted@.len() as int) =~= sv);
    assert(lines_view(lines@) =~= service_v(cs@, p@, s@));
    lines
}

/// The detail lines of a volume.
pub fn volume_lines(v: &Volume) -> (r: Vec<Line>)
    ensures
        lines_view(r@) == volume_v(*v),
{
    let mut lines: Vec<Line> = Vec::new();
    let head = line2(
        span(owned("▤ "), Style { fg: Color::Cyan, bold: false }),
        span(crate::util::truncate(v.name.as_str(), 60), Style { fg: Color::White, bold: true }),
    );
    push_line(&mut lines, head);
    push_line(&mut lines, kv_line("Driver", v.driver.clone()));
    push_line(&mut lines, kv_line("Scope", v.scope.clone()));
    let ghost l1 = lines_view(lines@);
    match v.size {
        Some(s) => push_line(&mut lines, kv_line("Size", crate::model::human_bytes(s))),
        None => {},
    }
    let ghost l2 = lines_view(lines@);
    match v.ref_count {
        Some(n) => push_line(&mut lines, kv_line("RefCount", crate::text::u64_text(n))),
        None => {},
    }
    let ghost l3 = lines_view(lines@);
    let p = v.compose_project();
    push_opt_kv(&mut lines, "Compose", &p);
    push_line(&mut lines, kv_line("Mount", v.mountpoint.clone()));
    let ghost l4 = lines_view(lines@);
    let ghost shown = if v.labels@.len() > 12 {
        v.labels@.take(12)
    } else {
        v.labels@
    };
    if v.labels.len() > 0 {
        push_line(&mut lines, section_line("LABELS"));
        let ghost l5 = lines_view(lines@);
        let n = if v.labels.len() > 12 {
            12
        } else {
            v.labels.len()
        };
        let mut i: usize = 0;
        while i < n
            invariant
                i <= n,
                n == shown.len(),
                n <= v.labels@.len(),
                shown == v.labels@.take(n as int),
                lines_view(lines@) == l5 + shown.take(i as int).map_values(
                    |l: (String, String)| label_line(l),
                ),
            decreases n - i,
        {
            let l = line2(
                span(crate::text::concat2("  ", v.labels[i].0.as_str()), Style { fg: Color::Magenta, bold: false }),
                span(crate::text::concat2("=", v.labels[i].1.as_str()), Style { fg: Color::Gray, bold: false }),
            );
            push_line(&mut lines, l);
            proof {
                crate::text::lemma_map_take_succ(shown, i as int, |l: (String, String)| label_line(l));
            }
            i += 1;
        }
        assert(shown.take(n as int) =~= shown);
    }
    assert(lines_view(lines@) =~= volume_v(*v));
    lines
}

fn find_container_exec(cs: &Vec<Container>, id: &str) -> (r: Option<usize>)
    ensures
        match r {
            Some(i) => i < cs@.len() && find_container(cs@, id@) == Some(cs@[i as int]),
            None => find_container(cs@, id@) is None,
        },
{
    let mut i: usize = 0;
    assert(cs@.skip(0) =~= cs@);
    while i < cs.len()
        invariant
            i <= cs@.len(),
            find_container(cs@, id@) == find_container(cs@.skip(i as int), id@),
        decreases cs@.len() - i,
    {
        assert(cs@.skip(i as int)[0] == cs@[i as int]);
        assert(cs@.skip(i as int).drop_first() =~= cs@.skip(i + 1));
        if crate::text::eq_str(cs[i].id.as_str(), id) {
            return Some(i);
        }
        i += 1;
    }
    None
}

fn find_volume_exec(vs: &Vec<Volume>, name: &str) -> (r: Option<usize>)
    ensures
        match r {
            Some(i) => i < vs@.len() && find_volume(vs@, name@) == Some(vs@[i as int]),
            None => find_volume(vs@, name@) is None,
        },
{
    let mut i: usize = 0;
    assert(vs@.skip(0) =~= vs@);
    while i < vs.len()
        invariant
            i <= vs@.len(),
            find_volume(vs@, name@) == find_volume(vs@.skip(i as int), name@),
        decreases vs@.len() - i,
    {
        assert(vs@.skip(i as int)[0] == vs@[i as int]);
        assert(vs@.skip(i as int).drop_first() =~= vs@.skip(i + 1));
        if crate::text::eq_str(vs[i].name.as_str(), name) {
            return Some(i);
        }
        i += 1;
    }
    None
}

/// The inspect details kept for a container id.
pub fn details_for<'a>(ds: &'a Vec<(String, ContainerDetails)>, id: &str) -> (r: Option<&'a ContainerDetails>)
    ensures
        match r {
            Some(d) => details_get(ds@, id@) == Some(*d),
            None => details_get(ds@, id@) is None,
        },
{
    let mut i: usize = 0;
    assert(ds@.skip(0) =~= ds@);
    while i < ds.len()
        invariant
            i <= ds@.len(),
            details_get(ds@, id@) == details_get(ds@.skip(i as int), id@),
        decreases ds@.len() - i,
    {
        assert(ds@.skip(i as int)[0] == ds@[i as int]);
        assert(ds@.skip(i as int).drop_first() =~= ds@.skip(i + 1));
        if crate::text::eq_str(ds[i].0.as_str(), id) {
            return Some(&ds[i].1);
        }
        i += 1;
    }
    None
}

/// The detail pane for the selected row (`None`: nothing selected);
/// `created` is how the pane shows a container's creation time.
pub fn detail_lines(
    row: Option<&crate::tree::Row>,
    cs: &Vec<Container>,
    vs: &Vec<Volume>,
    ds: &Vec<(String, ContainerDetails)>,
    created: &str,
) -> (r: Vec<Line>)
    ensures
        lines_view(r@) == detail_v(
            match row {
                Some(x) => Some(x@),
                None => None,
            },
            cs@,
            vs@,
            ds@,
            created@,
        ),
{
    let hint = || -> (h: Vec<Line>)
        ensures
            lines_view(h@) == hint_v(),
        {
            let mut l: Vec<Line> = Vec::new();
            push_line(&mut l, dim_line("select a container, service, project or volume"));
            push_line(&mut l, dim_line("press ? for help"));
            assert(lines_view(l@) =~= hint_v());
            l
        };
    match row {
        Some(r) => match &r.kind {
            crate::tree::RowKind::Container(id) => match find_container_exec(cs, id.as_str()) {
                Some(i) => {
                    let c = &cs[i];
                    container_lines(c, details_for(ds, c.id.as_str()), created)
                },
                None => {
                    let e: Vec<Line> = Vec::new();
                    assert(lines_view(e@) =~= Seq::<LineV>::empty());
                    e
                },
            },
            crate::tree::RowKind::Project(p) => project_lines(cs, vs, p.as_str()),
            crate::tree::RowKind::Service(p, s) => service_lines(cs, p.as_str(), s.as_str()),
            crate::tree::RowKind::Volume(n) => match find_volume_exec(vs, n.as_str()) {
                Some(i) => volume_lines(&vs[i]),
                None => {
                    let e: Vec<Line> = Vec::new();
                    assert(lines_view(e@) =~= Seq::<LineV>::empty());
                    e
                },
            },
            crate::tree::RowKind::Section(_) => hint(),
        },
        None => hint(),
    }
}

/// The number of lines the detail pane shows for the app's selection.
pub open spec fn detail_count(a: crate::app::App) -> int {
    detail_v(
        if a.tree_sel < a.tree_rows@.len() {
            Some(a.tree_rows@[a.tree_sel as int]@)
        } else {
            None
        },
        a.containers@,
        a.volumes@,
        a.details@,
        Seq::empty(),
    ).len() as int
}

/// The number of lines the detail pane shows (the scroll limit).
pub fn detail_line_count(app: &crate::app::App) -> (r: usize)
    ensures
        r == detail_count(*app),
{
    let row = if app.tree_sel < app.tree_rows.len() {
        Some(&app.tree_rows[app.tree_sel])
    } else {
        None
    };
    let lines = detail_lines(row, &app.containers, &app.volumes, &app.details, "");
    proof {
        reveal_strlit("");
        assert(lines_view(lines@).len() == lines@.len());
    }
    lines.len()
}

} // verus!
