//! Colours and styled text: how states, kinds and detail lines look.
use vstd::prelude::*;

use crate::docker::EndpointKind;

verus! {

/// The terminal colours the interface uses.
#[derive(Clone, Copy, Debug, PartialEq, Eq, Structural)]
pub enum Color {
    /// No colour of its own (the terminal's current one).
    Default,
    Reset,
    Cyan,
    DarkGray,
    Blue,
    White,
    Gray,
    Red,
    LightRed,
    Yellow,
    LightYellow,
    LightGreen,
    Green,
    Magenta,
    LightBlue,
    LightMagenta,
}

/// A foreground colour, bold or not.
#[derive(Clone, Copy, PartialEq, Eq, Structural)]
pub struct Style {
    pub fg: Color,
    pub bold: bool,
}

/// A piece of styled text.
pub struct Span {
    pub text: String,
    pub style: Style,
}

pub type SpanV = (Seq<char>, Style);

impl View for Span {
    type V = SpanV;

    open spec fn view(&self) -> SpanV {
        (self.text@, self.style)
    }
}

/// A line of styled text.
pub type Line = Vec<Span>;

pub open spec fn line_view(l: Seq<Span>) -> Seq<SpanV> {
    l.map_values(|s: Span| s@)
}

pub open spec fn lines_view(ls: Seq<Line>) -> Seq<Seq<SpanV>> {
    ls.map_values(|l: Line| line_view(l@))
}

pub open spec fn plain(c: Color) -> Style {
    Style { fg: c, bold: false }
}

pub open spec fn bold(c: Color) -> Style {
    Style { fg: c, bold: true }
}

/// The colour of a container state.
pub open spec fn state_tone(state: Seq<char>) -> Color {
    if state == "running"@ {
        Color::LightGreen
    } else if state == "paused"@ {
        Color::Yellow
    } else if state == "restarting"@ {
        Color::LightYellow
    } else if state == "created"@ {
        Color::Blue
    } else if state == "exited"@ || state == "dead"@ {
        Color::Red
    } else if state == "partial"@ {
        Color::LightYellow
    } else {
        Color::Gray
    }
}

/// The glyph of a container state.
pub open spec fn state_glyph(state: Seq<char>) -> Seq<char> {
    if state == "running"@ {
        "●"@
    } else if state == "paused"@ {
        "⋈"@
    } else if state == "restarting"@ {
        "↻"@
    } else if state == "created"@ {
        "○"@
    } else if state == "exited"@ || state == "dead"@ {
        "✖"@
    } else if state == "partial"@ {
        "◐"@
    } else {
        "·"@
    }
}

pub fn state_color(state: &str) -> (r: Color)
    ensures
        r == state_tone(state@),
{
    if crate::text::eq_str(state, "running") {
        Color::LightGreen
    } else if crate::text::eq_str(state, "paused") {
        Color::Yellow
    } else if crate::text::eq_str(state, "restarting") {
        Color::LightYellow
    } else if crate::text::eq_str(state, "created") {
        Color::Blue
    } else if crate::text::eq_str(state, "exited") || crate::text::eq_str(state, "dead") {
        Color::Red
    } else if crate::text::eq_str(state, "partial") {
        Color::LightYellow
    } else {
        Color::Gray
    }
}

pub fn state_icon(state: &str) -> (r: &'static str)
    ensures
        r@ == state_glyph(state@),
{
    if crate::text::eq_str(state, "running") {
        "●"
    } else if crate::text::eq_str(state, "paused") {
        "⋈"
    } else if crate::text::eq_str(state, "restarting") {
        "↻"
    } else if crate::text::eq_str(state, "created") {
        "○"
    } else if crate::text::eq_str(state, "exited") || crate::text::eq_str(state, "dead") {
        "✖"
    } else if crate::text::eq_str(state, "partial") {
        "◐"
    } else {
        "·"
    }
}

/// The colour of a CPU share (hundredths of a percent): red from two
/// full cores, yellow from one.
pub open spec fn cpu_tone(centi: u64) -> Color {
    if centi >= 20000 {
        Color::LightRed
    } else if centi >= 10000 {
        Color::LightYellow
    } else {
        Color::LightGreen
    }
}

pub fn cpu_color(centi: u64) -> (r: Color)
    ensures
        r == cpu_tone(centi),
{
    if centi >= 20000 {
        Color::LightRed
    } else if centi >= 10000 {
        Color::LightYellow
    } else {
        Color::LightGreen
    }
}

/// The colour of a memory share (hundredths of a percent): red from 80%,
/// yellow from 50%.
pub open spec fn mem_tone(centi: u64) -> Color {
    if centi >= 8000 {
        Color::LightRed
    } else if centi >= 5000 {
        Color::LightYellow
    } else {
        Color::LightGreen
    }
}

pub fn mem_color(centi: u64) -> (r: Color)
    ensures
        r == mem_tone(centi),
{
    if centi >= 8000 {
        Color::LightRed
    } else if centi >= 5000 {
        Color::LightYellow
    } else {
        Color::LightGreen
    }
}

/// The colour of an event's type.
pub open spec fn type_tone(typ: Seq<char>) -> Color {
    if typ == "container"@ {
        Color::LightBlue
    } else if typ == "image"@ {
        Color::LightMagenta
    } else if typ == "volume"@ {
        Color::Cyan
    } else if typ == "network"@ {
        Color::LightYellow
    } else if typ == "daemon"@ {
        Color::LightGreen
    } else {
        Color::Gray
    }
}

pub fn type_color(typ: &str) -> (r: Color)
    ensures
        r == type_tone(typ@),
{
    if crate::text::eq_str(typ, "container") {
        Color::LightBlue
    } else if crate::text::eq_str(typ, "image") {
        Color::LightMagenta
    } else if crate::text::eq_str(typ, "volume") {
        Color::Cyan
    } else if crate::text::eq_str(typ, "network") {
        Color::LightYellow
    } else if crate::text::eq_str(typ, "daemon") {
        Color::LightGreen
    } else {
        Color::Gray
    }
}

/// `s` begins with `p`.
pub open spec fn starts(s: Seq<char>, p: Seq<char>) -> bool {
    p.len() <= s.len() && s.take(p.len() as int) == p
}

/// The colour of an event's action: red for endings and failures, green
/// for beginnings and good health.
pub open spec fn action_tone(a: Seq<char>) -> Color {
    if starts(a, "die"@) || starts(a, "kill"@) || starts(a, "destroy"@) || starts(a, "remove"@)
        || starts(a, "oom"@) || starts(a, "unhealthy"@) {
        Color::LightRed
    } else if starts(a, "start"@) || starts(a, "create"@) || starts(a, "attach"@) || starts(
        a,
        "healthy"@,
    ) {
        Color::LightGreen
    } else {
        Color::Gray
    }
}

fn begins(a: &Vec<char>, p: &str) -> (r: bool)
    ensures
        r == starts(a@, p@),
{
    let q = crate::text::chars_of(p);
    crate::text::starts_with_chars(a, &q)
}

pub fn action_color(action: &str) -> (r: Color)
    ensures
        r == action_tone(action@),
{
    let a = crate::text::chars_of(action);
    if begins(&a, "die") || begins(&a, "kill") || begins(&a, "destroy") || begins(&a, "remove")
        || begins(&a, "oom") || begins(&a, "unhealthy") {
        Color::LightRed
    } else if begins(&a, "start") || begins(&a, "create") || begins(&a, "attach") || begins(
        &a,
        "healthy",
    ) {
        Color::LightGreen
    } else {
        Color::Gray
    }
}

/// The short name of an endpoint kind.
pub open spec fn kind_text(k: EndpointKind) -> Seq<char> {
    match k {
        EndpointKind::Unix => "unix"@,
        EndpointKind::Tcp => "tcp"@,
        EndpointKind::Ssh => "ssh"@,
        EndpointKind::Unknown => "?"@,
    }
}

pub fn kind_label(kind: &EndpointKind) -> (r: &'static str)
    ensures
        r@ == kind_text(*kind),
{
    match kind {
        EndpointKind::Unix => "unix",
        EndpointKind::Tcp => "tcp",
        EndpointKind::Ssh => "ssh",
        EndpointKind::Unknown => "?",
    }
}

} // verus!
