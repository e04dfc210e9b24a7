//! User-defined one-key container launches ("ops") and the container
//! create requests they, and the edit form, produce.
use vstd::prelude::*;

use crate::model::label_get;
use crate::text::{
    concat2, seq_lt, ascii_lower_chars, ascii_lower_seq, chars_of, concat3, dec_int, ends_with_chars, eq_str,
    first_index, first_pos, i64_text, join, join_strings, last_index, last_pos, lowercase,
    owned, parse_i64, parse_i64_chars, parse_u16, parse_u16_chars, push_char, push_chars,
    slice_chars, split_chars, split_on, split_str, starts_with_chars, str_views, string_of, to_lowercase,
    trim, trim_chars, views,
};
use crate::text::is_ws;
use crate::util::{command_args, split_command, strs};

verus! {

/// bollard's host configuration, carried through unchanged where the
/// library does not model a setting.
#[verifier::external_type_specification]
#[verifier::external_body]
pub struct ExHostConfig(bollard::models::HostConfig);

/// bollard `HostConfig::clone` (derived): the copy equals its source.
#[verifier::external_body]
fn clone_host_config(h: &bollard::models::HostConfig) -> (r: bollard::models::HostConfig)
    ensures
        r == *h,
{
    h.clone()
}

/// The view of an optional string.
pub open spec fn opt_view(o: Option<String>) -> Option<Seq<char>> {
    match o {
        Some(s) => Some(s@),
        None => None,
    }
}

/// The views of an optional list of strings.
pub open spec fn opt_strs(o: Option<Vec<String>>) -> Option<Seq<Seq<char>>> {
    match o {
        Some(v) => Some(strs(v@)),
        None => None,
    }
}

/// A copy of an optional string.
pub fn clone_opt(o: &Option<String>) -> (r: Option<String>)
    ensures
        r == *o,
{
    match o {
        Some(s) => Some(s.clone()),
        None => None,
    }
}

/// A copy of an optional string list.
pub fn clone_opt_strings(o: &Option<Vec<String>>) -> (r: Option<Vec<String>>)
    ensures
        opt_strs(r) == opt_strs(*o),
        r is Some <==> o is Some,
{
    match o {
        Some(v) => Some(crate::model::clone_strings(v)),
        None => None,
    }
}

#[derive(Clone, Copy, PartialEq, Eq, Structural)]
pub enum PullPolicy {
    Missing,
    Always,
    Never,
}

impl Default for PullPolicy {
    fn default() -> (r: Self)
        ensures
            r == PullPolicy::Missing,
    {
        PullPolicy::Missing
    }
}

// ---------------------------------------------------------------- gpus

pub enum GpuSpec {
    Count(i64),
    Spec(String),
}

impl Clone for GpuSpec {
    fn clone(&self) -> (r: Self)
        ensures
            r == *self,
    {
        match self {
            GpuSpec::Count(n) => GpuSpec::Count(*n),
            GpuSpec::Spec(s) => GpuSpec::Spec(s.clone()),
        }
    }
}

/// A device request as the daemon takes it.
pub struct GpuRequest {
    pub driver: Option<String>,
    pub count: Option<i64>,
    pub device_ids: Option<Vec<String>>,
    pub capabilities: Option<Vec<Vec<String>>>,
}

/// The views of an optional list of string lists.
pub open spec fn caps_view(c: Option<Vec<Vec<String>>>) -> Option<Seq<Seq<Seq<char>>>> {
    match c {
        Some(v) => Some(v@.map_values(|x: Vec<String>| strs(x@))),
        None => None,
    }
}

/// Two device requests ask for the same thing.
pub open spec fn same_request(a: GpuRequest, b: GpuRequest) -> bool {
    &&& a.driver == b.driver
    &&& a.count == b.count
    &&& opt_strs(a.device_ids) == opt_strs(b.device_ids)
    &&& caps_view(a.capabilities) == caps_view(b.capabilities)
}

/// Two optional request lists ask for the same things.
pub open spec fn same_requests(a: Option<Vec<GpuRequest>>, b: Option<Vec<GpuRequest>>) -> bool {
    match (a, b) {
        (None, None) => true,
        (Some(x), Some(y)) => x@.len() == y@.len() && forall|i: int|
            0 <= i < x@.len() ==> same_request(#[trigger] x@[i], y@[i]),
        _ => false,
    }
}

fn clone_caps(c: &Vec<Vec<String>>) -> (r: Vec<Vec<String>>)
    ensures
        r@.map_values(|x: Vec<String>| strs(x@)) == c@.map_values(|x: Vec<String>| strs(x@)),
{
    let mut r: Vec<Vec<String>> = Vec::new();
    let mut i: usize = 0;
    while i < c.len()
        invariant
            i <= c@.len(),
            r@.map_values(|x: Vec<String>| strs(x@)) == c@.take(i as int).map_values(
                |x: Vec<String>| strs(x@),
            ),
        decreases c@.len() - i,
    {
        let ghost before = r@;
        let x = crate::model::clone_strings(&c[i]);
        r.push(x);
        proof {
            crate::text::lemma_map_push(before, x, |x: Vec<String>| strs(x@));
            crate::text::lemma_map_take_succ(c@, i as int, |x: Vec<String>| strs(x@));
        }
        i += 1;
    }
    assert(c@.take(c@.len() as int) =~= c@);
    r
}

impl Clone for GpuRequest {
    fn clone(&self) -> (r: Self)
        ensures
            same_request(r, *self),
    {
        GpuRequest {
            driver: clone_opt(&self.driver),
            count: self.count,
            device_ids: clone_opt_strings(&self.device_ids),
            capabilities: match &self.capabilities {
                Some(c) => Some(clone_caps(c)),
                None => None,
            },
        }
    }
}

fn clone_requests(v: &Vec<GpuRequest>) -> (r: Vec<GpuRequest>)
    ensures
        same_requests(Some(r), Some(*v)),
{
    let mut out: Vec<GpuRequest> = Vec::new();
    let mut i: usize = 0;
    while i < v.len()
        invariant
            i <= v@.len(),
            out@.len() == i,
            forall|j: int| 0 <= j < i ==> same_request(#[trigger] out@[j], v@[j]),
        decreases v@.len() - i,
    {
        out.push(v[i].clone());
        i += 1;
    }
    out
}

/// `[["gpu"]]`.
fn gpu_caps() -> (r: Vec<Vec<String>>)
    ensures
        r@.len() == 1,
        strs(r@[0]@) == seq!["gpu"@],
{
    let mut inner: Vec<String> = Vec::new();
    inner.push(owned("gpu"));
    let mut r: Vec<Vec<String>> = Vec::new();
    r.push(inner);
    assert(strs(r@[0]@) =~= seq!["gpu"@]);
    r
}

/// `s` split on `,`, each piece trimmed.
pub open spec fn device_id_list(s: Seq<char>) -> Seq<Seq<char>> {
    split_on(s, ',').map_values(|p: Seq<char>| trim(p))
}

/// `r` is the device request `g` asks for: the default driver, the GPU
/// capability, and a count or a list of device ids.
pub open spec fn requests_gpus(r: GpuRequest, g: GpuSpec) -> bool {
    &&& opt_view(r.driver) == Some(Seq::<char>::empty())
    &&& r.count == g.request_count()
    &&& opt_strs(r.device_ids) == g.request_ids()
    &&& r.capabilities is Some
    &&& r.capabilities->0@.len() == 1
    &&& strs(r.capabilities->0@[0]@) == seq!["gpu"@]
}

impl GpuSpec {
    /// The request `--gpus` makes: "all" asks for every GPU (count -1), a
    /// number for that many, anything else names device ids.
    pub open spec fn request_count(&self) -> Option<i64> {
        match self {
            GpuSpec::Count(n) => Some(*n),
            GpuSpec::Spec(s) => if s@ == "all"@ {
                Some(-1i64)
            } else {
                None
            },
        }
    }

    pub open spec fn request_ids(&self) -> Option<Seq<Seq<char>>> {
        match self {
            GpuSpec::Count(_) => None,
            GpuSpec::Spec(s) => if s@ == "all"@ {
                None
            } else {
                Some(device_id_list(s@))
            },
        }
    }

    pub fn to_request(&self) -> (r: GpuRequest)
        ensures
            requests_gpus(r, *self),
    {
        let mut req = GpuRequest {
            driver: Some(String::new()),
            count: None,
            device_ids: None,
            capabilities: Some(gpu_caps()),
        };
        match self {
            GpuSpec::Count(n) => req.count = Some(*n),
            GpuSpec::Spec(s) => {
                if eq_str(s.as_str(), "all") {
                    req.count = Some(-1);
                } else {
                    let parts = split_str(s.as_str(), ',');
                    let mut ids: Vec<String> = Vec::new();
                    let mut i: usize = 0;
                    while i < parts.len()
                        invariant
                            i <= parts.len(),
                            str_views(parts@) == split_on(s@, ','),
                            strs(ids@) == split_on(s@, ',').take(i as int).map_values(
                                |p: Seq<char>| trim(p),
                            ),
                        decreases parts.len() - i,
                    {
                        let ghost before = ids@;
                        let pv = chars_of(parts[i].as_str());
                        let t = trim_chars(&pv);
                        let id = string_of(&t);
                        ids.push(id);
                        proof {
                            crate::text::lemma_map_push(before, id, |x: String| x@);
                            crate::text::lemma_map_take_succ(split_on(s@, ','), i as int, |p: Seq<char>| trim(p));
                            assert(split_on(s@, ',')[i as int] == str_views(parts@)[i as int]);
                        }
                        i += 1;
                    }
                    assert(split_on(s@, ',').take(parts@.len() as int) == split_on(s@, ','));
                    req.device_ids = Some(ids);
                }
            },
        }
        req
    }
}

// ---------------------------------------------------------------- commands

pub enum Cmd {
    Many(Vec<String>),
    One(String),
}

impl Clone for Cmd {
    fn clone(&self) -> (r: Self)
        ensures
            self.args() == r.args(),
    {
        match self {
            Cmd::Many(v) => Cmd::Many(crate::model::clone_strings(v)),
            Cmd::One(s) => Cmd::One(s.clone()),
        }
    }
}

impl Cmd {
    /// The argument vector: a list as given, a string split like a shell.
    pub open spec fn args(&self) -> Seq<Seq<char>> {
        match self {
            Cmd::Many(v) => strs(v@),
            Cmd::One(s) => command_args(s@),
        }
    }

    pub fn to_args(&self) -> (r: Vec<String>)
        ensures
            strs(r@) == self.args(),
    {
        match self {
            Cmd::Many(v) => crate::model::clone_strings(v),
            Cmd::One(s) => split_command(s.as_str()),
        }
    }

    /// The command as one line (a list joined with spaces).
    pub open spec fn line(&self) -> Seq<char> {
        match self {
            Cmd::Many(v) => join(strs(v@), " "@),
            Cmd::One(s) => s@,
        }
    }

    pub fn to_line(&self) -> (r: String)
        ensures
            r@ == self.line(),
    {
        match self {
            Cmd::Many(v) => join_strings(v, " "),
            Cmd::One(s) => s.clone(),
        }
    }
}

// ---------------------------------------------------------------- sizes

pub enum ShmSize {
    Bytes(i64),
    Spec(String),
}

impl Clone for ShmSize {
    fn clone(&self) -> (r: Self)
        ensures
            r == *self,
    {
        match self {
            ShmSize::Bytes(b) => ShmSize::Bytes(*b),
            ShmSize::Spec(s) => ShmSize::Spec(s.clone()),
        }
    }
}

pub const DEFAULT_SHM: i64 = 67108864;

impl ShmSize {
    pub open spec fn bytes(&self) -> i64 {
        match self {
            ShmSize::Bytes(b) => *b,
            ShmSize::Spec(s) => match size_value(s@) {
                Some(v) => v,
                None => DEFAULT_SHM,
            },
        }
    }

    pub fn to_bytes(&self) -> (r: i64)
        ensures
            r == self.bytes(),
    {
        match self {
            ShmSize::Bytes(b) => *b,
            ShmSize::Spec(s) => match parse_size(s.as_str()) {
                Some(v) => v,
                None => DEFAULT_SHM,
            },
        }
    }
}

/// Number part and multiplier of a lowercased size.
pub open spec fn size_split(t: Seq<char>) -> (Seq<char>, i64) {
    if t.len() >= 2 && t.skip(t.len() - 2) == "kb"@ {
        (t.take(t.len() - 2), 1024)
    } else if t.len() >= 1 && t.last() == 'k' {
        (t.drop_last(), 1024)
    } else if t.len() >= 2 && t.skip(t.len() - 2) == "mb"@ {
        (t.take(t.len() - 2), 1048576)
    } else if t.len() >= 1 && t.last() == 'm' {
        (t.drop_last(), 1048576)
    } else if t.len() >= 2 && t.skip(t.len() - 2) == "gb"@ {
        (t.take(t.len() - 2), 1073741824)
    } else if t.len() >= 1 && t.last() == 'g' {
        (t.drop_last(), 1073741824)
    } else if t.len() >= 1 && t.last() == 'b' {
        (t.drop_last(), 1)
    } else {
        (t, 1)
    }
}

/// A trimmed, lowercased size like "512m", "1kb" or "100" in bytes (the
/// multiplication wraps on overflow).
pub open spec fn lowered_size(t: Seq<char>) -> Option<i64> {
    let (num, mult) = size_split(t);
    match parse_i64(trim(num)) {
        Some(n) => Some(n.wrapping_mul(mult)),
        None => None,
    }
}

/// A size like "512m", "1KB" or " 100 " in bytes.
pub open spec fn size_value(s: Seq<char>) -> Option<i64> {
    lowered_size(lowercase(trim(s)))
}

fn ends_with_lit(t: &Vec<char>, lit: &str) -> (r: bool)
    ensures
        r == (lit@.len() <= t@.len() && t@.skip(t@.len() - lit@.len()) == lit@),
{
    let l = chars_of(lit);
    ends_with_chars(t, &l)
}

/// A size unit as written after the number, in any letter case, and the
/// bytes it stands for.
pub open spec fn unit_bytes(u: Seq<char>) -> Option<i64> {
    let l = ascii_lower_seq(u);
    if l.len() == 0 || l == "b"@ {
        Some(1)
    } else if l == "k"@ || l == "kb"@ {
        Some(1024)
    } else if l == "m"@ || l == "mb"@ {
        Some(1048576)
    } else if l == "g"@ || l == "gb"@ {
        Some(1073741824)
    } else {
        None
    }
}

/// Only ASCII whitespace.
pub open spec fn ascii_blank(w: Seq<char>) -> bool {
    forall|k: int| 0 <= k < w.len() ==> is_ws(#[trigger] w[k]) && (w[k] as u32) < 128
}

proof fn lemma_trim_start_blank(w: Seq<char>, r: Seq<char>)
    requires
        ascii_blank(w),
    ensures
        crate::text::trim_start(w + r) == crate::text::trim_start(r),
    decreases w.len(),
{
    if w.len() > 0 {
        assert((w + r)[0] == w[0]);
        assert((w + r).drop_first() =~= w.drop_first() + r);
        lemma_trim_start_blank(w.drop_first(), r);
    } else {
        assert(w + r =~= r);
    }
}

proof fn lemma_trim_end_blank(l: Seq<char>, w: Seq<char>)
    requires
        ascii_blank(w),
    ensures
        crate::text::trim_end(l + w) == crate::text::trim_end(l),
    decreases w.len(),
{
    if w.len() > 0 {
        assert((l + w).last() == w.last());
        assert((l + w).drop_last() =~= l + w.drop_last());
        lemma_trim_end_blank(l, w.drop_last());
    } else {
        assert(l + w =~= l);
    }
}

proof fn lemma_lower_concat(a: Seq<char>, b: Seq<char>)
    ensures
        ascii_lower_seq(a + b) == ascii_lower_seq(a) + ascii_lower_seq(b),
{
    assert(ascii_lower_seq(a + b) =~= ascii_lower_seq(a) + ascii_lower_seq(b));
}

/// What `str::parse::<i64>` accepts: a sign or digit first, a digit
/// last, all ASCII and unchanged by lowercasing.
proof fn lemma_number_text(d: Seq<char>)
    requires
        parse_i64(d) is Some,
    ensures
        d.len() > 0,
        !is_ws(d[0]),
        !is_ws(d.last()),
        '0' <= d.last() <= '9',
        crate::text::is_ascii_seq(d),
        ascii_lower_seq(d) == d,
{
    let sign = d[0] == '-' || d[0] == '+';
    let dd = if sign {
        d.drop_first()
    } else {
        d
    };
    assert(dd.len() > 0 && crate::text::all_digits(dd));
    assert(dd.last() == d.last());
    assert('0' <= dd[dd.len() - 1] <= '9');
    assert forall|k: int| 0 <= k < d.len() implies (#[trigger] d[k] as u32) < 128 && (d[k] == '-'
        || d[k] == '+' || '0' <= d[k] <= '9') by {
        if sign && k == 0 {
        } else if sign {
            assert(d[k] == dd[k - 1]);
        } else {
            assert(d[k] == dd[k]);
        }
    }
    assert(ascii_lower_seq(d) =~= d);
}

proof fn lemma_unit_text(u: Seq<char>)
    requires
        unit_bytes(u) is Some,
    ensures
        u.len() <= 2,
        u.len() > 0 ==> !is_ws(u.last()),
        crate::text::is_ascii_seq(u),
{
    let l = ascii_lower_seq(u);
    reveal_strlit("b");
    reveal_strlit("k");
    reveal_strlit("kb");
    reveal_strlit("m");
    reveal_strlit("mb");
    reveal_strlit("g");
    reveal_strlit("gb");
    assert forall|k: int| 0 <= k < u.len() implies (#[trigger] u[k] as u32) < 128 && !is_ws(u[k]) by {
        assert(l[k] == crate::text::ascii_lower(u[k]));
        assert(l[k] == 'b' || l[k] == 'k' || l[k] == 'm' || l[k] == 'g');
    }
    if u.len() > 0 {
        assert(u.last() == u[u.len() - 1]);
    }
}

proof fn lemma_size_split_unit(p: Seq<char>, l: Seq<char>, m: i64)
    requires
        p.len() > 0,
        is_ws(p.last()) || '0' <= p.last() <= '9',
        unit_bytes(l) == Some(m),
        ascii_lower_seq(l) == l,
    ensures
        size_split(p + l) == (p, m),
{
    reveal_strlit("b");
    reveal_strlit("k");
    reveal_strlit("kb");
    reveal_strlit("m");
    reveal_strlit("mb");
    reveal_strlit("g");
    reveal_strlit("gb");
    let t = p + l;
    assert(!is_ws('b') && !is_ws('k') && !is_ws('m') && !is_ws('g'));
    if l.len() == 0 {
        assert(t =~= p);
        assert(t.last() == p.last());
        if t.len() >= 2 {
            assert(t.skip(t.len() - 2)[1] == p.last());
        }
    } else if l.len() == 1 {
        assert(t.last() == l[0]);
        assert(t.drop_last() =~= p);
        assert(t.skip(t.len() - 2)[0] == p.last());
        assert(t.skip(t.len() - 2)[1] == l[0]);
    } else {
        assert(t.take(t.len() - 2) =~= p);
        assert(t.skip(t.len() - 2) =~= l);
        assert(t.last() == l[1]);
    }
}

/// A size written as a number (as `str::parse::<i64>` reads one) and a
/// unit in any letter case, with ASCII whitespace before, between and
/// after, is ASCII text whose trimmed lowercase (which `parse_size` reads
/// such text as) is worth the number times the unit: wrapped past the
/// range of `i64`, exact within it.
pub proof fn lemma_written_size(
    w1: Seq<char>,
    d: Seq<char>,
    w2: Seq<char>,
    u: Seq<char>,
    w3: Seq<char>,
    n: i64,
    m: i64,
)
    requires
        ascii_blank(w1),
        ascii_blank(w2),
        ascii_blank(w3),
        parse_i64(d) == Some(n),
        unit_bytes(u) == Some(m),
    ensures
        crate::text::is_ascii_seq(w1 + d + w2 + u + w3),
        lowered_size(ascii_lower_seq(trim(w1 + d + w2 + u + w3))) == Some(n.wrapping_mul(m)),
        i64::MIN <= n * m <= i64::MAX ==> n.wrapping_mul(m) == n * m,
{
    lemma_number_text(d);
    lemma_unit_text(u);
    let s = w1 + d + w2 + u + w3;
    let l = ascii_lower_seq(u);
    assert(ascii_lower_seq(l) =~= l);
    assert(unit_bytes(l) == Some(m));
    assert forall|k: int| 0 <= k < s.len() implies (#[trigger] s[k] as u32) < 128 by {
        if k < w1.len() {
            assert(s[k] == w1[k]);
        } else if k < w1.len() + d.len() {
            assert(s[k] == d[k - w1.len()]);
        } else if k < w1.len() + d.len() + w2.len() {
            assert(s[k] == w2[k - w1.len() - d.len()]);
        } else if k < w1.len() + d.len() + w2.len() + u.len() {
            assert(s[k] == u[k - w1.len() - d.len() - w2.len()]);
        } else {
            assert(s[k] == w3[k - w1.len() - d.len() - w2.len() - u.len()]);
        }
    }
    // trimming
    let r = d + w2 + u;
    assert(s =~= w1 + (r + w3));
    lemma_trim_start_blank(w1, r + w3);
    assert((r + w3)[0] == d[0]);
    assert(crate::text::trim_start(r + w3) == r + w3);
    lemma_trim_end_blank(r, w3);
    lemma_trim_end_blank(d, w2);
    assert(d.last() == d[d.len() - 1]);
    let p = d + w2;
    let t0 = if u.len() > 0 {
        r
    } else {
        d
    };
    if u.len() > 0 {
        assert(r.last() == u.last());
    } else {
        assert(r =~= d + w2);
    }
    assert(trim(s) == t0);
    // lowering
    assert(ascii_lower_seq(w2) =~= w2) by {
        assert forall|k: int| 0 <= k < w2.len() implies ascii_lower_seq(w2)[k] == w2[k] by {
            assert(is_ws(w2[k]));
        }
    }
    lemma_lower_concat(d, w2);
    lemma_lower_concat(p, u);
    // splitting off the unit
    if u.len() > 0 {
        assert(r =~= p + u);
        if w2.len() > 0 {
            assert(p.last() == w2.last());
            assert(is_ws(w2[w2.len() - 1]));
        } else {
            assert(p =~= d);
        }
        lemma_size_split_unit(p, l, m);
        assert(ascii_lower_seq(t0) == p + l);
        assert(crate::text::trim_start(p)[0] == d[0]) by {
            assert(p[0] == d[0]);
        }
        assert(crate::text::trim_start(p) == p);
        assert(trim(p) == d);
    } else {
        assert(l =~= Seq::<char>::empty());
        assert(d + l =~= d);
        lemma_size_split_unit(d, l, m);
        assert(ascii_lower_seq(t0) == d);
        assert(crate::text::trim_start(d) == d);
        lemma_trim_end_blank(d, Seq::<char>::empty());
        assert(d + Seq::<char>::empty() =~= d);
        assert(trim(d) == d);
    }
    if i64::MIN <= n * m <= i64::MAX {
        assert(vstd::wrapping::i64_specs::signed_crop(n * m) == n * m) by (nonlinear_arith)
            requires
                i64::MIN <= n * m <= i64::MAX,
        ;
    }
}

/// Parse a size like "512m", "1KB" or " 100 " into bytes.
pub fn parse_size(s: &str) -> (r: Option<i64>)
    ensures
        r == size_value(s@),
        crate::text::is_ascii_seq(s@) ==> r == lowered_size(ascii_lower_seq(trim(s@))),
{
    let trimmed = crate::text::trim_str(s);
    let lower = to_lowercase(trimmed.as_str());
    proof {
        crate::text::lemma_trim_ascii(s@);
    }
    size_of_lowered(lower.as_str())
}

/// The bytes a trimmed, lowercased size stands for: a `k`/`kb`, `m`/`mb`,
/// `g`/`gb` or `b` suffix picks the unit, the rest (trimmed) is the number.
pub fn size_of_lowered(t: &str) -> (r: Option<i64>)
    ensures
        r == lowered_size(t@),
{
    let t = chars_of(t);
    let n = t.len();
    proof {
        reveal_strlit("kb");
        reveal_strlit("mb");
        reveal_strlit("gb");
    }
    let (num, mult): (Vec<char>, i64) = if ends_with_lit(&t, "kb") {
        (slice_chars(&t, 0, n - 2), 1024)
    } else if n >= 1 && t[n - 1] == 'k' {
        (slice_chars(&t, 0, n - 1), 1024)
    } else if ends_with_lit(&t, "mb") {
        (slice_chars(&t, 0, n - 2), 1048576)
    } else if n >= 1 && t[n - 1] == 'm' {
        (slice_chars(&t, 0, n - 1), 1048576)
    } else if ends_with_lit(&t, "gb") {
        (slice_chars(&t, 0, n - 2), 1073741824)
    } else if n >= 1 && t[n - 1] == 'g' {
        (slice_chars(&t, 0, n - 1), 1073741824)
    } else if n >= 1 && t[n - 1] == 'b' {
        (slice_chars(&t, 0, n - 1), 1)
    } else {
        (slice_chars(&t, 0, n), 1)
    };
    proof {
        assert(t@.subrange(0, n - 1) == t@.drop_last() || n < 1);
        assert(t@.subrange(0, n as int) == t@);
        assert(t@.subrange(0, n - 2) == t@.take(n - 2) || n < 2);
    }
    let tn = trim_chars(&num);
    match parse_i64_chars(&tn) {
        Some(v) => Some(v.wrapping_mul(mult)),
        None => None,
    }
}

// ---------------------------------------------------------------- templates

/// ASCII letters, digits and `_` may form a `$NAME` reference.
pub open spec fn is_ident_char(c: char) -> bool {
    ('a' <= c <= 'z') || ('A' <= c <= 'Z') || ('0' <= c <= '9') || c == '_'
}

/// Length of the leading run of name characters.
pub open spec fn ident_len(s: Seq<char>) -> nat
    decreases s.len(),
{
    if s.len() > 0 && is_ident_char(s[0]) {
        1 + ident_len(s.drop_first())
    } else {
        0
    }
}

pub open spec fn opt_seq(o: Option<Seq<char>>) -> Seq<char> {
    match o {
        Some(v) => v,
        None => Seq::<char>::empty(),
    }
}

/// `${VAR}` and `$VAR` references in `s` replaced by `env`'s value (empty
/// when unset); a `$` not followed by a name stays, and an unclosed `${`
/// keeps the rest of the text verbatim.
pub open spec fn expand(s: Seq<char>, env: spec_fn(Seq<char>) -> Option<Seq<char>>) -> Seq<char>
    decreases s.len(),
{
    match first_index(s, '$') {
        None => s,
        Some(p) => {
            proof {
                crate::text::lemma_first_index(s, '$');
            }
            let pre = s.take(p as int);
            let after = s.skip(p as int + 1);
            if after.len() > 0 && after[0] == '{' {
                proof {
                    crate::text::lemma_first_index(after, '}');
                }
                match first_index(after, '}') {
                    None => pre + seq!['$'] + after,
                    Some(e) => if 1 <= e {
                        pre + opt_seq(env(after.subrange(1, e as int))) + expand(
                            after.skip(e as int + 1),
                            env,
                        )
                    } else {
                        pre
                    },
                }
            } else {
                let e = ident_len(after);
                proof {
                    lemma_ident_len_le(after);
                }
                if e == 0 {
                    pre + seq!['$'] + expand(after, env)
                } else {
                    pre + opt_seq(env(after.take(e as int))) + expand(after.skip(e as int), env)
                }
            }
        },
    }
}

/// `env` agrees with every answer the lookup closure can give.
pub open spec fn consistent<F: Fn(&str) -> Option<String>>(
    f: F,
    env: spec_fn(Seq<char>) -> Option<Seq<char>>,
) -> bool {
    forall|k: &str, r: Option<String>| f.ensures((k,), r) ==> opt_view(r) == env(k@)
}

fn is_ident(c: char) -> (r: bool)
    ensures
        r == is_ident_char(c),
{
    ('a' <= c && c <= 'z') || ('A' <= c && c <= 'Z') || ('0' <= c && c <= '9') || c == '_'
}

pub proof fn lemma_ident_len_le(s: Seq<char>)
    ensures
        ident_len(s) <= s.len(),
    decreases s.len(),
{
    if s.len() > 0 && is_ident_char(s[0]) {
        lemma_ident_len_le(s.drop_first());
    }
}

proof fn lemma_ident_len(s: Seq<char>, i: int)
    requires
        0 <= i <= s.len(),
        forall|k: int| 0 <= k < i ==> is_ident_char(#[trigger] s[k]),
        i == s.len() || !is_ident_char(s[i]),
    ensures
        ident_len(s) == i,
    decreases i,
{
    if i > 0 {
        lemma_ident_len(s.drop_first(), i - 1);
    }
}

fn lookup_text<F: Fn(&str) -> Option<String>>(lookup: &F, name: &Vec<char>, out: &mut String)
    requires
        forall|k: &str| lookup.requires((k,)),
    ensures
        forall|env: spec_fn(Seq<char>) -> Option<Seq<char>>|
            consistent(*lookup, env) ==> final(out)@ == old(out)@ + opt_seq(#[trigger] env(name@)),
{
    let name_s = string_of(name);
    let val = lookup(name_s.as_str());
    let ghost out1 = out@;
    match val {
        Some(x) => {
            let xv = chars_of(x.as_str());
            push_chars(out, &xv);
        },
        None => {},
    }
    assert(out@ == out1 + opt_seq(opt_view(val)));
}

/// One expansion step from `pos`: appends the text up to and including the
/// next reference to `out` and says where to continue (`None`: done).
fn expand_step<F: Fn(&str) -> Option<String>>(
    v: &Vec<char>,
    pos: usize,
    out: &mut String,
    lookup: &F,
) -> (r: Option<usize>)
    requires
        pos <= v.len(),
        forall|k: &str| lookup.requires((k,)),
    ensures
        match r {
            Some(np) => pos < np <= v.len(),
            None => true,
        },
        forall|env: spec_fn(Seq<char>) -> Option<Seq<char>>|
            consistent(*lookup, env) ==> old(out)@ + #[trigger] expand(v@.skip(pos as int), env)
                == final(out)@ + match r {
                Some(np) => expand(v@.skip(np as int), env),
                None => Seq::<char>::empty(),
            },
{
    let rest = slice_chars(v, pos, v.len());
    assert(rest@ == v@.skip(pos as int));
    proof {
        crate::text::lemma_first_index(rest@, '$');
    }
    match first_pos(&rest, '$') {
        None => {
            push_chars(out, &rest);
            None
        },
        Some(start) => {
            let pre = slice_chars(&rest, 0, start);
            push_chars(out, &pre);
            let after = slice_chars(&rest, start + 1, rest.len());
            assert(after@ == rest@.skip(start + 1));
            if after.len() > 0 && after[0] == '{' {
                proof {
                    crate::text::lemma_first_index(after@, '}');
                }
                match first_pos(&after, '}') {
                    None => {
                        push_char(out, '$');
                        push_chars(out, &after);
                        None
                    },
                    Some(end) => {
                        let name = slice_chars(&after, 1, end);
                        lookup_text(lookup, &name, out);
                        assert(after@.skip(end + 1) == v@.skip(pos + start + 1 + end + 1));
                        Some(pos + start + 1 + end + 1)
                    },
                }
            } else {
                let mut e: usize = 0;
                while e < after.len() && is_ident(after[e])
                    invariant
                        e <= after.len(),
                        forall|k: int| 0 <= k < e ==> is_ident_char(#[trigger] after@[k]),
                    decreases after.len() - e,
                {
                    e += 1;
                }
                proof {
                    lemma_ident_len(after@, e as int);
                }
                if e == 0 {
                    push_char(out, '$');
                    assert(after@ == v@.skip(pos + start + 1));
                    Some(pos + start + 1)
                } else {
                    let name = slice_chars(&after, 0, e);
                    lookup_text(lookup, &name, out);
                    assert(after@.skip(e as int) == v@.skip(pos + start + 1 + e));
                    Some(pos + start + 1 + e)
                }
            }
        },
    }
}

/// Template expansion with an explicit variable lookup.
pub fn expand_with<F: Fn(&str) -> Option<String>>(s: &str, lookup: F) -> (r: String)
    requires
        forall|k: &str| lookup.requires((k,)),
    ensures
        forall|env: spec_fn(Seq<char>) -> Option<Seq<char>>|
            consistent(lookup, env) ==> r@ == #[trigger] expand(s@, env),
{
    let v = chars_of(s);
    let mut out = String::new();
    let mut pos: usize = 0;
    assert(v@.skip(0) == v@);
    loop
        invariant
            pos <= v.len(),
            v@ == s@,
            forall|k: &str| lookup.requires((k,)),
            forall|env: spec_fn(Seq<char>) -> Option<Seq<char>>|
                consistent(lookup, env) ==> #[trigger] expand(s@, env) == out@ + expand(
                    v@.skip(pos as int),
                    env,
                ),
        decreases v.len() - pos,
    {
        let ghost out0 = out@;
        let step = expand_step(&v, pos, &mut out, &lookup);
        match step {
            Some(np) => {
                pos = np;
            },
            None => {
                assert forall|env: spec_fn(Seq<char>) -> Option<Seq<char>>|
                    consistent(lookup, env) implies out@ == #[trigger] expand(s@, env) by {
                    assert(out0 + expand(v@.skip(pos as int), env) == out@ + Seq::<char>::empty());
                    assert(out@ + Seq::<char>::empty() == out@);
                }
                return out;
            },
        }
    }
}

/// `${VAR}` / `$VAR` expansion against a list of variables (the first
/// entry with a name wins).
pub open spec fn expand_vars(s: Seq<char>, env: Seq<(String, String)>) -> Seq<char> {
    expand(s, |k: Seq<char>| label_get(env, k))
}

/// Expands a template against a list of variables.
pub fn expand_template(s: &str, env: &Vec<(String, String)>) -> (r: String)
    ensures
        r@ == expand_vars(s@, env@),
{
    let f = |k: &str| -> (r: Option<String>)
        ensures
            opt_view(r) == label_get(env@, k@),
        { crate::model::label_lookup(env, k) };
    let r = expand_with(s, f);
    proof {
        let h = |k: Seq<char>| label_get(env@, k);
        assert(consistent(f, h));
        assert(r@ == expand(s@, h));
    }
    r
}


// ---------------------------------------------------------------- ports

/// One host binding of a container port.
pub struct PortBinding {
    pub host_ip: Option<String>,
    pub host_port: Option<String>,
}

impl Clone for PortBinding {
    fn clone(&self) -> (r: Self)
        ensures
            r == *self,
    {
        PortBinding { host_ip: clone_opt(&self.host_ip), host_port: clone_opt(&self.host_port) }
    }
}

pub type BindingView = (Option<Seq<char>>, Option<Seq<char>>);

impl View for PortBinding {
    type V = BindingView;

    open spec fn view(&self) -> BindingView {
        (opt_view(self.host_ip), opt_view(self.host_port))
    }
}

/// Whether a port (or `a-b` range) is made of valid port numbers.
pub open spec fn numeric_port(p: Seq<char>) -> bool {
    p.len() > 0 && forall|i: int|
        0 <= i < split_on(p, '-').len() ==> (#[trigger] parse_u16(split_on(p, '-')[i])) is Some
}

pub open spec fn port_check(
    ip: Option<Seq<char>>,
    hp: Seq<char>,
    cp: Seq<char>,
    proto: Seq<char>,
) -> Option<(Seq<char>, BindingView)> {
    if numeric_port(hp) && numeric_port(cp) {
        Some((cp + "/"@ + proto, (ip, Some(hp))))
    } else {
        None
    }
}

/// A docker-style port spec `[host_ip:]host_port:container_port[/proto]`
/// as (container key like `80/tcp`, binding).
pub open spec fn port_spec(spec: Seq<char>) -> Option<(Seq<char>, BindingView)> {
    let s = trim(spec);
    let split = match last_index(s, '/') {
        Some(i) => {
            let p = ascii_lower_seq(s.skip(i as int + 1));
            if p == "tcp"@ || p == "udp"@ {
                Some((s.take(i as int), p))
            } else {
                None
            }
        },
        None => Some((s, "tcp"@)),
    };
    match split {
        None => None,
        Some((container, proto)) => {
            let parts = split_on(container, ':');
            if parts.len() == 2 {
                port_check(None, parts[0], parts[1], proto)
            } else if parts.len() == 3 {
                if parts[0].len() == 0 {
                    None
                } else {
                    port_check(Some(parts[0]), parts[1], parts[2], proto)
                }
            } else {
                None
            }
        },
    }
}

fn numeric_port_exec(p: &Vec<char>) -> (r: bool)
    ensures
        r == numeric_port(p@),
{
    if p.len() == 0 {
        return false;
    }
    let pieces = split_chars(p, '-');
    let mut i: usize = 0;
    while i < pieces.len()
        invariant
            i <= pieces.len(),
            views(pieces@) == split_on(p@, '-'),
            forall|k: int| 0 <= k < i ==> (#[trigger] parse_u16(split_on(p@, '-')[k])) is Some,
        decreases pieces.len() - i,
    {
        assert(views(pieces@)[i as int] == pieces@[i as int]@);
        if parse_u16_chars(&pieces[i]).is_none() {
            return false;
        }
        i += 1;
    }
    true
}

fn lit_chars(s: &str) -> (r: Vec<char>)
    ensures
        r@ == s@,
{
    chars_of(s)
}

/// Parse a docker-style port spec `[host_ip:]host_port:container_port[/proto]`.
pub fn parse_port(spec: &str) -> (r: Option<(String, PortBinding)>)
    ensures
        match r {
            Some((k, b)) => port_spec(spec@) == Some((k@, b@)),
            None => port_spec(spec@) is None,
        },
{
    let raw = chars_of(spec);
    let s = trim_chars(&raw);
    proof {
        crate::text::lemma_last_index(s@, '/');
    }
    let (container, proto): (Vec<char>, Vec<char>) = match last_pos(&s, '/') {
        Some(i) => {
            assert(i < s@.len());
            assert(i < s.len());
            let p = slice_chars(&s, i + 1, s.len());
            let lp = ascii_lower_chars(&p);
            let tcp = lit_chars("tcp");
            let udp = lit_chars("udp");
            assert(p@ == s@.skip(i + 1));
            if crate::text::chars_eq(&lp, &tcp) || crate::text::chars_eq(&lp, &udp) {
                (slice_chars(&s, 0, i), lp)
            } else {
                return None;
            }
        },
        None => (slice_chars(&s, 0, s.len()), lit_chars("tcp")),
    };
    assert(s@.subrange(0, s@.len() as int) == s@);
    let parts = split_chars(&container, ':');
    let (ip, hp, cp): (Option<&Vec<char>>, &Vec<char>, &Vec<char>) = if parts.len() == 2 {
        (None, &parts[0], &parts[1])
    } else if parts.len() == 3 {
        if parts[0].len() == 0 {
            return None;
        }
        (Some(&parts[0]), &parts[1], &parts[2])
    } else {
        return None;
    };
    assert(views(parts@)[0] == parts@[0]@);
    assert(views(parts@)[1] == parts@[1]@);
    assert(parts@.len() == 3 ==> views(parts@)[2] == parts@[2]@);
    if !numeric_port_exec(hp) || !numeric_port_exec(cp) {
        return None;
    }
    let mut key = string_of(cp);
    push_char(&mut key, '/');
    push_chars(&mut key, &proto);
    proof {
        reveal_strlit("/");
        assert(key@ == cp@ + "/"@ + proto@);
    }
    let binding = PortBinding {
        host_ip: match ip {
            Some(v) => Some(string_of(v)),
            None => None,
        },
        host_port: Some(string_of(hp)),
    };
    Some((key, binding))
}

pub type PortMapView = Seq<(Seq<char>, Seq<BindingView>)>;

/// Position of `key` among the map's entries.
pub open spec fn key_pos(m: PortMapView, key: Seq<char>) -> Option<nat>
    decreases m.len(),
{
    if m.len() == 0 {
        None
    } else if m.last().0 == key {
        match key_pos(m.drop_last(), key) {
            Some(i) => Some(i),
            None => Some((m.len() - 1) as nat),
        }
    } else {
        key_pos(m.drop_last(), key)
    }
}

/// `m` with `b` appended to `key`'s bindings (a new entry at the end when
/// the key is new).
pub open spec fn pm_add(m: PortMapView, key: Seq<char>, b: BindingView) -> PortMapView {
    match key_pos(m, key) {
        Some(i) => m.update(i as int, (key, m[i as int].1.push(b))),
        None => m.push((key, seq![b])),
    }
}

/// How a published port reads: `ip:port -> container port`, with
/// `0.0.0.0` and `?` standing in for what the binding leaves out.
pub open spec fn binding_line(cport: Seq<char>, b: BindingView) -> Seq<char> {
    (match b.0 {
        Some(ip) => ip,
        None => "0.0.0.0"@,
    }) + ":"@ + (match b.1 {
        Some(p) => p,
        None => "?"@,
    }) + " -> "@ + cport
}

/// Container ports with their host bindings, in first-seen order.
pub struct PortMap {
    pub entries: Vec<(String, Vec<PortBinding>)>,
}

impl View for PortMap {
    type V = PortMapView;

    open spec fn view(&self) -> PortMapView {
        self.entries@.map_values(
            |e: (String, Vec<PortBinding>)| (e.0@, e.1@.map_values(|b: PortBinding| b@)),
        )
    }
}

pub proof fn lemma_key_pos(m: PortMapView, key: Seq<char>)
    ensures
        match key_pos(m, key) {
            Some(i) => i < m.len() && m[i as int].0 == key && forall|k: int|
                0 <= k < i ==> m[k].0 != key,
            None => forall|k: int| 0 <= k < m.len() ==> m[k].0 != key,
        },
    decreases m.len(),
{
    if m.len() > 0 {
        lemma_key_pos(m.drop_last(), key);
        assert forall|k: int| 0 <= k < m.len() - 1 implies m[k] == m.drop_last()[k] by {}
    }
}

impl PortMap {
    pub fn new() -> (r: PortMap)
        ensures
            r@ == Seq::<(Seq<char>, Seq<BindingView>)>::empty(),
    {
        let r = PortMap { entries: Vec::new() };
        assert(r@ =~= Seq::<(Seq<char>, Seq<BindingView>)>::empty());
        r
    }

    pub fn len(&self) -> (n: usize)
        ensures
            n == self@.len(),
    {
        self.entries.len()
    }

    fn find(&self, key: &str) -> (r: Option<usize>)
        ensures
            match r {
                Some(i) => key_pos(self@, key@) == Some(i as nat),
                None => key_pos(self@, key@) is None,
            },
    {
        proof {
            lemma_key_pos(self@, key@);
        }
        let mut i: usize = 0;
        while i < self.entries.len()
            invariant
                i <= self.entries.len(),
                forall|k: int| 0 <= k < i ==> self@[k].0 != key@,
            decreases self.entries.len() - i,
        {
            assert(self@[i as int].0 == self.entries@[i as int].0@);
            proof {
                lemma_key_pos(self@, key@);
            }
            if eq_str(self.entries[i].0.as_str(), key) {
                proof {
                    match key_pos(self@, key@) {
                        Some(j) => {
                            if (j as int) < (i as int) {
                                assert(self@[j as int].0 != key@);
                            }
                            if (j as int) > (i as int) {
                                assert(self@[i as int].0 == key@);
                            }
                        },
                        None => {
                            assert(self@[i as int].0 == key@);
                        },
                    }
                }
                return Some(i);
            }
            i += 1;
        }
        proof {
            if key_pos(self@, key@) is Some {
                let j = key_pos(self@, key@)->0;
                assert(self@[j as int].0 == key@);
            }
        }
        None
    }

    pub fn contains_key(&self, key: &str) -> (r: bool)
        ensures
            r == key_pos(self@, key@) is Some,
    {
        self.find(key).is_some()
    }

    /// Adds a host binding for a container port.
    pub fn add(&mut self, key: String, b: PortBinding)
        ensures
            final(self)@ == pm_add(old(self)@, key@, b@),
    {
        proof {
            lemma_key_pos(self@, key@);
        }
        match self.find(key.as_str()) {
            Some(i) => {
                let ghost before = self@;
                let ghost ebefore = self.entries@;
                let mut bs: Vec<PortBinding> = Vec::new();
                let mut k: usize = 0;
                while k < self.entries[i].1.len()
                    invariant
                        i < self.entries.len(),
                        self.entries@ == ebefore,
                        k <= self.entries@[i as int].1.len(),
                        bs@.map_values(|b: PortBinding| b@) == self.entries@[i as int].1@.map_values(
                            |b: PortBinding| b@,
                        ).take(k as int),
                    decreases self.entries@[i as int].1.len() - k,
                {
                    let ghost bb = bs@;
                    let c = self.entries[i].1[k].clone();
                    bs.push(c);
                    proof {
                        crate::text::lemma_map_push(bb, c, |b: PortBinding| b@);
                        assert(self.entries@[i as int].1@.map_values(|b: PortBinding| b@).take(k + 1)
                            == self.entries@[i as int].1@.map_values(|b: PortBinding| b@).take(k as int).push(self.entries@[i as int].1@[k as int]@));
                    }
                    k += 1;
                }
                assert(self.entries@[i as int].1@.map_values(|b: PortBinding| b@).take(k as int)
                    == self.entries@[i as int].1@.map_values(|b: PortBinding| b@));
                let ghost bv = b@;
                let ghost bsv = bs@;
                bs.push(b);
                proof {
                    crate::text::lemma_map_push(bsv, b, |b: PortBinding| b@);
                }
                let entry = (key, bs);
                self.entries.set(i, entry);
                proof {
                    let f = |e: (String, Vec<PortBinding>)| (e.0@, e.1@.map_values(|b: PortBinding| b@));
                    crate::text::lemma_map_update(ebefore, i as int, entry, f);
                    assert(before[i as int].1 == ebefore[i as int].1@.map_values(|b: PortBinding| b@));
                }
            },
            None => {
                let ghost before = self@;
                let ghost ebefore = self.entries@;
                let ghost bv = b@;
                let mut v = Vec::new();
                v.push(b);
                assert(v@.map_values(|b: PortBinding| b@) =~= seq![bv]);
                let entry = (key, v);
                self.entries.push(entry);
                proof {
                    let f = |e: (String, Vec<PortBinding>)| (e.0@, e.1@.map_values(|b: PortBinding| b@));
                    crate::text::lemma_map_push(ebefore, entry, f);
                }
            },
        }
    }

    /// The container ports, in order.
    pub fn keys(&self) -> (r: Vec<String>)
        ensures
            strs(r@) == self@.map_values(|e: (Seq<char>, Seq<BindingView>)| e.0),
    {
        let mut r: Vec<String> = Vec::new();
        let mut i: usize = 0;
        while i < self.entries.len()
            invariant
                i <= self.entries.len(),
                strs(r@) == self@.map_values(|e: (Seq<char>, Seq<BindingView>)| e.0).take(i as int),
            decreases self.entries.len() - i,
        {
            let ghost before = r@;
            let k = self.entries[i].0.clone();
            r.push(k);
            proof {
                crate::text::lemma_map_push(before, k, |x: String| x@);
                crate::text::lemma_map_take_succ(self@, i as int, |e: (Seq<char>, Seq<BindingView>)| e.0);
            }
            i += 1;
        }
        assert(self@.map_values(|e: (Seq<char>, Seq<BindingView>)| e.0).take(self@.len() as int)
            == self@.map_values(|e: (Seq<char>, Seq<BindingView>)| e.0));
        r
    }
}

impl Clone for PortMap {
    fn clone(&self) -> (r: Self)
        ensures
            r@ == self@,
    {
        let mut entries: Vec<(String, Vec<PortBinding>)> = Vec::new();
        let mut i: usize = 0;
        while i < self.entries.len()
            invariant
                i <= self.entries.len(),
                (PortMap { entries })@ == self@.take(i as int),
            decreases self.entries.len() - i,
        {
            let ghost before = (PortMap { entries })@;
            let mut bs: Vec<PortBinding> = Vec::new();
            let mut j: usize = 0;
            while j < self.entries[i].1.len()
                invariant
                    i < self.entries.len(),
                    j <= self.entries@[i as int].1.len(),
                    bs@.map_values(|b: PortBinding| b@) == self.entries@[i as int].1@.map_values(
                        |b: PortBinding| b@,
                    ).take(j as int),
                decreases self.entries@[i as int].1.len() - j,
            {
                let ghost before = bs@;
                let c = self.entries[i].1[j].clone();
                bs.push(c);
                proof {
                    crate::text::lemma_map_push(before, c, |b: PortBinding| b@);
                    assert(self.entries@[i as int].1@.map_values(|b: PortBinding| b@).take(j + 1)
                        == self.entries@[i as int].1@.map_values(|b: PortBinding| b@).take(j as int).push(self.entries@[i as int].1@[j as int]@));
                }
                j += 1;
            }
            assert(self.entries@[i as int].1@.map_values(|b: PortBinding| b@).take(j as int)
                == self.entries@[i as int].1@.map_values(|b: PortBinding| b@));
            let ghost ebefore = entries@;
            let e = (self.entries[i].0.clone(), bs);
            entries.push(e);
            proof {
                let f = |e: (String, Vec<PortBinding>)| (e.0@, e.1@.map_values(|b: PortBinding| b@));
                crate::text::lemma_map_push(ebefore, e, f);
                assert(self@.take(i + 1) == self@.take(i as int).push(self@[i as int]));
            }
            i += 1;
        }
        assert(self@.take(self@.len() as int) == self@);
        PortMap { entries }
    }
}

/// The bindings a list of port specs makes (invalid specs are skipped).
pub open spec fn bindings_of(ports: Seq<Seq<char>>) -> PortMapView
    decreases ports.len(),
{
    if ports.len() == 0 {
        Seq::empty()
    } else {
        let m = bindings_of(ports.drop_last());
        match port_spec(ports.last()) {
            Some((k, b)) => pm_add(m, k, b),
            None => m,
        }
    }
}

/// Builds the port map for a list of port specs.
pub fn port_map_of(ports: &Vec<String>) -> (r: PortMap)
    ensures
        r@ == bindings_of(strs(ports@)),
{
    let mut m = PortMap::new();
    let mut i: usize = 0;
    while i < ports.len()
        invariant
            i <= ports.len(),
            m@ == bindings_of(strs(ports@).take(i as int)),
        decreases ports.len() - i,
    {
        assert(strs(ports@).take(i + 1).drop_last() == strs(ports@).take(i as int));
        assert(strs(ports@).take(i + 1).last() == ports@[i as int]@);
        if let Some((k, b)) = parse_port(ports[i].as_str()) {
            m.add(k, b);
        }
        i += 1;
    }
    assert(strs(ports@).take(ports@.len() as int) == strs(ports@));
    m
}

// ---------------------------------------------------------------- restart

#[derive(Clone, Copy, PartialEq, Eq, Structural)]
pub enum RestartName {
    No,
    Always,
    UnlessStopped,
    OnFailure,
}

#[derive(Clone, Copy, PartialEq, Eq, Structural)]
pub struct RestartPolicy {
    pub name: Option<RestartName>,
    pub maximum_retry_count: Option<i64>,
}

/// The restart policy a `restart:` value asks for.
pub open spec fn restart_of(r: Seq<char>) -> Option<RestartPolicy> {
    if r == "always"@ {
        Some(RestartPolicy { name: Some(RestartName::Always), maximum_retry_count: None })
    } else if r == "unless-stopped"@ {
        Some(RestartPolicy { name: Some(RestartName::UnlessStopped), maximum_retry_count: None })
    } else if r == "on-failure"@ {
        Some(RestartPolicy { name: Some(RestartName::OnFailure), maximum_retry_count: None })
    } else if r.len() >= 11 && r.take(11) == "on-failure:"@ {
        Some(
            RestartPolicy {
                name: Some(RestartName::OnFailure),
                maximum_retry_count: match parse_i64(r.skip(11)) {
                    Some(n) => Some(
                        if n < 0 {
                            0
                        } else if n > 100 {
                            100
                        } else {
                            n
                        },
                    ),
                    None => None,
                },
            },
        )
    } else {
        None
    }
}

fn restart_policy_of(r: &str) -> (p: Option<RestartPolicy>)
    ensures
        p == restart_of(r@),
{
    if eq_str(r, "always") {
        return Some(RestartPolicy { name: Some(RestartName::Always), maximum_retry_count: None });
    }
    if eq_str(r, "unless-stopped") {
        return Some(
            RestartPolicy { name: Some(RestartName::UnlessStopped), maximum_retry_count: None },
        );
    }
    if eq_str(r, "on-failure") {
        return Some(RestartPolicy { name: Some(RestartName::OnFailure), maximum_retry_count: None });
    }
    let v = chars_of(r);
    let pre = lit_chars("on-failure:");
    proof {
        reveal_strlit("on-failure:");
    }
    if !starts_with_chars(&v, &pre) {
        return None;
    }
    let rest = slice_chars(&v, 11, v.len());
    assert(rest@ == v@.skip(11));
    let n = match parse_i64_chars(&rest) {
        Some(n) => Some(
            if n < 0 {
                0
            } else if n > 100 {
                100
            } else {
                n
            },
        ),
        None => None,
    };
    Some(RestartPolicy { name: Some(RestartName::OnFailure), maximum_retry_count: n })
}

// ---------------------------------------------------------------- host / config

/// Host settings of a container the library reads or sets; `base` holds
/// the daemon's full host configuration when the spec came from an
/// inspect, so settings not listed here pass through a recreate.
pub struct HostSpec {
    pub privileged: Option<bool>,
    pub device_requests: Option<Vec<GpuRequest>>,
    pub binds: Option<Vec<String>>,
    pub port_bindings: Option<PortMap>,
    pub network_mode: Option<String>,
    pub pid_mode: Option<String>,
    pub ipc_mode: Option<String>,
    pub auto_remove: Option<bool>,
    pub restart_policy: Option<RestartPolicy>,
    pub shm_size: Option<i64>,
    pub base: Option<bollard::models::HostConfig>,
}

impl HostSpec {
    pub fn empty() -> (r: HostSpec)
        ensures
            r.privileged is None,
            r.device_requests is None,
            r.binds is None,
            r.port_bindings is None,
            r.network_mode is None,
            r.pid_mode is None,
            r.ipc_mode is None,
            r.auto_remove is None,
            r.restart_policy is None,
            r.shm_size is None,
            r.base is None,
    {
        HostSpec {
            privileged: None,
            device_requests: None,
            binds: None,
            port_bindings: None,
            network_mode: None,
            pid_mode: None,
            ipc_mode: None,
            auto_remove: None,
            restart_policy: None,
            shm_size: None,
            base: None,
        }
    }

    /// The container ports and bindings (none when unset).
    pub open spec fn ports(&self) -> PortMapView {
        match self.port_bindings {
            Some(m) => m@,
            None => Seq::empty(),
        }
    }
}

/// Host settings the edit form leaves alone agree.
pub open spec fn same_host_rest(a: HostSpec, b: HostSpec) -> bool {
    &&& opt_strs(a.binds) == opt_strs(b.binds)
    &&& a.pid_mode == b.pid_mode
    &&& a.ipc_mode == b.ipc_mode
    &&& a.auto_remove == b.auto_remove
    &&& a.restart_policy == b.restart_policy
    &&& a.shm_size == b.shm_size
    &&& a.base == b.base
}

/// Two host settings agree in every respect.
pub open spec fn same_host(a: HostSpec, b: HostSpec) -> bool {
    &&& same_host_rest(a, b)
    &&& a.privileged == b.privileged
    &&& same_requests(a.device_requests, b.device_requests)
    &&& (a.port_bindings is Some <==> b.port_bindings is Some)
    &&& a.ports() == b.ports()
    &&& a.network_mode == b.network_mode
}

impl Clone for HostSpec {
    fn clone(&self) -> (r: Self)
        ensures
            same_host(r, *self),
    {
        HostSpec {
            privileged: self.privileged,
            device_requests: match &self.device_requests {
                Some(v) => Some(clone_requests(v)),
                None => None,
            },
            binds: clone_opt_strings(&self.binds),
            port_bindings: match &self.port_bindings {
                Some(m) => Some(m.clone()),
                None => None,
            },
            network_mode: clone_opt(&self.network_mode),
            pid_mode: clone_opt(&self.pid_mode),
            ipc_mode: clone_opt(&self.ipc_mode),
            auto_remove: self.auto_remove,
            restart_policy: self.restart_policy,
            shm_size: self.shm_size,
            base: match &self.base {
                Some(h) => Some(clone_host_config(h)),
                None => None,
            },
        }
    }
}

/// A container create request.
pub struct ContainerConfig {
    pub image: Option<String>,
    pub env: Option<Vec<String>>,
    pub cmd: Option<Vec<String>>,
    pub entrypoint: Option<Vec<String>>,
    pub working_dir: Option<String>,
    pub user: Option<String>,
    pub tty: Option<bool>,
    pub open_stdin: Option<bool>,
    pub attach_stdin: Option<bool>,
    pub attach_stdout: Option<bool>,
    pub attach_stderr: Option<bool>,
    pub labels: Option<Vec<(String, String)>>,
    pub exposed_ports: Option<Vec<String>>,
    pub host_config: Option<HostSpec>,
}

/// Everything needed to (re)create a container, captured from an inspect
/// response or the edit form.
pub struct ContainerSpec {
    pub name: Option<String>,
    pub image: Option<String>,
    pub cmd: Option<Vec<String>>,
    pub entrypoint: Option<Vec<String>>,
    pub env: Vec<String>,
    pub labels: Vec<(String, String)>,
    pub user: Option<String>,
    pub working_dir: Option<String>,
    pub tty: bool,
    pub host: HostSpec,
}

/// Two creation specs agree in every respect.
pub open spec fn same_spec(a: ContainerSpec, b: ContainerSpec) -> bool {
    &&& a.name == b.name
    &&& a.image == b.image
    &&& opt_strs(a.cmd) == opt_strs(b.cmd)
    &&& opt_strs(a.entrypoint) == opt_strs(b.entrypoint)
    &&& a.env@ == b.env@
    &&& a.labels@ == b.labels@
    &&& a.user == b.user
    &&& a.working_dir == b.working_dir
    &&& a.tty == b.tty
    &&& same_host(a.host, b.host)
}

impl Clone for ContainerSpec {
    fn clone(&self) -> (r: Self)
        ensures
            same_spec(r, *self),
    {
        ContainerSpec {
            name: clone_opt(&self.name),
            image: clone_opt(&self.image),
            cmd: clone_opt_strings(&self.cmd),
            entrypoint: clone_opt_strings(&self.entrypoint),
            env: crate::model::clone_strings(&self.env),
            labels: crate::model::clone_labels(&self.labels),
            user: clone_opt(&self.user),
            working_dir: clone_opt(&self.working_dir),
            tty: self.tty,
            host: self.host.clone(),
        }
    }
}

impl ContainerSpec {
    /// The create request for this spec: exposed ports are the bound ones,
    /// empty env and labels are left unset.
    pub fn to_config(&self) -> (r: ContainerConfig)
        ensures
            r.image == self.image,
            self.env@.len() == 0 ==> r.env is None,
            self.env@.len() > 0 ==> r.env is Some && r.env->0@ == self.env@,
            opt_strs(r.cmd) == opt_strs(self.cmd),
            opt_strs(r.entrypoint) == opt_strs(self.entrypoint),
            r.working_dir == self.working_dir,
            r.user == self.user,
            r.tty == Some(self.tty),
            r.open_stdin is None && r.attach_stdin is None && r.attach_stdout is None
                && r.attach_stderr is None,
            self.labels@.len() == 0 ==> r.labels is None,
            self.labels@.len() > 0 ==> r.labels is Some && r.labels->0@ == self.labels@,
            self.host.ports().len() == 0 ==> r.exposed_ports is None,
            self.host.ports().len() > 0 ==> r.exposed_ports is Some && strs(r.exposed_ports->0@)
                == self.host.ports().map_values(|e: (Seq<char>, Seq<BindingView>)| e.0),
            r.host_config is Some,
            r.host_config->0.ports() == self.host.ports(),
            r.host_config->0.privileged == self.host.privileged,
            r.host_config->0.base == self.host.base,
    {
        let exposed = match &self.host.port_bindings {
            Some(pm) => pm.keys(),
            None => Vec::new(),
        };
        let n = exposed.len();
        assert(strs(exposed@).len() == exposed@.len());
        ContainerConfig {
            image: clone_opt(&self.image),
            env: if self.env.len() > 0 {
                Some(crate::model::clone_strings(&self.env))
            } else {
                None
            },
            cmd: clone_opt_strings(&self.cmd),
            entrypoint: clone_opt_strings(&self.entrypoint),
            working_dir: clone_opt(&self.working_dir),
            user: clone_opt(&self.user),
            tty: Some(self.tty),
            open_stdin: None,
            attach_stdin: None,
            attach_stdout: None,
            attach_stderr: None,
            labels: if self.labels.len() > 0 {
                Some(crate::model::clone_labels(&self.labels))
            } else {
                None
            },
            exposed_ports: if n > 0 {
                Some(exposed)
            } else {
                None
            },
            host_config: Some(self.host.clone()),
        }
    }
}

/// A request to recreate a container with modifications: create + start the
/// new one, then remove the old container.
pub struct RecreateRequest {
    pub old_id: String,
    pub old_name: String,
    pub was_running: bool,
    pub spec: ContainerSpec,
}

// ---------------------------------------------------------------- ops

/// One op of the ops file: a container launch with its options.
pub struct Op {
    pub description: Option<String>,
    pub image: Option<String>,
    pub name: Option<String>,
    pub privileged: bool,
    pub gpus: Option<GpuSpec>,
    pub network: Option<String>,
    pub pid: Option<String>,
    pub ipc: Option<String>,
    pub user: Option<String>,
    pub workdir: Option<String>,
    pub entrypoint: Option<Cmd>,
    pub command: Option<Cmd>,
    pub env: Vec<String>,
    pub volumes: Vec<String>,
    pub ports: Vec<String>,
    pub labels: Vec<(String, String)>,
    pub restart: Option<String>,
    pub shm_size: Option<ShmSize>,
    pub tty: bool,
    /// Run the op like `docker run -it`: create + attach + start, with the
    /// terminal handed to the container until it exits.
    pub attach: bool,
    pub rm: bool,
    pub replace: bool,
    pub pull: PullPolicy,
    pub follow_logs: bool,
}

/// The value `replace` takes when the ops file leaves it out.
pub fn default_true() -> (r: bool)
    ensures
        r,
{
    true
}

/// The value `pull` takes when the ops file leaves it out.
pub fn default_pull() -> (r: PullPolicy)
    ensures
        r == PullPolicy::Missing,
{
    PullPolicy::Missing
}

impl Default for Op {
    fn default() -> (r: Self)
        ensures
            r.description is None,
            r.image is None,
            r.name is None,
            !r.privileged,
            r.gpus is None,
            r.network is None,
            r.pid is None,
            r.ipc is None,
            r.user is None,
            r.workdir is None,
            r.entrypoint is None,
            r.command is None,
            r.env@.len() == 0,
            r.volumes@.len() == 0,
            r.ports@.len() == 0,
            r.labels@.len() == 0,
            r.restart is None,
            r.shm_size is None,
            !r.tty,
            !r.attach,
            !r.rm,
            !r.replace,
            r.pull == PullPolicy::Missing,
            !r.follow_logs,
    {
        Op {
            description: None,
            image: None,
            name: None,
            privileged: false,
            gpus: None,
            network: None,
            pid: None,
            ipc: None,
            user: None,
            workdir: None,
            entrypoint: None,
            command: None,
            env: Vec::new(),
            volumes: Vec::new(),
            ports: Vec::new(),
            labels: Vec::new(),
            restart: None,
            shm_size: None,
            tty: false,
            attach: false,
            rm: false,
            replace: false,
            pull: PullPolicy::Missing,
            follow_logs: false,
        }
    }
}

/// The argument vector of an optional command.
pub open spec fn opt_args(c: Option<Cmd>) -> Option<Seq<Seq<char>>> {
    match c {
        Some(c) => Some(c.args()),
        None => None,
    }
}

fn clone_cmd(c: &Option<Cmd>) -> (r: Option<Cmd>)
    ensures
        opt_args(r) == opt_args(*c),
{
    match c {
        Some(c) => Some(c.clone()),
        None => None,
    }
}

/// Two ops ask for the same.
pub open spec fn same_op(a: Op, b: Op) -> bool {
    &&& a.description == b.description
    &&& a.image == b.image
    &&& a.name == b.name
    &&& a.privileged == b.privileged
    &&& a.gpus == b.gpus
    &&& a.network == b.network
    &&& a.pid == b.pid
    &&& a.ipc == b.ipc
    &&& a.user == b.user
    &&& a.workdir == b.workdir
    &&& opt_args(a.entrypoint) == opt_args(b.entrypoint)
    &&& opt_args(a.command) == opt_args(b.command)
    &&& a.env@ == b.env@
    &&& a.volumes@ == b.volumes@
    &&& a.ports@ == b.ports@
    &&& a.labels@ == b.labels@
    &&& a.restart == b.restart
    &&& a.shm_size == b.shm_size
    &&& a.tty == b.tty
    &&& a.attach == b.attach
    &&& a.rm == b.rm
    &&& a.replace == b.replace
    &&& a.pull == b.pull
    &&& a.follow_logs == b.follow_logs
}

impl Clone for Op {
    fn clone(&self) -> (r: Self)
        ensures
            same_op(r, *self),
    {
        Op {
            description: clone_opt(&self.description),
            image: clone_opt(&self.image),
            name: clone_opt(&self.name),
            privileged: self.privileged,
            gpus: match &self.gpus {
                Some(g) => Some(g.clone()),
                None => None,
            },
            network: clone_opt(&self.network),
            pid: clone_opt(&self.pid),
            ipc: clone_opt(&self.ipc),
            user: clone_opt(&self.user),
            workdir: clone_opt(&self.workdir),
            entrypoint: clone_cmd(&self.entrypoint),
            command: clone_cmd(&self.command),
            env: crate::model::clone_strings(&self.env),
            volumes: crate::model::clone_strings(&self.volumes),
            ports: crate::model::clone_strings(&self.ports),
            labels: crate::model::clone_labels(&self.labels),
            restart: clone_opt(&self.restart),
            shm_size: match &self.shm_size {
                Some(s) => Some(s.clone()),
                None => None,
            },
            tty: self.tty,
            attach: self.attach,
            rm: self.rm,
            replace: self.replace,
            pull: self.pull,
            follow_logs: self.follow_logs,
        }
    }
}

/// `--gpus` as the summary shows it.
pub open spec fn gpu_flag(g: GpuSpec) -> Seq<char> {
    match g {
        GpuSpec::Spec(s) => "--gpus "@ + s@,
        GpuSpec::Count(n) => "--gpus "@ + dec_int(n as int),
    }
}

/// `flag value` when the option is set.
pub open spec fn flag_part(v: Option<String>, flag: Seq<char>) -> Seq<Seq<char>> {
    match v {
        Some(s) => seq![flag + " "@ + s@],
        None => Seq::empty(),
    }
}

/// The restart policy an optional `restart:` value asks for.
pub open spec fn opt_restart(r: Option<String>) -> Option<RestartPolicy> {
    match r {
        Some(s) => restart_of(s@),
        None => None,
    }
}

/// The shm size an optional `shm_size:` asks for, in bytes.
pub open spec fn opt_shm(s: Option<ShmSize>) -> Option<i64> {
    match s {
        Some(s) => Some(s.bytes()),
        None => None,
    }
}

/// The host settings an op's create request carries.
pub open spec fn op_host(h: HostSpec, op: Op) -> bool {
    &&& h.privileged == Some(op.privileged)
    &&& match op.gpus {
        Some(g) => h.device_requests is Some && h.device_requests->0@.len() == 1 && requests_gpus(
            h.device_requests->0@[0],
            g,
        ),
        None => h.device_requests is None,
    }
    &&& (op.volumes@.len() == 0 ==> h.binds is None)
    &&& (op.volumes@.len() > 0 ==> h.binds is Some && h.binds->0@ == op.volumes@)
    &&& (bindings_of(strs(op.ports@)).len() == 0 ==> h.port_bindings is None)
    &&& (bindings_of(strs(op.ports@)).len() > 0 ==> h.port_bindings is Some)
    &&& h.ports() == bindings_of(strs(op.ports@))
    &&& h.network_mode == op.network
    &&& h.pid_mode == op.pid
    &&& h.ipc_mode == op.ipc
    &&& h.auto_remove == Some(op.rm)
    &&& h.restart_policy == opt_restart(op.restart)
    &&& h.shm_size == opt_shm(op.shm_size)
    &&& h.base is None
}

/// `Some(true)` when `b` holds, else unset.
pub open spec fn set_if(b: bool) -> Option<bool> {
    if b {
        Some(true)
    } else {
        None
    }
}

/// `r` is the name and create request that op `op` makes, its templates
/// expanded against `vars`.
pub open spec fn created_from(r: (Option<String>, ContainerConfig), op: Op, vars: Seq<(String, String)>) -> bool {
    &&& match op.name {
        Some(n) => r.0 is Some && r.0->0@ == expand_vars(n@, vars),
        None => r.0 is None,
    }
    &&& opt_view(r.1.image) == Some(op.image_text())
    &&& op.env@.len() == 0 ==> r.1.env is None
    &&& op.env@.len() > 0 ==> r.1.env is Some && strs(r.1.env->0@) == op.env_expanded(
        vars,
    )
    &&& opt_strs(r.1.cmd) == opt_args(op.command)
    &&& opt_strs(r.1.entrypoint) == opt_args(op.entrypoint)
    &&& r.1.working_dir == op.workdir
    &&& r.1.user == op.user
    &&& r.1.tty == Some(op.tty || op.attach)
    &&& r.1.open_stdin == set_if(op.attach)
    &&& r.1.attach_stdin == set_if(op.attach)
    &&& r.1.attach_stdout == set_if(op.attach)
    &&& r.1.attach_stderr == set_if(op.attach)
    &&& op.labels@.len() == 0 ==> r.1.labels is None
    &&& op.labels@.len() > 0 ==> r.1.labels is Some && r.1.labels->0@ == op.labels@
    &&& bindings_of(strs(op.ports@)).len() == 0 ==> r.1.exposed_ports is None
    &&& bindings_of(strs(op.ports@)).len() > 0 ==> r.1.exposed_ports is Some && strs(
        r.1.exposed_ports->0@,
    ) == bindings_of(strs(op.ports@)).map_values(
        |e: (Seq<char>, Seq<BindingView>)| e.0,
    )
    &&& r.1.host_config is Some
    &&& op_host(r.1.host_config->0, op)
}

impl Op {
    pub open spec fn image_text(&self) -> Seq<char> {
        match self.image {
            Some(s) => s@,
            None => Seq::empty(),
        }
    }

    /// The parts of the one-line summary, in order.
    pub open spec fn summary_parts(&self) -> Seq<Seq<char>> {
        seq![self.image_text()] + (if self.privileged {
            seq!["--privileged"@]
        } else {
            Seq::empty()
        }) + (match self.gpus {
            Some(g) => seq![gpu_flag(g)],
            None => Seq::empty(),
        }) + flag_part(self.network, "--net"@) + flag_part(self.pid, "--pid"@) + flag_part(
            self.ipc,
            "--ipc"@,
        ) + (if self.attach {
            seq!["-it"@]
        } else {
            Seq::empty()
        })
    }

    /// The env entries with templates expanded.
    pub open spec fn env_expanded(&self, vars: Seq<(String, String)>) -> Seq<Seq<char>> {
        self.env@.map_values(|e: String| expand_vars(e@, vars))
    }

    /// Container name with templates expanded against `vars`.
    pub fn container_name(&self, vars: &Vec<(String, String)>) -> (r: Option<String>)
        ensures
            match self.name {
                Some(n) => r is Some && r->0@ == expand_vars(n@, vars@),
                None => r is None,
            },
    {
        match &self.name {
            Some(n) => Some(expand_template(n.as_str(), vars)),
            None => None,
        }
    }

    /// The image, empty when the op names none.
    pub fn image(&self) -> (r: &str)
        ensures
            r@ == self.image_text(),
    {
        match &self.image {
            Some(s) => s.as_str(),
            None => {
                proof {
                    reveal_strlit("");
                }
                ""
            },
        }
    }

    /// One line for the ops menu: image and the notable flags.
    pub fn summary(&self) -> (r: String)
        ensures
            r@ == join(self.summary_parts(), " "@),
    {
        let mut parts: Vec<String> = Vec::new();
        parts.push(owned(self.image()));
        let ghost p0 = str_views(parts@);
        assert(p0 =~= seq![self.image_text()]);
        if self.privileged {
            parts.push(owned("--privileged"));
        }
        let ghost p1 = str_views(parts@);
        assert(p1 =~= p0 + (if self.privileged {
            seq!["--privileged"@]
        } else {
            Seq::empty()
        }));
        if let Some(g) = &self.gpus {
            let flag = match g {
                GpuSpec::Spec(s) => concat2("--gpus ", s.as_str()),
                GpuSpec::Count(n) => {
                    let t = i64_text(*n);
                    concat2("--gpus ", t.as_str())
                },
            };
            parts.push(flag);
        }
        let ghost p2 = str_views(parts@);
        assert(p2 =~= p1 + (match self.gpus {
            Some(g) => seq![gpu_flag(g)],
            None => Seq::empty(),
        }));
        push_flag(&mut parts, &self.network, "--net");
        push_flag(&mut parts, &self.pid, "--pid");
        push_flag(&mut parts, &self.ipc, "--ipc");
        let ghost p3 = str_views(parts@);
        if self.attach {
            parts.push(owned("-it"));
        }
        assert(str_views(parts@) =~= p3 + (if self.attach {
            seq!["-it"@]
        } else {
            Seq::empty()
        }));
        assert(str_views(parts@) =~= self.summary_parts());
        join_strings(&parts, " ")
    }

    /// The restart policy the op asks for; an unknown value asks for none.
    pub fn restart_policy(&self) -> (r: Option<RestartPolicy>)
        ensures
            r == opt_restart(self.restart),
    {
        match &self.restart {
            Some(s) => restart_policy_of(s.as_str()),
            None => None,
        }
    }

    /// The create-container request: name and configuration.
    pub fn to_create(&self, vars: &Vec<(String, String)>) -> (r: (Option<String>, ContainerConfig))
        ensures
            created_from(r, *self, vars@),
    {
        let mut host = HostSpec::empty();
        host.privileged = Some(self.privileged);
        if let Some(g) = &self.gpus {
            let mut reqs: Vec<GpuRequest> = Vec::new();
            reqs.push(g.to_request());
            host.device_requests = Some(reqs);
        }
        if self.volumes.len() > 0 {
            host.binds = Some(crate::model::clone_strings(&self.volumes));
        }
        let pm = port_map_of(&self.ports);
        let exposed = pm.keys();
        let n = pm.len();
        assert(strs(exposed@).len() == exposed@.len());
        if n > 0 {
            host.port_bindings = Some(pm);
        } else {
            assert(bindings_of(strs(self.ports@)) =~= Seq::<(Seq<char>, Seq<BindingView>)>::empty());
        }
        host.network_mode = clone_opt(&self.network);
        host.pid_mode = clone_opt(&self.pid);
        host.ipc_mode = clone_opt(&self.ipc);
        host.auto_remove = Some(self.rm);
        host.restart_policy = self.restart_policy();
        host.shm_size = match &self.shm_size {
            Some(s) => Some(s.to_bytes()),
            None => None,
        };
        let mut env: Vec<String> = Vec::new();
        let mut i: usize = 0;
        while i < self.env.len()
            invariant
                i <= self.env.len(),
                strs(env@) == self.env_expanded(vars@).take(i as int),
            decreases self.env.len() - i,
        {
            let ghost before = env@;
            let e = expand_template(self.env[i].as_str(), vars);
            env.push(e);
            proof {
                crate::text::lemma_map_push(before, e, |x: String| x@);
                crate::text::lemma_map_take_succ(self.env@, i as int, |x: String| expand_vars(x@, vars@));
            }
            i += 1;
        }
        assert(self.env_expanded(vars@).take(self.env@.len() as int) == self.env_expanded(vars@));
        let config = ContainerConfig {
            image: Some(owned(self.image())),
            env: if env.len() > 0 {
                Some(env)
            } else {
                None
            },
            cmd: match &self.command {
                Some(c) => Some(c.to_args()),
                None => None,
            },
            entrypoint: match &self.entrypoint {
                Some(c) => Some(c.to_args()),
                None => None,
            },
            working_dir: clone_opt(&self.workdir),
            user: clone_opt(&self.user),
            tty: Some(self.tty || self.attach),
            open_stdin: if self.attach {
                Some(true)
            } else {
                None
            },
            attach_stdin: if self.attach {
                Some(true)
            } else {
                None
            },
            attach_stdout: if self.attach {
                Some(true)
            } else {
                None
            },
            attach_stderr: if self.attach {
                Some(true)
            } else {
                None
            },
            labels: if self.labels.len() > 0 {
                Some(crate::model::clone_labels(&self.labels))
            } else {
                None
            },
            exposed_ports: if n > 0 {
                Some(exposed)
            } else {
                None
            },
            host_config: Some(host),
        };
        (self.container_name(vars), config)
    }
}

fn push_flag(parts: &mut Vec<String>, v: &Option<String>, flag: &str)
    ensures
        str_views(final(parts)@) == str_views(old(parts)@) + flag_part(*v, flag@),
{
    let ghost before = parts@;
    if let Some(x) = v {
        let t = concat3(flag, " ", x.as_str());
        parts.push(t);
        proof {
            crate::text::lemma_map_push(before, t, |s: String| s@);
        }
        assert(flag_part(*v, flag@) =~= seq![flag@ + " "@ + x@]);
    } else {
        assert(str_views(parts@) =~= str_views(before) + flag_part(*v, flag@));
    }
}

// ---------------------------------------------------------------- the ops file

/// What reading one definition of the ops file gave: an op, or why it is
/// not one.
pub enum OpValue {
    Parsed(Op),
    Invalid(String),
}

/// One `name: definition` entry of the ops file; `name` is `None` when the
/// key is not a string.
pub struct OpEntry {
    pub name: Option<String>,
    pub value: OpValue,
}

/// How the ops file reads as a whole.
pub enum OpsDoc {
    /// Not YAML; the parser's reason.
    Unreadable(String),
    /// An empty document.
    Empty,
    /// YAML, but not a mapping.
    NotMapping,
    /// The top-level entries, and those under an `ops:` key when that key
    /// holds a mapping.
    Mapping { flat: Vec<OpEntry>, nested: Option<Vec<OpEntry>> },
}

/// Why an entry is refused, if it is.
pub open spec fn entry_error(e: OpEntry) -> Option<Seq<char>> {
    match e.name {
        None => Some("op names must be strings"@),
        Some(n) => if trim(n@).len() == 0 {
            Some("op names must not be empty"@)
        } else {
            match e.value {
                OpValue::Invalid(cause) => Some("op '"@ + n@ + "' is invalid: "@ + cause@),
                OpValue::Parsed(op) => if trim(op.image_text()).len() == 0 {
                    Some("op '"@ + n@ + "' is missing required field 'image'"@)
                } else {
                    None
                },
            }
        },
    }
}

/// No entry is refused.
pub open spec fn all_accepted(es: Seq<OpEntry>) -> bool {
    forall|j: int| 0 <= j < es.len() ==> (#[trigger] entry_error(es[j])) is None
}

/// The (name, op) pairs of accepted entries, in order.
pub open spec fn named_ops(es: Seq<OpEntry>) -> Seq<(String, Op)> {
    es.map_values(|e: OpEntry| (e.name->0, e.value->Parsed_0))
}

/// `m` is the refusal of the first refused entry.
pub open spec fn first_refusal(es: Seq<OpEntry>, m: Seq<char>) -> bool {
    exists|i: int|
        0 <= i < es.len() && entry_error(es[i]) == Some(m) && forall|j: int|
            0 <= j < i ==> (#[trigger] entry_error(es[j])) is None
}

fn entry_check(e: &OpEntry) -> (r: Option<String>)
    ensures
        match r {
            Some(m) => entry_error(*e) == Some(m@),
            None => entry_error(*e) is None,
        },
{
    match &e.name {
        None => Some(owned("op names must be strings")),
        Some(n) => {
            let t = trim_chars(&chars_of(n.as_str()));
            if t.len() == 0 {
                return Some(owned("op names must not be empty"));
            }
            match &e.value {
                OpValue::Invalid(cause) => {
                    let mut m = concat3("op '", n.as_str(), "' is invalid: ");
                    crate::text::push_str(&mut m, cause.as_str());
                    Some(m)
                },
                OpValue::Parsed(op) => {
                    let img = trim_chars(&chars_of(op.image()));
                    if img.len() == 0 {
                        Some(concat3("op '", n.as_str(), "' is missing required field 'image'"))
                    } else {
                        None
                    }
                },
            }
        },
    }
}

/// Checks the entries of one mapping of the ops file and turns them into
/// named ops, keeping their order; the first refused entry fails them all.
pub fn check_op_entries(entries: Vec<OpEntry>) -> (r: Result<Vec<(String, Op)>, String>)
    ensures
        all_accepted(entries@) ==> r is Ok && r->Ok_0@ == named_ops(entries@),
        !all_accepted(entries@) ==> r is Err && first_refusal(entries@, r->Err_0@),
{
    let mut i: usize = 0;
    while i < entries.len()
        invariant
            i <= entries.len(),
            forall|j: int| 0 <= j < i ==> (#[trigger] entry_error(entries@[j])) is None,
        decreases entries.len() - i,
    {
        if let Some(m) = entry_check(&entries[i]) {
            assert(!all_accepted(entries@));
            return Err(m);
        }
        i += 1;
    }
    let ghost orig = entries@;
    let mut rest = entries;
    let mut out: Vec<(String, Op)> = Vec::new();
    while rest.len() > 0
        invariant
            orig.len() == out@.len() + rest@.len(),
            rest@ == orig.skip(out@.len() as int),
            forall|j: int| 0 <= j < orig.len() ==> (#[trigger] entry_error(orig[j])) is None,
            out@ == named_ops(orig).take(out@.len() as int),
        decreases rest@.len(),
    {
        let ghost k = out@.len() as int;
        let e = rest.remove(0);
        assert(e == orig[k]);
        assert(entry_error(orig[k]) is None);
        match e {
            OpEntry { name: Some(n), value: OpValue::Parsed(op) } => {
                out.push((n, op));
                assert(out@ =~= named_ops(orig).take(out@.len() as int));
            },
            _ => {
                assert(false);
                return Err(String::new());
            },
        }
        assert(rest@ =~= orig.skip(out@.len() as int));
    }
    assert(named_ops(orig).take(orig.len() as int) =~= named_ops(orig));
    Ok(out)
}

/// Which reading of the ops file stands: a flat document that checks out,
/// else one wrapped under `ops:` that does, else the flat document's error.
pub fn choose_ops(
    flat: Result<Vec<(String, Op)>, String>,
    nested: Option<Result<Vec<(String, Op)>, String>>,
) -> (r: Result<Vec<(String, Op)>, String>)
    ensures
        r == (if flat is Ok {
            flat
        } else if nested matches Some(Ok(_)) {
            nested->0
        } else {
            flat
        }),
{
    if flat.is_ok() {
        return flat;
    }
    match nested {
        Some(Ok(v)) => Ok(v),
        _ => flat,
    }
}

/// The ops an ops file defines, or why it cannot be used. Both a flat
/// `name: {op}` mapping and one wrapped in a top-level `ops:` key are
/// accepted; a flat document wins when it checks out, so an op may be
/// named `ops`.
pub fn ops_from_doc(doc: OpsDoc) -> (r: Result<Vec<(String, Op)>, String>)
    ensures
        match doc {
            OpsDoc::Unreadable(cause) => r is Err && r->Err_0@ == "invalid ops.yml: "@ + cause@,
            OpsDoc::Empty => r is Ok && r->Ok_0@.len() == 0,
            OpsDoc::NotMapping => r is Err && r->Err_0@
                == "ops.yml must be a mapping of op name -> definition"@,
            OpsDoc::Mapping { flat, nested } => {
                &&& all_accepted(flat@) ==> r is Ok && r->Ok_0@ == named_ops(flat@)
                &&& (!all_accepted(flat@) && nested is Some && all_accepted(nested->0@)) ==> r is Ok
                    && r->Ok_0@ == named_ops(nested->0@)
                &&& (!all_accepted(flat@) && !(nested is Some && all_accepted(nested->0@))) ==> r is Err
                    && first_refusal(flat@, r->Err_0@)
            },
        },
{
    match doc {
        OpsDoc::Unreadable(cause) => Err(concat2("invalid ops.yml: ", cause.as_str())),
        OpsDoc::Empty => Ok(Vec::new()),
        OpsDoc::NotMapping => Err(owned("ops.yml must be a mapping of op name -> definition")),
        OpsDoc::Mapping { flat, nested } => {
            let f = check_op_entries(flat);
            let n = match nested {
                Some(es) => Some(check_op_entries(es)),
                None => None,
            };
            choose_ops(f, n)
        },
    }
}

/// `a` is named before `b`.
pub open spec fn op_lt(a: (String, Op), b: (String, Op)) -> bool {
    seq_lt(a.0@, b.0@)
}

/// `x` inserted into `s` after every op it does not sort before.
pub open spec fn insert_op(s: Seq<(String, Op)>, x: (String, Op)) -> Seq<(String, Op)>
    decreases s.len(),
{
    if s.len() == 0 || !op_lt(x, s.last()) {
        s.push(x)
    } else {
        insert_op(s.drop_last(), x).push(s.last())
    }
}

/// Stable sort of named ops by name.
pub open spec fn sorted_ops(s: Seq<(String, Op)>) -> Seq<(String, Op)>
    decreases s.len(),
{
    if s.len() == 0 {
        s
    } else {
        insert_op(sorted_ops(s.drop_last()), s.last())
    }
}

proof fn lemma_insert_op_at(s: Seq<(String, Op)>, x: (String, Op), j: int)
    requires
        0 <= j <= s.len(),
        forall|k: int| j <= k < s.len() ==> op_lt(x, #[trigger] s[k]),
        j == 0 || !op_lt(x, s[j - 1]),
    ensures
        insert_op(s, x) == s.take(j).push(x) + s.skip(j),
    decreases s.len(),
{
    if s.len() == 0 {
        assert(s.take(j).push(x) + s.skip(j) =~= seq![x]);
    } else if j == s.len() {
        assert(s.take(j) == s);
        assert(s.skip(j) =~= Seq::<(String, Op)>::empty());
        assert(s.take(j).push(x) + s.skip(j) =~= s.push(x));
    } else {
        assert(op_lt(x, s[s.len() - 1]));
        lemma_insert_op_at(s.drop_last(), x, j);
        assert(s.drop_last().take(j) == s.take(j));
        assert((s.take(j).push(x) + s.drop_last().skip(j)).push(s.last()) =~= s.take(j).push(x)
            + s.skip(j));
    }
}

/// Named ops compared by name.
pub open spec fn op_order() -> spec_fn((String, Op), (String, Op)) -> bool {
    |a: (String, Op), b: (String, Op)| op_lt(a, b)
}

proof fn lemma_sorted_ops_by(s: Seq<(String, Op)>)
    ensures
        sorted_ops(s) == crate::order::sort_by(s, op_order()),
    decreases s.len(),
{
    if s.len() > 0 {
        lemma_sorted_ops_by(s.drop_last());
        lemma_insert_op_by(sorted_ops(s.drop_last()), s.last());
    }
}

proof fn lemma_insert_op_by(s: Seq<(String, Op)>, x: (String, Op))
    ensures
        insert_op(s, x) == crate::order::ins_by(s, x, op_order()),
    decreases s.len(),
{
    if s.len() > 0 {
        lemma_insert_op_by(s.drop_last(), x);
    }
}

/// Ordering the ops keeps every op, as often as it came, puts them in
/// ascending name order, and keeps ops of the same name in file order.
pub proof fn lemma_sort_ops(s: Seq<(String, Op)>)
    ensures
        sorted_ops(s).to_multiset() == s.to_multiset(),
        crate::order::sorted_by(sorted_ops(s), op_order()),
        forall|c: (String, Op)|
            #[trigger] sorted_ops(s).filter(crate::order::tied_with(op_order(), c)) == s.filter(
                crate::order::tied_with(op_order(), c),
            ),
{
    lemma_sorted_ops_by(s);
    crate::order::lemma_sort_by(s, op_order());
    crate::order::lemma_text_key_order(|x: (String, Op)| x.0@);
    assert(op_order() =~= (|a: (String, Op), b: (String, Op)|
        seq_lt((|x: (String, Op)| x.0@)(a), (|x: (String, Op)| x.0@)(b))));
    assert forall|c: (String, Op)|
        #[trigger] sorted_ops(s).filter(crate::order::tied_with(op_order(), c)) == s.filter(
            crate::order::tied_with(op_order(), c),
        ) by {
        crate::order::lemma_sort_by_stable(s, op_order(), c);
    }
}

/// Orders named ops by name, keeping the file order among equal names.
pub fn sort_ops(list: Vec<(String, Op)>) -> (r: Vec<(String, Op)>)
    ensures
        r@ == sorted_ops(list@),
{
    let ghost orig = list@;
    assert(orig.len() == list.len());
    let mut rest = list;
    let mut out: Vec<(String, Op)> = Vec::new();
    let mut i: usize = 0;
    while rest.len() > 0
        invariant
            orig.len() <= usize::MAX,
            i + rest@.len() == orig.len(),
            rest@ == orig.skip(i as int),
            out@ == sorted_ops(orig.take(i as int)),
        decreases rest@.len(),
    {
        let x = rest.remove(0);
        assert(x == orig[i as int]);
        assert(orig.take(i + 1).drop_last() == orig.take(i as int));
        assert(orig.take(i + 1).last() == x);
        let mut j: usize = out.len();
        while j > 0 && crate::text::str_lt(x.0.as_str(), out[j - 1].0.as_str())
            invariant
                j <= out.len(),
                forall|k: int| j <= k < out.len() ==> op_lt(x, #[trigger] out@[k]),
            decreases j,
        {
            j -= 1;
        }
        let ghost before = out@;
        proof {
            lemma_insert_op_at(before, x, j as int);
        }
        out.insert(j, x);
        assert(out@ =~= before.take(j as int).push(x) + before.skip(j as int));
        i += 1;
        assert(rest@ =~= orig.skip(i as int));
    }
    assert(orig.take(orig.len() as int) == orig);
    out
}

} // verus!
