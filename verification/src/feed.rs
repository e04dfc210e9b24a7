//! What the daemon's streams turn into: log text cut into lines, events,
//! volumes and the integer parts of a stats reading.
use vstd::prelude::*;

use crate::model::{DockerEvent, StatsSample, Volume};
use crate::text::{owned, push_char};
use crate::util::strs;

verus! {

// ---------------------------------------------------------------- log lines

/// Text cut after every newline: the complete lines, each with its
/// newline, and the unfinished text after the last one.
pub open spec fn split_lines(s: Seq<char>) -> (Seq<Seq<char>>, Seq<char>)
    decreases s.len(),
{
    if s.len() == 0 {
        (Seq::empty(), Seq::empty())
    } else {
        let (ls, rest) = split_lines(s.drop_last());
        if s.last() == '\n' {
            (ls.push(rest.push('\n')), Seq::empty())
        } else {
            (ls, rest.push(s.last()))
        }
    }
}

/// The characters of a list of lines, one after the other.
pub open spec fn flatten(ls: Seq<Seq<char>>) -> Seq<char>
    decreases ls.len(),
{
    if ls.len() == 0 {
        Seq::empty()
    } else {
        flatten(ls.drop_last()) + ls.last()
    }
}

/// `s` has no newline.
pub open spec fn no_newline(s: Seq<char>) -> bool {
    forall|i: int| 0 <= i < s.len() ==> s[i] != '\n'
}

/// `l` is one complete line: it ends with its newline and has no other.
pub open spec fn one_line(l: Seq<char>) -> bool {
    l.len() > 0 && l.last() == '\n' && no_newline(l.drop_last())
}

/// `s` without the carriage returns at its end.
pub open spec fn trim_cr(s: Seq<char>) -> Seq<char>
    decreases s.len(),
{
    if s.len() > 0 && s.last() == '\r' {
        trim_cr(s.drop_last())
    } else {
        s
    }
}

/// Cutting text into lines loses nothing: the lines and the rest, put
/// back together, are the text; each line is one complete line, and the
/// rest has no newline.
pub proof fn lemma_split_lines_whole(s: Seq<char>)
    ensures
        flatten(split_lines(s).0) + split_lines(s).1 == s,
        forall|i: int| 0 <= i < split_lines(s).0.len() ==> one_line(#[trigger] split_lines(s).0[i]),
        no_newline(split_lines(s).1),
    decreases s.len(),
{
    if s.len() > 0 {
        let (ls, rest) = split_lines(s.drop_last());
        lemma_split_lines_whole(s.drop_last());
        if s.last() == '\n' {
            let l = rest.push('\n');
            assert(l.drop_last() =~= rest);
            assert(ls.push(l).drop_last() =~= ls);
            assert(flatten(ls.push(l)) == flatten(ls) + l);
            assert(s.drop_last().push(s.last()) =~= s);
            assert(flatten(ls) + l =~= (flatten(ls) + rest).push('\n'));
            assert(flatten(ls) + l + Seq::<char>::empty() =~= flatten(ls) + l);
        } else {
            assert(s.drop_last().push(s.last()) =~= s);
            assert(flatten(ls) + rest.push(s.last()) =~= (flatten(ls) + rest).push(s.last()));
        }
    }
}

/// Text without a newline is all unfinished.
pub proof fn lemma_split_no_newline(s: Seq<char>)
    requires
        no_newline(s),
    ensures
        split_lines(s) == (Seq::<Seq<char>>::empty(), s),
    decreases s.len(),
{
    if s.len() > 0 {
        assert(no_newline(s.drop_last()));
        lemma_split_no_newline(s.drop_last());
        assert(s.drop_last().push(s.last()) =~= s);
    }
}

/// Where text is cut in two does not matter: the lines of `s + t` are the
/// lines of `s`, then those of what was left of `s` followed by `t`.
pub proof fn lemma_split_concat(s: Seq<char>, t: Seq<char>)
    ensures
        split_lines(s + t) == (
            split_lines(s).0 + split_lines(split_lines(s).1 + t).0,
            split_lines(split_lines(s).1 + t).1,
        ),
    decreases t.len(),
{
    let (l1, r1) = split_lines(s);
    if t.len() == 0 {
        assert(s + t =~= s);
        assert(r1 + t =~= r1);
        lemma_split_lines_whole(s);
        lemma_split_no_newline(r1);
        assert(l1 + Seq::<Seq<char>>::empty() =~= l1);
    } else {
        let t0 = t.drop_last();
        lemma_split_concat(s, t0);
        assert((s + t).drop_last() =~= s + t0);
        assert((s + t).last() == t.last());
        assert((r1 + t).drop_last() =~= r1 + t0);
        assert((r1 + t).last() == t.last());
        let (l2, r2) = split_lines(r1 + t0);
        if t.last() == '\n' {
            assert(l1 + l2.push(r2.push('\n')) =~= (l1 + l2).push(r2.push('\n')));
        }
    }
}

/// Text that comes in chunks gives the lines it gives when it comes at
/// once: feeding `a` and then `b` to a buffer holding `p` hands out the
/// lines that feeding `a + b` hands out, and leaves the same rest.
pub proof fn lemma_chunks_agree(p: Seq<char>, a: Seq<char>, b: Seq<char>)
    requires
        no_newline(p),
    ensures
        split_lines(split_lines(p + a).1 + b).1 == split_lines(p + (a + b)).1,
        split_lines(p + a).0 + split_lines(split_lines(p + a).1 + b).0 == split_lines(
            p + (a + b),
        ).0,
{
    assert(p + (a + b) =~= (p + a) + b);
    lemma_split_concat(p + a, b);
}

/// Text from a log stream, held until its lines are complete.
pub struct LineBuffer {
    pub pending: String,
}

impl LineBuffer {
    /// The buffer holds no complete line.
    pub open spec fn wf(&self) -> bool {
        no_newline(self.pending@)
    }

    pub fn new() -> (r: Self)
        ensures
            r.pending@ == Seq::<char>::empty(),
            r.wf(),
    {
        LineBuffer { pending: String::new() }
    }

    /// Adds a chunk of text; hands out each line it completes, with its
    /// newline, in order, and keeps the rest.
    pub fn feed(&mut self, chunk: &str) -> (r: Vec<String>)
        ensures
            strs(r@) == split_lines(old(self).pending@ + chunk@).0,
            final(self).pending@ == split_lines(old(self).pending@ + chunk@).1,
            final(self).wf(),
    {
        let mut all = crate::text::chars_of(self.pending.as_str());
        let more = crate::text::chars_of(chunk);
        let mut k: usize = 0;
        while k < more.len()
            invariant
                k <= more@.len(),
                all@ == self.pending@ + more@.take(k as int),
            decreases more@.len() - k,
        {
            all.push(more[k]);
            assert(more@.take(k + 1) =~= more@.take(k as int).push(more@[k as int]));
            k += 1;
        }
        assert(more@.take(more@.len() as int) =~= more@);
        let ghost s = all@;
        let mut out: Vec<String> = Vec::new();
        let mut cur = String::new();
        let mut i: usize = 0;
        assert(s.take(0) =~= Seq::<char>::empty());
        while i < all.len()
            invariant
                i <= s.len(),
                all@ == s,
                split_lines(s.take(i as int)) == (strs(out@), cur@),
            decreases s.len() - i,
        {
            let c = all[i];
            assert(s.take(i + 1).drop_last() =~= s.take(i as int));
            assert(s.take(i + 1).last() == c);
            let ghost before = out@;
            push_char(&mut cur, c);
            if c == '\n' {
                out.push(cur);
                proof {
                    crate::text::lemma_map_push(before, cur, |x: String| x@);
                }
                cur = String::new();
            }
            i += 1;
        }
        assert(s.take(s.len() as int) =~= s);
        proof {
            lemma_split_lines_whole(s);
        }
        self.pending = cur;
        out
    }

    /// What is left when the stream ends: the unfinished text without
    /// trailing carriage returns, if that leaves anything.
    pub fn finish(&self) -> (r: Option<String>)
        ensures
            match r {
                Some(t) => t@ == trim_cr(self.pending@) && t@.len() > 0,
                None => trim_cr(self.pending@).len() == 0,
            },
    {
        let v = crate::text::chars_of(self.pending.as_str());
        let mut n: usize = v.len();
        assert(v@.take(n as int) =~= v@);
        while n > 0 && v[n - 1] == '\r'
            invariant
                n <= v@.len(),
                trim_cr(v@) == trim_cr(v@.take(n as int)),
            decreases n,
        {
            assert(v@.take(n as int).drop_last() =~= v@.take(n - 1));
            n -= 1;
        }
        if n == 0 {
            None
        } else {
            let t = crate::text::slice_chars(&v, 0, n);
            assert(t@ =~= v@.take(n as int));
            Some(crate::text::string_of(&t))
        }
    }
}

// ---------------------------------------------------------------- events

/// What a daemon event is about.
#[derive(Clone, Copy, PartialEq, Eq, Structural)]
pub enum EventKind {
    Container,
    Image,
    Volume,
    Network,
    Daemon,
    Plugin,
    Builder,
    Config,
    Node,
    Secret,
    Service,
    Unknown,
}

/// The word an event kind is shown by.
pub open spec fn kind_text(k: EventKind) -> Seq<char> {
    match k {
        EventKind::Container => "container"@,
        EventKind::Image => "image"@,
        EventKind::Volume => "volume"@,
        EventKind::Network => "network"@,
        EventKind::Daemon => "daemon"@,
        EventKind::Plugin => "plugin"@,
        EventKind::Builder => "builder"@,
        EventKind::Config => "config"@,
        EventKind::Node => "node"@,
        EventKind::Secret => "secret"@,
        EventKind::Service => "service"@,
        EventKind::Unknown => "?"@,
    }
}

fn kind_word(k: EventKind) -> (r: &'static str)
    ensures
        r@ == kind_text(k),
{
    match k {
        EventKind::Container => "container",
        EventKind::Image => "image",
        EventKind::Volume => "volume",
        EventKind::Network => "network",
        EventKind::Daemon => "daemon",
        EventKind::Plugin => "plugin",
        EventKind::Builder => "builder",
        EventKind::Config => "config",
        EventKind::Node => "node",
        EventKind::Secret => "secret",
        EventKind::Service => "service",
        EventKind::Unknown => "?",
    }
}

/// Who an event is about: its id and the `name` and `container`
/// attributes, where it has them.
pub struct EventActor {
    pub id: Option<String>,
    pub name_attr: Option<String>,
    pub container_attr: Option<String>,
}

/// The view of an optional string, with a default for none.
pub open spec fn text_or(o: Option<String>, d: Seq<char>) -> Seq<char> {
    match o {
        Some(s) => s@,
        None => d,
    }
}

/// The name an event's actor is shown by: its `name` attribute, else its
/// `container` attribute, else the first twelve characters of its id.
pub open spec fn actor_label(a: EventActor) -> Seq<char> {
    match a.name_attr {
        Some(n) => n@,
        None => match a.container_attr {
            Some(c) => c@,
            None => crate::mock::take_at_most(text_or(a.id, Seq::empty()), 12),
        },
    }
}

fn text_or_empty(o: &Option<String>) -> (r: String)
    ensures
        r@ == text_or(*o, Seq::empty()),
{
    match o {
        Some(s) => s.clone(),
        None => String::new(),
    }
}

/// The event list's record of a daemon event.
pub fn event_from(
    time: Option<i64>,
    kind: EventKind,
    action: &Option<String>,
    actor: &Option<EventActor>,
    scope: &Option<String>,
) -> (r: DockerEvent)
    ensures
        r.time == match time {
            Some(t) => t,
            None => 0,
        },
        r.typ@ == kind_text(kind),
        r.action@ == text_or(*action, Seq::empty()),
        r.actor_id@ == match *actor {
            Some(a) => text_or(a.id, Seq::empty()),
            None => Seq::empty(),
        },
        r.actor_name@ == match *actor {
            Some(a) => actor_label(a),
            None => Seq::empty(),
        },
        r.scope@ == text_or(*scope, Seq::empty()),
{
    let (actor_id, actor_name) = match actor {
        Some(a) => {
            let id = text_or_empty(&a.id);
            let name = match (&a.name_attr, &a.container_attr) {
                (Some(n), _) => n.clone(),
                (None, Some(c)) => c.clone(),
                (None, None) => {
                    let v = crate::text::chars_of(id.as_str());
                    let n: usize = if v.len() >= 12 {
                        12
                    } else {
                        v.len()
                    };
                    let t = crate::text::slice_chars(&v, 0, n);
                    assert(t@ =~= crate::mock::take_at_most(id@, 12));
                    crate::text::string_of(&t)
                },
            };
            (id, name)
        },
        None => (String::new(), String::new()),
    };
    DockerEvent {
        time: match time {
            Some(t) => t,
            None => 0,
        },
        typ: owned(kind_word(kind)),
        action: text_or_empty(action),
        actor_id,
        actor_name,
        scope: text_or_empty(scope),
    }
}

// ---------------------------------------------------------------- volumes

/// Where a volume is visible.
#[derive(Clone, Copy, PartialEq, Eq, Structural)]
pub enum VolumeScope {
    Local,
    Global,
    Unset,
}

/// The word a volume scope is shown by; a volume without one is local.
pub open spec fn scope_text(s: Option<VolumeScope>) -> Seq<char> {
    match s {
        Some(VolumeScope::Local) => "local"@,
        Some(VolumeScope::Global) => "global"@,
        Some(VolumeScope::Unset) => Seq::empty(),
        None => "local"@,
    }
}

/// A count the daemon reports as negative when unknown, as a count.
pub open spec fn count_of(n: i64) -> u64 {
    if n < 0 {
        0
    } else {
        n as u64
    }
}

/// The volume list's record of a volume; `usage` is its size and its
/// reference count, where the daemon measured them.
pub fn volume_from(
    name: String,
    driver: String,
    scope: Option<VolumeScope>,
    mountpoint: String,
    labels: Vec<(String, String)>,
    usage: Option<(i64, i64)>,
) -> (r: Volume)
    ensures
        r.name == name,
        r.driver == driver,
        r.scope@ == scope_text(scope),
        r.mountpoint == mountpoint,
        r.labels == labels,
        r.size == match usage {
            Some(u) => Some(count_of(u.0)),
            None => None,
        },
        r.ref_count == match usage {
            Some(u) => Some(count_of(u.1)),
            None => None,
        },
{
    let word = match scope {
        Some(VolumeScope::Local) => "local",
        Some(VolumeScope::Global) => "global",
        Some(VolumeScope::Unset) => "",
        None => "local",
    };
    let (size, ref_count) = match usage {
        Some((s, c)) => (
            Some(if s < 0 {
                0u64
            } else {
                s as u64
            }),
            Some(if c < 0 {
                0u64
            } else {
                c as u64
            }),
        ),
        None => (None, None),
    };
    proof {
        reveal_strlit("local");
        reveal_strlit("global");
        reveal_strlit("");
    }
    Volume { name, driver, scope: owned(word), mountpoint, labels, size, ref_count }
}

// ---------------------------------------------------------------- stats

/// The sum of the first parts of a list of pairs.
pub open spec fn sum_firsts(v: Seq<(u64, u64)>) -> int
    decreases v.len(),
{
    if v.len() == 0 {
        0
    } else {
        sum_firsts(v.drop_last()) + v.last().0
    }
}

/// The sum of the second parts of a list of pairs.
pub open spec fn sum_seconds(v: Seq<(u64, u64)>) -> int
    decreases v.len(),
{
    if v.len() == 0 {
        0
    } else {
        sum_seconds(v.drop_last()) + v.last().1
    }
}

/// The bytes of the block-device records whose operation is `op`.
pub open spec fn sum_op(v: Seq<(String, u64)>, op: Seq<char>) -> int
    decreases v.len(),
{
    if v.len() == 0 {
        0
    } else {
        sum_op(v.drop_last(), op) + if v.last().0@ == op {
            v.last().1 as int
        } else {
            0
        }
    }
}

/// Network traffic (received, sent): summed over the per-interface
/// counters where there are any, else the single counter, else none.
pub open spec fn net_totals(networks: Option<Vec<(u64, u64)>>, network: Option<(u64, u64)>) -> (
    int,
    int,
) {
    match networks {
        Some(v) => (sum_firsts(v@), sum_seconds(v@)),
        None => match network {
            Some(n) => (n.0 as int, n.1 as int),
            None => (0, 0),
        },
    }
}

/// Block-device traffic (read, written) over the records, if any.
pub open spec fn blk_totals(blkio: Option<Vec<(String, u64)>>) -> (int, int) {
    match blkio {
        Some(v) => (sum_op(v@, "read"@), sum_op(v@, "write"@)),
        None => (0, 0),
    }
}

/// Memory use in hundredths of a percent of the limit (none without a
/// limit), rounded down.
pub open spec fn mem_share(mem: u64, limit: u64) -> int {
    if limit > 0 {
        (mem as int * 10000) / (limit as int)
    } else {
        0
    }
}

fn eq_text(a: &String, lit: &str) -> (r: bool)
    ensures
        r == (a@ == lit@),
{
    crate::text::eq_str(a.as_str(), lit)
}

/// A stats reading from the daemon's counters; the CPU share, which
/// rests on floating point, is worked out by the caller and handed in.
pub fn sample_from(
    cpu_centi: u64,
    mem: Option<u64>,
    limit: Option<u64>,
    networks: &Option<Vec<(u64, u64)>>,
    network: &Option<(u64, u64)>,
    blkio: &Option<Vec<(String, u64)>>,
    pids: Option<u64>,
) -> (r: StatsSample)
    requires
        net_totals(*networks, *network).0 <= u64::MAX,
        net_totals(*networks, *network).1 <= u64::MAX,
        blk_totals(*blkio).0 <= u64::MAX,
        blk_totals(*blkio).1 <= u64::MAX,
    ensures
        r.cpu_centi == cpu_centi,
        r.mem == match mem {
            Some(m) => m,
            None => 0,
        },
        r.mem_limit == match limit {
            Some(l) => l,
            None => 0,
        },
        r.mem_centi == if mem_share(r.mem, r.mem_limit) <= u64::MAX {
            mem_share(r.mem, r.mem_limit)
        } else {
            u64::MAX as int
        },
        r.net_rx == net_totals(*networks, *network).0,
        r.net_tx == net_totals(*networks, *network).1,
        r.blk_read == blk_totals(*blkio).0,
        r.blk_write == blk_totals(*blkio).1,
        r.pids == pids,
{
    let m: u64 = match mem {
        Some(m) => m,
        None => 0,
    };
    let l: u64 = match limit {
        Some(l) => l,
        None => 0,
    };
    let mem_centi: u64 = if l > 0 {
        let q: u128 = (m as u128 * 10000) / (l as u128);
        if q > u64::MAX as u128 {
            u64::MAX
        } else {
            q as u64
        }
    } else {
        0
    };
    let (net_rx, net_tx): (u64, u64) = match networks {
        Some(v) => {
            let mut rx: u64 = 0;
            let mut tx: u64 = 0;
            let mut i: usize = 0;
            while i < v.len()
                invariant
                    i <= v@.len(),
                    sum_firsts(v@) <= u64::MAX,
                    sum_seconds(v@) <= u64::MAX,
                    rx == sum_firsts(v@.take(i as int)),
                    tx == sum_seconds(v@.take(i as int)),
                decreases v@.len() - i,
            {
                assert(v@.take(i + 1).drop_last() =~= v@.take(i as int));
                proof {
                    lemma_sums_prefix(v@, i as int + 1);
                }
                rx = rx + v[i].0;
                tx = tx + v[i].1;
                i += 1;
            }
            assert(v@.take(v@.len() as int) =~= v@);
            (rx, tx)
        },
        None => match network {
            Some(n) => (n.0, n.1),
            None => (0, 0),
        },
    };
    let (blk_read, blk_write): (u64, u64) = match blkio {
        Some(v) => {
            let mut rd: u64 = 0;
            let mut wr: u64 = 0;
            let mut i: usize = 0;
            while i < v.len()
                invariant
                    i <= v@.len(),
                    sum_op(v@, "read"@) <= u64::MAX,
                    sum_op(v@, "write"@) <= u64::MAX,
                    rd == sum_op(v@.take(i as int), "read"@),
                    wr == sum_op(v@.take(i as int), "write"@),
                decreases v@.len() - i,
            {
                assert(v@.take(i + 1).drop_last() =~= v@.take(i as int));
                proof {
                    lemma_sum_op_prefix(v@, i as int + 1, "read"@);
                    lemma_sum_op_prefix(v@, i as int + 1, "write"@);
                }
                proof {
                    reveal_strlit("read");
                    reveal_strlit("write");
                }
                assert(v@.take(i + 1).last() == v@[i as int]);
                if eq_text(&v[i].0, "read") {
                    assert("read"@.len() != "write"@.len());
                    rd = rd + v[i].1;
                } else if eq_text(&v[i].0, "write") {
                    wr = wr + v[i].1;
                }
                i += 1;
            }
            assert(v@.take(v@.len() as int) =~= v@);
            (rd, wr)
        },
        None => (0, 0),
    };
    StatsSample {
        cpu_centi,
        mem: m,
        mem_limit: l,
        mem_centi,
        net_rx,
        net_tx,
        blk_read,
        blk_write,
        pids,
    }
}

/// A prefix of a list of pairs sums to no more than the list.
proof fn lemma_sums_prefix(v: Seq<(u64, u64)>, k: int)
    requires
        0 <= k <= v.len(),
    ensures
        sum_firsts(v.take(k)) <= sum_firsts(v),
        sum_seconds(v.take(k)) <= sum_seconds(v),
    decreases v.len() - k,
{
    if k < v.len() {
        lemma_sums_prefix(v, k + 1);
        assert(v.take(k + 1).drop_last() =~= v.take(k));
    } else {
        assert(v.take(k) =~= v);
    }
}

/// A prefix of the block-device records sums to no more than all of them.
proof fn lemma_sum_op_prefix(v: Seq<(String, u64)>, k: int, op: Seq<char>)
    requires
        0 <= k <= v.len(),
    ensures
        sum_op(v.take(k), op) <= sum_op(v, op),
    decreases v.len() - k,
{
    if k < v.len() {
        lemma_sum_op_prefix(v, k + 1, op);
        assert(v.take(k + 1).drop_last() =~= v.take(k));
    } else {
        assert(v.take(k) =~= v);
    }
}

} // verus!
