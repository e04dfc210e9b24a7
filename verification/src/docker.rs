//! Docker contexts (which daemon to talk to and how), ssh endpoints, and
//! container rows built from the daemon's list.
use vstd::prelude::*;

use crate::model::Container;
use crate::text::{
    chars_of, concat2, eq_str, first_index, first_pos, last_index, last_pos, owned, seq_lt,
    slice_chars, starts_with_chars, string_of,
};
use crate::order::{ins_by, keys_distinct, lemma_sort_by, sort_by, sorted_by};
use crate::util::strs;

verus! {

#[derive(Clone, Copy, PartialEq, Eq, Structural)]
pub enum EndpointKind {
    Unix,
    Tcp,
    Ssh,
    Unknown,
}

pub struct DockerContext {
    pub name: String,
    pub endpoint: String,
    pub kind: EndpointKind,
    pub current: bool,
}

pub type ContextView = (Seq<char>, Seq<char>, EndpointKind, bool);

impl View for DockerContext {
    type V = ContextView;

    open spec fn view(&self) -> ContextView {
        (self.name@, self.endpoint@, self.kind, self.current)
    }
}

impl Clone for DockerContext {
    fn clone(&self) -> (r: Self)
        ensures
            r@ == self@,
    {
        DockerContext {
            name: self.name.clone(),
            endpoint: self.endpoint.clone(),
            kind: self.kind,
            current: self.current,
        }
    }
}

/// `s` begins with `p`.
pub open spec fn has_prefix(s: Seq<char>, p: Seq<char>) -> bool {
    p.len() <= s.len() && s.take(p.len() as int) == p
}

/// How an endpoint is reached, from its scheme.
pub open spec fn endpoint_kind(e: Seq<char>) -> EndpointKind {
    if has_prefix(e, "unix://"@) || has_prefix(e, "/"@) {
        EndpointKind::Unix
    } else if has_prefix(e, "tcp://"@) || has_prefix(e, "http://"@) {
        EndpointKind::Tcp
    } else if has_prefix(e, "ssh://"@) {
        EndpointKind::Ssh
    } else {
        EndpointKind::Unknown
    }
}

fn str_has_prefix(s: &str, p: &str) -> (r: bool)
    ensures
        r == has_prefix(s@, p@),
{
    let sv = chars_of(s);
    let pv = chars_of(p);
    starts_with_chars(&sv, &pv)
}

impl DockerContext {
    pub fn kind_of(endpoint: &str) -> (r: EndpointKind)
        ensures
            r == endpoint_kind(endpoint@),
    {
        if str_has_prefix(endpoint, "unix://") || str_has_prefix(endpoint, "/") {
            EndpointKind::Unix
        } else if str_has_prefix(endpoint, "tcp://") || str_has_prefix(endpoint, "http://") {
            EndpointKind::Tcp
        } else if str_has_prefix(endpoint, "ssh://") {
            EndpointKind::Ssh
        } else {
            EndpointKind::Unknown
        }
    }

    pub fn new(name: String, endpoint: String, current: bool) -> (r: Self)
        ensures
            r@ == (name@, endpoint@, endpoint_kind(endpoint@), current),
    {
        let kind = Self::kind_of(endpoint.as_str());
        DockerContext { name, endpoint, kind, current }
    }
}

/// The views of a list of contexts.
pub open spec fn ctx_views(v: Seq<DockerContext>) -> Seq<ContextView> {
    v.map_values(|c: DockerContext| c@)
}

/// Position of the first current context.
pub open spec fn first_current(s: Seq<ContextView>) -> Option<int>
    decreases s.len(),
{
    if s.len() == 0 {
        None
    } else {
        match first_current(s.drop_last()) {
            Some(i) => Some(i),
            None => if s.last().3 {
                Some(s.len() - 1)
            } else {
                None
            },
        }
    }
}

pub proof fn lemma_first_current_prefix(s: Seq<ContextView>, k: int)
    requires
        0 <= k <= s.len(),
        first_current(s.take(k)) is Some,
    ensures
        first_current(s) == first_current(s.take(k)),
    decreases s.len() - k,
{
    if k < s.len() {
        assert(s.take(k + 1).drop_last() =~= s.take(k));
        lemma_first_current_prefix(s, k + 1);
    } else {
        assert(s.take(k) =~= s);
    }
}

// ---------------------------------------------------------------- context list

/// The daemon socket a context without an endpoint uses.
pub open spec fn default_socket() -> Seq<char> {
    "unix:///var/run/docker.sock"@
}

/// `x` inserted after every context it does not sort before (by name).
pub open spec fn insert_ctx(s: Seq<ContextView>, x: ContextView) -> Seq<ContextView>
    decreases s.len(),
{
    if s.len() == 0 || !seq_lt(x.0, s.last().0) {
        s.push(x)
    } else {
        insert_ctx(s.drop_last(), x).push(s.last())
    }
}

/// Contexts ordered by name (stable).
pub open spec fn sorted_ctxs(s: Seq<ContextView>) -> Seq<ContextView>
    decreases s.len(),
{
    if s.len() == 0 {
        s
    } else {
        insert_ctx(sorted_ctxs(s.drop_last()), s.last())
    }
}

/// The contexts found on disk, as (name, endpoint), made contexts.
pub open spec fn found_ctxs(found: Seq<(Seq<char>, Seq<char>)>) -> Seq<ContextView> {
    found.map_values(|f: (Seq<char>, Seq<char>)| (f.0, f.1, endpoint_kind(f.1), false))
}

/// The found contexts by name, or the default one when none were found.
pub open spec fn base_ctxs(found: Seq<(Seq<char>, Seq<char>)>) -> Seq<ContextView> {
    let s = sorted_ctxs(found_ctxs(found));
    if s.len() == 0 {
        seq![("default"@, default_socket(), EndpointKind::Unix, false)]
    } else {
        s
    }
}

/// `DOCKER_HOST`, when set to something.
pub open spec fn env_host_of(env_host: Option<Seq<char>>) -> Option<Seq<char>> {
    match env_host {
        Some(h) => if h.len() > 0 {
            Some(h)
        } else {
            None
        },
        None => None,
    }
}

/// Whether a context is the current one before `DOCKER_HOST` is applied:
/// without `DOCKER_HOST` the configured context (or "default") is; with
/// it, a unix context on that very socket is.
pub open spec fn marked_current(
    c: ContextView,
    cfg: Option<Seq<char>>,
    host: Option<Seq<char>>,
) -> bool {
    match host {
        None => c.0 == match cfg {
            Some(n) => n,
            None => "default"@,
        },
        Some(h) => c.2 == EndpointKind::Unix && c.1 == h,
    }
}

/// Position of the first context named `name`.
pub open spec fn ctx_pos(s: Seq<ContextView>, name: Seq<char>) -> Option<nat>
    decreases s.len(),
{
    if s.len() == 0 {
        None
    } else {
        match ctx_pos(s.drop_last(), name) {
            Some(i) => Some(i),
            None => if s.last().0 == name {
                Some((s.len() - 1) as nat)
            } else {
                None
            },
        }
    }
}

/// The name `DOCKER_HOST` shows under.
pub open spec fn env_ctx_name(h: Seq<char>) -> Seq<char> {
    if h == default_socket() {
        "default"@
    } else {
        "DOCKER_HOST"@
    }
}

/// The contexts after `DOCKER_HOST` is applied: it updates the context of
/// its name (made current) or is added as a current one.
pub open spec fn with_env_host(s: Seq<ContextView>, host: Option<Seq<char>>) -> Seq<ContextView> {
    match host {
        None => s,
        Some(h) => {
            let name = env_ctx_name(h);
            match ctx_pos(s, name) {
                Some(i) => s.update(i as int, (s[i as int].0, h, endpoint_kind(h), true)),
                None => s.push((name, h, endpoint_kind(h), true)),
            }
        },
    }
}

/// Some context is current, or the first one is made current.
pub open spec fn ensure_current(s: Seq<ContextView>) -> Seq<ContextView> {
    if s.len() > 0 && !(exists|i: int| 0 <= i < s.len() && (#[trigger] s[i]).3) {
        s.update(0, (s[0].0, s[0].1, s[0].2, true))
    } else {
        s
    }
}

/// The context list: found contexts by name (or "default"), the current
/// one marked, `DOCKER_HOST` applied, and at least one current.
pub open spec fn resolved_contexts(
    found: Seq<(Seq<char>, Seq<char>)>,
    cfg: Option<Seq<char>>,
    env_host: Option<Seq<char>>,
) -> Seq<ContextView> {
    let host = env_host_of(env_host);
    let base = base_ctxs(found);
    let marked = base.map_values(
        |c: ContextView| (c.0, c.1, c.2, marked_current(c, cfg, host)),
    );
    ensure_current(with_env_host(marked, host))
}

proof fn lemma_ctx_pos(s: Seq<ContextView>, name: Seq<char>)
    ensures
        ctx_pos(s, name) matches Some(i) ==> i < s.len(),
    decreases s.len(),
{
    if s.len() > 0 {
        lemma_ctx_pos(s.drop_last(), name);
    }
}

/// Contexts compared by name.
pub open spec fn ctx_order() -> spec_fn(ContextView, ContextView) -> bool {
    |a: ContextView, b: ContextView| seq_lt(a.0, b.0)
}

proof fn lemma_sorted_ctxs_by(s: Seq<ContextView>)
    ensures
        sorted_ctxs(s) == sort_by(s, ctx_order()),
    decreases s.len(),
{
    if s.len() > 0 {
        lemma_sorted_ctxs_by(s.drop_last());
        lemma_insert_ctx_by(sorted_ctxs(s.drop_last()), s.last());
    }
}

proof fn lemma_insert_ctx_by(s: Seq<ContextView>, x: ContextView)
    ensures
        insert_ctx(s, x) == ins_by(s, x, ctx_order()),
    decreases s.len(),
{
    if s.len() > 0 {
        lemma_insert_ctx_by(s.drop_last(), x);
    }
}

/// The context list is never empty and always has a current context. With
/// `DOCKER_HOST` set, a context on that host is current. Without it, the
/// list holds the found contexts ordered by name (or only the current
/// default context when none was found), and when the found names are
/// distinct exactly one context is current.
pub proof fn lemma_resolved_contexts(
    found: Seq<(Seq<char>, Seq<char>)>,
    cfg: Option<Seq<char>>,
    env_host: Option<Seq<char>>,
)
    ensures
        resolved_contexts(found, cfg, env_host).len() > 0,
        exists|i: int|
            0 <= i < resolved_contexts(found, cfg, env_host).len() && (#[trigger] resolved_contexts(
                found,
                cfg,
                env_host,
            )[i]).3,
        env_host_of(env_host) matches Some(h) ==> exists|i: int|
            0 <= i < resolved_contexts(found, cfg, env_host).len() && (#[trigger] resolved_contexts(
                found,
                cfg,
                env_host,
            )[i]).3 && resolved_contexts(found, cfg, env_host)[i].1 == h,
        env_host_of(env_host) is None && found.len() > 0 ==> resolved_contexts(
            found,
            cfg,
            env_host,
        ).len() == found.len() && sorted_by(resolved_contexts(found, cfg, env_host), ctx_order()),
        env_host_of(env_host) is None && found.len() == 0 ==> resolved_contexts(found, cfg, env_host)
            == seq![("default"@, default_socket(), EndpointKind::Unix, true)],
        env_host_of(env_host) is None && (forall|i: int, j: int|
            0 <= i < j < found.len() ==> (#[trigger] found[i]).0 != (#[trigger] found[j]).0)
            ==> forall|i: int, j: int|
            0 <= i < resolved_contexts(found, cfg, env_host).len() && 0 <= j < resolved_contexts(
                found,
                cfg,
                env_host,
            ).len() && (#[trigger] resolved_contexts(found, cfg, env_host)[i]).3
                && (#[trigger] resolved_contexts(found, cfg, env_host)[j]).3 ==> i == j,
{
    let host = env_host_of(env_host);
    let fc = found_ctxs(found);
    lemma_sorted_ctxs_by(fc);
    lemma_sort_by(fc, ctx_order());
    let base = base_ctxs(found);
    let marked = base.map_values(
        |c: ContextView| (c.0, c.1, c.2, marked_current(c, cfg, host)),
    );
    let w = with_env_host(marked, host);
    let r = resolved_contexts(found, cfg, env_host);
    assert(r == ensure_current(w));
    if let Some(h) = host {
        lemma_ctx_pos(marked, env_ctx_name(h));
    }
    assert(w.len() >= marked.len());
    if !(exists|i: int| 0 <= i < w.len() && (#[trigger] w[i]).3) {
        assert(r[0].3);
    } else {
        assert(r == w);
    }
    if let Some(h) = host {
        let name = env_ctx_name(h);
        match ctx_pos(marked, name) {
            Some(i) => {
                lemma_ctx_pos(marked, name);
                assert(w[i as int].3 && w[i as int].1 == h);
            },
            None => {
                assert(w[w.len() - 1].3 && w[w.len() - 1].1 == h);
            },
        }
        assert(r == w);
    } else {
        assert(w == marked);
        if found.len() > 0 {
            crate::order::lemma_text_key_order(|c: ContextView| c.0);
            assert(ctx_order() =~= (|a: ContextView, b: ContextView|
                seq_lt((|c: ContextView| c.0)(a), (|c: ContextView| c.0)(b))));
            assert(base == sort_by(fc, ctx_order()));
            assert forall|i: int, j: int| 0 <= i < j < r.len() implies !ctx_order()(
                #[trigger] r[j],
                #[trigger] r[i],
            ) by {
                assert(r[i].0 == base[i].0 && r[j].0 == base[j].0);
                assert(!ctx_order()(base[j], base[i]));
            }
        } else {
            reveal_strlit("default");
            assert(r =~= seq![("default"@, default_socket(), EndpointKind::Unix, true)]);
        }
        if forall|i: int, j: int|
            0 <= i < j < found.len() ==> (#[trigger] found[i]).0 != (#[trigger] found[j]).0 {
            let key = |c: ContextView| c.0;
            assert(keys_distinct(fc, key)) by {
                assert forall|i: int, j: int| 0 <= i < j < fc.len() implies key(
                    #[trigger] fc[i],
                ) != key(#[trigger] fc[j]) by {
                    assert(fc[i].0 == found[i].0 && fc[j].0 == found[j].0);
                }
            }
            crate::order::lemma_sort_by_distinct(fc, ctx_order(), key);
            assert forall|i: int, j: int|
                0 <= i < r.len() && 0 <= j < r.len() && (#[trigger] r[i]).3 && (#[trigger] r[j]).3
                    implies i == j by {
                if exists|k: int| 0 <= k < w.len() && (#[trigger] w[k]).3 {
                    if i != j && found.len() > 0 {
                        assert(marked[i].3 && marked[j].3);
                        assert(base[i].0 == base[j].0);
                        if i < j {
                            assert(key(base[i]) != key(base[j]));
                        } else {
                            assert(key(base[j]) != key(base[i]));
                        }
                    }
                } else {
                    assert(r == w.update(0, (w[0].0, w[0].1, w[0].2, true)));
                    if i != 0 {
                        assert(r[i] == w[i]);
                    }
                    if j != 0 {
                        assert(r[j] == w[j]);
                    }
                }
            }
        }
    }
}

proof fn lemma_insert_ctx_at(s: Seq<ContextView>, x: ContextView, j: int)
    requires
        0 <= j <= s.len(),
        forall|k: int| j <= k < s.len() ==> seq_lt(x.0, (#[trigger] s[k]).0),
        j == 0 || !seq_lt(x.0, s[j - 1].0),
    ensures
        insert_ctx(s, x) == s.take(j).push(x) + s.skip(j),
    decreases s.len(),
{
    if s.len() == 0 {
        assert(s.take(j).push(x) + s.skip(j) =~= seq![x]);
    } else if j == s.len() {
        assert(s.take(j) == s);
        assert(s.skip(j) =~= Seq::<ContextView>::empty());
        assert(s.take(j).push(x) + s.skip(j) =~= s.push(x));
    } else {
        assert(seq_lt(x.0, s[s.len() - 1].0));
        lemma_insert_ctx_at(s.drop_last(), x, j);
        assert(s.drop_last().take(j) == s.take(j));
        assert((s.take(j).push(x) + s.drop_last().skip(j)).push(s.last()) =~= s.take(j).push(x)
            + s.skip(j));
    }
}

fn find_ctx(v: &Vec<DockerContext>, name: &str) -> (r: Option<usize>)
    ensures
        match r {
            Some(i) => i < v@.len() && ctx_pos(ctx_views(v@), name@) == Some(i as nat),
            None => ctx_pos(ctx_views(v@), name@) is None,
        },
{
    let mut i: usize = 0;
    while i < v.len()
        invariant
            i <= v@.len(),
            ctx_pos(ctx_views(v@.take(i as int)), name@) is None,
        decreases v@.len() - i,
    {
        assert(ctx_views(v@.take(i + 1)).drop_last() =~= ctx_views(v@.take(i as int)));
        if eq_str(v[i].name.as_str(), name) {
            assert(ctx_pos(ctx_views(v@.take(i + 1)), name@) == Some(i as nat));
            proof {
                lemma_ctx_pos_prefix(ctx_views(v@), name@, i + 1);
            }
            assert(ctx_views(v@.take(i + 1)) =~= ctx_views(v@).take(i + 1));
            return Some(i);
        }
        i += 1;
    }
    assert(v@.take(v@.len() as int) =~= v@);
    None
}

proof fn lemma_ctx_pos_prefix(m: Seq<ContextView>, name: Seq<char>, k: int)
    requires
        0 <= k <= m.len(),
        ctx_pos(m.take(k), name) is Some,
    ensures
        ctx_pos(m, name) == ctx_pos(m.take(k), name),
    decreases m.len() - k,
{
    if k < m.len() {
        assert(m.take(k + 1).drop_last() =~= m.take(k));
        lemma_ctx_pos_prefix(m, name, k + 1);
    } else {
        assert(m.take(k) =~= m);
    }
}

/// The context list from what was found on disk (name and endpoint of
/// each context), the configured current context, and `DOCKER_HOST`.
pub fn resolve_contexts(
    found: Vec<(String, String)>,
    current_from_cfg: Option<String>,
    env_host: Option<String>,
) -> (r: Vec<DockerContext>)
    ensures
        ctx_views(r@) == resolved_contexts(
            found@.map_values(|f: (String, String)| (f.0@, f.1@)),
            crate::ops::opt_view(current_from_cfg),
            crate::ops::opt_view(env_host),
        ),
{
    let ghost fv = found@.map_values(|f: (String, String)| (f.0@, f.1@));
    let ghost fc = found_ctxs(fv);
    // sort by name
    let ghost orig = found@;
    assert(orig.len() == found.len());
    let mut rest = found;
    let mut out: Vec<DockerContext> = Vec::new();
    let mut i: usize = 0;
    while rest.len() > 0
        invariant
            orig.len() <= usize::MAX,
            i + rest@.len() == orig.len(),
            rest@ == orig.skip(i as int),
            fv == orig.map_values(|f: (String, String)| (f.0@, f.1@)),
            fc == found_ctxs(fv),
            ctx_views(out@) == sorted_ctxs(fc.take(i as int)),
        decreases rest@.len(),
    {
        let (n, e) = rest.remove(0);
        let x = DockerContext::new(n, e, false);
        assert(x@ == fc[i as int]);
        assert(fc.take(i + 1).drop_last() =~= fc.take(i as int));
        assert(fc.take(i + 1).last() == x@);
        let mut j: usize = out.len();
        while j > 0 && crate::text::str_lt(x.name.as_str(), out[j - 1].name.as_str())
            invariant
                j <= out.len(),
                forall|k: int| j <= k < out.len() ==> seq_lt(x@.0, (#[trigger] ctx_views(out@)[k]).0),
            decreases j,
        {
            j -= 1;
        }
        let ghost before = ctx_views(out@);
        proof {
            lemma_insert_ctx_at(before, x@, j as int);
        }
        out.insert(j, x);
        assert(ctx_views(out@) =~= before.take(j as int).push(x@) + before.skip(j as int));
        i += 1;
        assert(rest@ =~= orig.skip(i as int));
    }
    assert(fc.take(orig.len() as int) =~= fc);
    if out.len() == 0 {
        assert(sorted_ctxs(fc).len() == 0);
        let d = DockerContext::new(owned("default"), owned("unix:///var/run/docker.sock"), false);
        proof {
            reveal_strlit("unix:///var/run/docker.sock");
            reveal_strlit("unix://");
            assert(d.endpoint@.take(7) =~= "unix://"@);
            assert(has_prefix(d.endpoint@, "unix://"@));
            assert(d@.2 == EndpointKind::Unix);
        }
        out.push(d);
        assert(ctx_views(out@) =~= seq![d@]);
        assert(base_ctxs(fv) == seq![("default"@, default_socket(), EndpointKind::Unix, false)]);
    }
    let ghost base = ctx_views(out@);
    assert(base == base_ctxs(fv));
    // the configured or DOCKER_HOST-matching context is current
    let host: Option<String> = match env_host {
        Some(h) => if h.as_str().is_empty() {
            None
        } else {
            Some(h)
        },
        None => None,
    };
    let ghost hv = crate::ops::opt_view(host);
    assert(hv == env_host_of(crate::ops::opt_view(env_host)));
    let cur_name: String = match &current_from_cfg {
        Some(c) => c.clone(),
        None => owned("default"),
    };
    let mut k: usize = 0;
    while k < out.len()
        invariant
            k <= out@.len(),
            out@.len() == base.len(),
            hv == crate::ops::opt_view(host),
            cur_name@ == match crate::ops::opt_view(current_from_cfg) {
                Some(n) => n,
                None => "default"@,
            },
            forall|j: int|
                0 <= j < out@.len() ==> (#[trigger] ctx_views(out@)[j]) == if j < k {
                    (
                        base[j].0,
                        base[j].1,
                        base[j].2,
                        marked_current(base[j], crate::ops::opt_view(current_from_cfg), hv),
                    )
                } else {
                    base[j]
                },
        decreases out@.len() - k,
    {
        let cur = match &host {
            None => eq_str(out[k].name.as_str(), cur_name.as_str()),
            Some(h) => out[k].kind == EndpointKind::Unix && eq_str(
                out[k].endpoint.as_str(),
                h.as_str(),
            ),
        };
        let mut c = out[k].clone();
        c.current = cur;
        assert(ctx_views(out@)[k as int] == out@[k as int]@);
        assert(c@ == (
            base[k as int].0,
            base[k as int].1,
            base[k as int].2,
            marked_current(base[k as int], crate::ops::opt_view(current_from_cfg), hv),
        ));
        let ghost before = out@;
        out.set(k, c);
        assert(ctx_views(out@)[k as int] == c@);
        proof {
            assert forall|j: int| 0 <= j < out@.len() implies (#[trigger] ctx_views(out@)[j]) == if j
                < k + 1 {
                (
                    base[j].0,
                    base[j].1,
                    base[j].2,
                    marked_current(base[j], crate::ops::opt_view(current_from_cfg), hv),
                )
            } else {
                base[j]
            } by {
                if j != k {
                    assert(ctx_views(out@)[j] == ctx_views(before)[j]);
                }
            }
        }
        k += 1;
    }
    let ghost marked = ctx_views(out@);
    assert(marked =~= base.map_values(
        |c: ContextView| (c.0, c.1, c.2, marked_current(c, crate::ops::opt_view(current_from_cfg), hv)),
    ));
    // DOCKER_HOST
    match host {
        Some(h) => {
            let name: String = if eq_str(h.as_str(), "unix:///var/run/docker.sock") {
                owned("default")
            } else {
                owned("DOCKER_HOST")
            };
            match find_ctx(&out, name.as_str()) {
                Some(p) => {
                    let mut c = out[p].clone();
                    c.kind = DockerContext::kind_of(h.as_str());
                    c.endpoint = h;
                    c.current = true;
                    let ghost before = ctx_views(out@);
                    out.set(p, c);
                    assert(ctx_views(out@) =~= before.update(
                        p as int,
                        (before[p as int].0, hv->0, endpoint_kind(hv->0), true),
                    ));
                },
                None => {
                    let ghost before = ctx_views(out@);
                    let c = DockerContext::new(name, h, true);
                    out.push(c);
                    assert(ctx_views(out@) =~= before.push(c@));
                },
            }
        },
        None => {},
    }
    assert(ctx_views(out@) == with_env_host(marked, hv));
    // make sure one is current
    let mut any = false;
    let mut m: usize = 0;
    while m < out.len()
        invariant
            m <= out@.len(),
            any <==> exists|j: int| 0 <= j < m && (#[trigger] ctx_views(out@)[j]).3,
        decreases out@.len() - m,
    {
        if out[m].current {
            assert(ctx_views(out@)[m as int].3);
            any = true;
        }
        m += 1;
    }
    if !any && out.len() > 0 {
        let ghost before = ctx_views(out@);
        let mut c = out[0].clone();
        c.current = true;
        out.set(0, c);
        assert(ctx_views(out@) =~= before.update(0, (before[0].0, before[0].1, before[0].2, true)));
    }
    out
}

// ---------------------------------------------------------------- ssh endpoints

/// The ssh target, port and remote socket of an `ssh://` endpoint
/// (`ssh://[user@]host[:port][/remote/socket]`), or why there are none.
pub open spec fn ssh_parts(e: Seq<char>) -> Result<(Seq<char>, Option<Seq<char>>, Seq<char>), Seq<char>> {
    if !has_prefix(e, "ssh://"@) {
        Err("not an ssh endpoint"@)
    } else {
        let rest0 = e.skip(6);
        let (rest, sock) = match first_index(rest0, '/') {
            Some(i) => (rest0.take(i as int), rest0.skip(i as int)),
            None => (rest0, "/var/run/docker.sock"@),
        };
        let (userhost, port) = match last_index(rest, ':') {
            Some(i) => {
                let p = rest.skip(i as int + 1);
                if p.len() > 0 && crate::text::all_digits(p) {
                    (rest.take(i as int), Some(p))
                } else {
                    (rest, None)
                }
            },
            None => (rest, None),
        };
        let target = match first_index(userhost, '@') {
            Some(i) => userhost.take(i as int) + "@"@ + userhost.skip(i as int + 1),
            None => userhost,
        };
        if target.len() == 0 {
            Err("empty ssh target"@)
        } else {
            Ok((target, port, sock))
        }
    }
}

/// `:port` for a given port, nothing otherwise.
pub open spec fn port_suffix(p: Option<Seq<char>>) -> Seq<char> {
    match p {
        Some(p) => ":"@ + p,
        None => Seq::empty(),
    }
}

proof fn lemma_target_whole(u: Seq<char>)
    ensures
        match first_index(u, '@') {
            Some(i) => u.take(i as int) + "@"@ + u.skip(i as int + 1),
            None => u,
        } == u,
{
    reveal_strlit("@");
    crate::text::lemma_first_index(u, '@');
    if let Some(i) = first_index(u, '@') {
        assert(u.take(i as int) + "@"@ + u.skip(i as int + 1) =~= u);
    }
}

proof fn lemma_port_split(rest: Seq<char>)
    ensures
        ({
            let (u, p) = match last_index(rest, ':') {
                Some(i) => {
                    let q = rest.skip(i as int + 1);
                    if q.len() > 0 && crate::text::all_digits(q) {
                        (rest.take(i as int), Some(q))
                    } else {
                        (rest, None)
                    }
                },
                None => (rest, None),
            };
            u + port_suffix(p) == rest && u.len() <= rest.len() && u == rest.take(u.len() as int)
        }),
{
    reveal_strlit(":");
    crate::text::lemma_last_index(rest, ':');
    if let Some(i) = last_index(rest, ':') {
        let q = rest.skip(i as int + 1);
        assert(rest.take(i as int) + (":"@ + q) =~= rest);
        assert(rest.take(i as int) + ":"@ + q =~= rest);
    }
    assert(rest + Seq::<char>::empty() =~= rest);
    assert(rest.take(rest.len() as int) =~= rest);
}

proof fn lemma_sock_split(rest0: Seq<char>)
    ensures
        match first_index(rest0, '/') {
            Some(i) => i < rest0.len() && rest0.take(i as int) + rest0.skip(i as int) == rest0
                && rest0[i as int] == '/' && forall|k: int| 0 <= k < i ==> rest0[k] != '/',
            None => forall|k: int| 0 <= k < rest0.len() ==> rest0[k] != '/',
        },
{
    crate::text::lemma_first_index(rest0, '/');
    if let Some(i) = first_index(rest0, '/') {
        assert(rest0.take(i as int) + rest0.skip(i as int) =~= rest0);
    }
}

/// The parts of an ssh endpoint put back together give the endpoint: the
/// target exactly as written (user@host, the user kept), then `:port` when
/// a port was given, then the socket path when one was given; without one
/// the socket is the daemon's default path.
pub proof fn lemma_ssh_parts_rebuild(e: Seq<char>)
    ensures
        ssh_parts(e) matches Ok((t, p, s)) ==> (forall|k: int|
            6 <= k < e.len() ==> e[k] != '/') ==> e == "ssh://"@ + t + port_suffix(p) && s
            == "/var/run/docker.sock"@,
        ssh_parts(e) matches Ok((t, p, s)) ==> (exists|k: int| 6 <= k < e.len() && e[k] == '/')
            ==> e == "ssh://"@ + t + port_suffix(p) + s,
        ssh_parts(e) matches Ok((t, p, s)) ==> forall|k: int| 0 <= k < t.len() ==> t[k] != '/',
{
    reveal_strlit("ssh://");
    if let Ok((t, p, s)) = ssh_parts(e) {
        let rest0 = e.skip(6);
        assert(e =~= "ssh://"@ + rest0);
        lemma_sock_split(rest0);
        let rest = match first_index(rest0, '/') {
            Some(i) => rest0.take(i as int),
            None => rest0,
        };
        let sock = match first_index(rest0, '/') {
            Some(i) => rest0.skip(i as int),
            None => "/var/run/docker.sock"@,
        };
        assert(s == sock);
        lemma_port_split(rest);
        let up = match last_index(rest, ':') {
            Some(i) => {
                let q = rest.skip(i as int + 1);
                if q.len() > 0 && crate::text::all_digits(q) {
                    (rest.take(i as int), Some(q))
                } else {
                    (rest, None)
                }
            },
            None => (rest, None),
        };
        assert(p == up.1);
        lemma_target_whole(up.0);
        assert(t == up.0);
        assert(rest == t + port_suffix(p));
        assert forall|k: int| 0 <= k < t.len() implies t[k] != '/' by {
            assert(t[k] == rest[k]);
            assert(rest[k] == rest0[k]);
        }
        match first_index(rest0, '/') {
            Some(i) => {
                assert(e[6 + i as int] == rest0[i as int]);
                assert(e =~= "ssh://"@ + t + port_suffix(p) + s);
            },
            None => {
                assert forall|k: int| 6 <= k < e.len() implies e[k] != '/' by {
                    assert(e[k] == rest0[k - 6]);
                }
            },
        }
    }
}

pub fn parse_ssh_endpoint(endpoint: &str) -> (r: Result<(String, Option<String>, String), String>)
    ensures
        match ssh_parts(endpoint@) {
            Ok((t, p, s)) => r is Ok && r->Ok_0.0@ == t && crate::ops::opt_view(r->Ok_0.1) == p
                && r->Ok_0.2@ == s,
            Err(m) => r is Err && r->Err_0@ == m,
        },
{
    let e = chars_of(endpoint);
    let pre = chars_of("ssh://");
    proof {
        reveal_strlit("ssh://");
    }
    if !starts_with_chars(&e, &pre) {
        return Err(owned("not an ssh endpoint"));
    }
    let rest0 = slice_chars(&e, 6, e.len());
    assert(rest0@ =~= e@.skip(6));
    proof {
        crate::text::lemma_first_index(rest0@, '/');
    }
    let (rest, sock): (Vec<char>, String) = match first_pos(&rest0, '/') {
        Some(i) => {
            let r = slice_chars(&rest0, 0, i);
            let s = slice_chars(&rest0, i, rest0.len());
            assert(s@ =~= rest0@.skip(i as int));
            (r, string_of(&s))
        },
        None => (slice_chars(&rest0, 0, rest0.len()), owned("/var/run/docker.sock")),
    };
    assert(rest0@.subrange(0, rest0@.len() as int) =~= rest0@);
    proof {
        crate::text::lemma_last_index(rest@, ':');
    }
    let (userhost, port): (Vec<char>, Option<String>) = match last_pos(&rest, ':') {
        Some(i) => {
            let p = slice_chars(&rest, i + 1, rest.len());
            assert(p@ =~= rest@.skip(i as int + 1));
            if p.len() > 0 && all_digit_chars(&p) {
                (slice_chars(&rest, 0, i), Some(string_of(&p)))
            } else {
                (slice_chars(&rest, 0, rest.len()), None)
            }
        },
        None => (slice_chars(&rest, 0, rest.len()), None),
    };
    assert(rest@.subrange(0, rest@.len() as int) =~= rest@);
    proof {
        crate::text::lemma_first_index(userhost@, '@');
    }
    let target: Vec<char> = match first_pos(&userhost, '@') {
        Some(i) => {
            let u = slice_chars(&userhost, 0, i);
            let h = slice_chars(&userhost, i + 1, userhost.len());
            let mut t = u;
            t.push('@');
            let mut j: usize = 0;
            let ghost base = t@;
            while j < h.len()
                invariant
                    j <= h@.len(),
                    t@ == base + h@.take(j as int),
                decreases h@.len() - j,
            {
                t.push(h[j]);
                j += 1;
                assert(t@ =~= base + h@.take(j as int));
            }
            assert(h@.take(h@.len() as int) =~= h@);
            assert(t@ =~= userhost@.take(i as int) + "@"@ + userhost@.skip(i as int + 1)) by {
                reveal_strlit("@");
            }
            t
        },
        None => userhost,
    };
    if target.len() == 0 {
        return Err(owned("empty ssh target"));
    }
    Ok((string_of(&target), port, sock))
}

fn all_digit_chars(v: &Vec<char>) -> (r: bool)
    ensures
        r == crate::text::all_digits(v@),
{
    let mut i: usize = 0;
    while i < v.len()
        invariant
            i <= v@.len(),
            forall|j: int| 0 <= j < i ==> '0' <= #[trigger] v@[j] <= '9',
        decreases v@.len() - i,
    {
        if !('0' <= v[i] && v[i] <= '9') {
            return false;
        }
        i += 1;
    }
    true
}

// ---------------------------------------------------------------- sockets

/// The local socket path of a unix endpoint (`unix://` dropped).
pub open spec fn unix_path(e: Seq<char>) -> Seq<char> {
    if has_prefix(e, "unix://"@) {
        e.skip(7)
    } else {
        e
    }
}

pub fn unix_socket_path(endpoint: &str) -> (r: String)
    ensures
        r@ == unix_path(endpoint@),
{
    let v = chars_of(endpoint);
    let pre = chars_of("unix://");
    proof {
        reveal_strlit("unix://");
    }
    if starts_with_chars(&v, &pre) {
        let t = slice_chars(&v, 7, v.len());
        assert(t@ =~= v@.skip(7));
        string_of(&t)
    } else {
        owned(endpoint)
    }
}

/// A context name made safe for a file name: ASCII letters and digits
/// kept, anything else `_`.
pub open spec fn safe_name(n: Seq<char>) -> Seq<char> {
    n.map_values(
        |c: char|
            if ('a' <= c <= 'z') || ('A' <= c <= 'Z') || ('0' <= c <= '9') {
                c
            } else {
                '_'
            },
    )
}

/// The local socket an ssh tunnel for context `ctx_name` listens on, under
/// the temporary directory `tmp`.
pub open spec fn tunnel_socket(tmp: Seq<char>, ctx_name: Seq<char>) -> Seq<char> {
    tmp + "/dockui-docker-"@ + safe_name(ctx_name) + ".sock"@
}

pub fn tunnel_socket_path(tmp: &str, ctx_name: &str) -> (r: String)
    ensures
        r@ == tunnel_socket(tmp@, ctx_name@),
{
    let v = chars_of(ctx_name);
    let mut safe: Vec<char> = Vec::new();
    let mut i: usize = 0;
    while i < v.len()
        invariant
            i <= v@.len(),
            safe@ == safe_name(v@).take(i as int),
        decreases v@.len() - i,
    {
        let c = v[i];
        let k = if ('a' <= c && c <= 'z') || ('A' <= c && c <= 'Z') || ('0' <= c && c <= '9') {
            c
        } else {
            '_'
        };
        safe.push(k);
        i += 1;
        assert(safe@ =~= safe_name(v@).take(i as int));
    }
    assert(safe_name(v@).take(v@.len() as int) =~= safe_name(v@));
    let mut r = concat2(tmp, "/dockui-docker-");
    crate::text::push_chars(&mut r, &safe);
    crate::text::push_str(&mut r, ".sock");
    r
}

// ---------------------------------------------------------------- container list

/// One port of a container as the daemon's list reports it.
pub struct SummaryPort {
    pub ip: Option<String>,
    pub private_port: u16,
    pub public_port: Option<u16>,
    pub typ: Option<String>,
}

/// A container as the daemon's list reports it.
pub struct ContainerSummary {
    pub id: Option<String>,
    pub names: Option<Vec<String>>,
    pub image: Option<String>,
    pub state: Option<String>,
    pub status: Option<String>,
    pub created: Option<i64>,
    pub command: Option<String>,
    pub labels: Option<Vec<(String, String)>>,
    pub ports: Option<Vec<SummaryPort>>,
}

/// `ip:public->private:type` for a published port.
pub open spec fn port_line(p: SummaryPort) -> Seq<char> {
    crate::ops::opt_seq(crate::ops::opt_view(p.ip)) + (if p.ip is None {
        "0.0.0.0"@
    } else {
        Seq::empty()
    }) + ":"@ + crate::text::dec(p.public_port->0 as nat) + "->"@ + crate::text::dec(
        p.private_port as nat,
    ) + ":"@ + crate::ops::opt_seq(crate::ops::opt_view(p.typ))
}

/// The published ports of a list entry, in order.
pub open spec fn port_lines(ps: Seq<SummaryPort>) -> Seq<Seq<char>>
    decreases ps.len(),
{
    if ps.len() == 0 {
        Seq::empty()
    } else {
        let rest = port_lines(ps.drop_last());
        if ps.last().public_port is Some {
            rest.push(port_line(ps.last()))
        } else {
            rest
        }
    }
}

/// The container name from the list's names: the first, without leading
/// slashes.
pub open spec fn summary_name(names: Option<Vec<String>>) -> Seq<char> {
    match names {
        Some(v) => if v@.len() > 0 {
            crate::files::strip_lead(v@[0]@, '/')
        } else {
            Seq::empty()
        },
        None => Seq::empty(),
    }
}

fn text_or(o: Option<String>, d: &str) -> (r: String)
    ensures
        r@ == match o {
            Some(s) => s@,
            None => d@,
        },
{
    match o {
        Some(s) => s,
        None => owned(d),
    }
}

fn strip_slashes(s: &str) -> (r: String)
    ensures
        r@ == crate::files::strip_lead(s@, '/'),
{
    let v = chars_of(s);
    let mut a: usize = 0;
    assert(v@.skip(0) =~= v@);
    while a < v.len() && v[a] == '/'
        invariant
            a <= v@.len(),
            crate::files::strip_lead(v@, '/') == crate::files::strip_lead(v@.skip(a as int), '/'),
        decreases v@.len() - a,
    {
        assert(v@.skip(a as int).drop_first() =~= v@.skip(a + 1));
        a += 1;
    }
    let t = slice_chars(&v, a, v.len());
    assert(t@ =~= v@.skip(a as int));
    string_of(&t)
}

/// A container row from the daemon's list entry.
pub fn container_from_summary(c: ContainerSummary) -> (r: Container)
    ensures
        r.id@ == crate::ops::opt_seq(crate::ops::opt_view(c.id)),
        r.name@ == summary_name(c.names),
        r.image@ == crate::ops::opt_seq(crate::ops::opt_view(c.image)),
        r.state@ == match c.state {
            Some(s) => s@,
            None => "unknown"@,
        },
        r.status@ == crate::ops::opt_seq(crate::ops::opt_view(c.status)),
        r.created == match c.created {
            Some(t) => t,
            None => 0i64,
        },
        r.command@ == crate::ops::opt_seq(crate::ops::opt_view(c.command)),
        r.labels@ == match c.labels {
            Some(l) => l@,
            None => Seq::empty(),
        },
        strs(r.ports@) == match c.ports {
            Some(ps) => port_lines(ps@),
            None => Seq::empty(),
        },
{
    proof {
        reveal_strlit("");
        assert(""@ =~= Seq::<char>::empty());
    }
    let name = match &c.names {
        Some(v) => if v.len() > 0 {
            strip_slashes(v[0].as_str())
        } else {
            String::new()
        },
        None => String::new(),
    };
    let mut ports: Vec<String> = Vec::new();
    match &c.ports {
        Some(ps) => {
            let mut i: usize = 0;
            while i < ps.len()
                invariant
                    i <= ps@.len(),
                    strs(ports@) == port_lines(ps@.take(i as int)),
                decreases ps@.len() - i,
            {
                assert(ps@.take(i + 1).drop_last() =~= ps@.take(i as int));
                assert(ps@.take(i + 1).last() == ps@[i as int]);
                let p = &ps[i];
                match p.public_port {
                    Some(pubp) => {
                        let mut line = match &p.ip {
                            Some(ip) => ip.clone(),
                            None => owned("0.0.0.0"),
                        };
                        crate::text::push_str(&mut line, ":");
                        let a = crate::text::u64_text(pubp as u64);
                        crate::text::push_str(&mut line, a.as_str());
                        crate::text::push_str(&mut line, "->");
                        let b = crate::text::u64_text(p.private_port as u64);
                        crate::text::push_str(&mut line, b.as_str());
                        crate::text::push_str(&mut line, ":");
                        match &p.typ {
                            Some(t) => crate::text::push_str(&mut line, t.as_str()),
                            None => {},
                        }
                        assert(line@ =~= port_line(*p));
                        let ghost before = ports@;
                        ports.push(line);
                        proof {
                            crate::text::lemma_map_push(before, line, |s: String| s@);
                        }
                    },
                    None => {},
                }
                i += 1;
            }
            assert(ps@.take(ps@.len() as int) =~= ps@);
        },
        None => {},
    }
    Container {
        id: text_or(c.id, ""),
        name,
        image: text_or(c.image, ""),
        state: text_or(c.state, "unknown"),
        status: text_or(c.status, ""),
        created: match c.created {
            Some(t) => t,
            None => 0,
        },
        command: text_or(c.command, ""),
        labels: match c.labels {
            Some(l) => l,
            None => Vec::new(),
        },
        ports,
    }
}

} // verus!
