//! The tree of the main view: compose projects, their services and
//! containers, standalone containers and volumes, and the search filter
//! over it.
use vstd::prelude::*;

use crate::model::{Container, Volume};
use crate::text::{concat2, dec, owned, push_str, u64_text};
use crate::util::{sorted_texts, strs};

verus! {

pub enum RowKind {
    Section(&'static str),
    Project(String),
    Service(String, String),
    Container(String),
    Volume(String),
}

/// A row kind as (tag, first name, second name): 0 section, 1 project,
/// 2 service (project, service), 3 container (id), 4 volume.
pub type KindV = (int, Seq<char>, Seq<char>);

pub open spec fn kind_view(k: RowKind) -> KindV {
    match k {
        RowKind::Section(s) => (0, s@, Seq::empty()),
        RowKind::Project(p) => (1, p@, Seq::empty()),
        RowKind::Service(p, s) => (2, p@, s@),
        RowKind::Container(id) => (3, id@, Seq::empty()),
        RowKind::Volume(n) => (4, n@, Seq::empty()),
    }
}

impl Clone for RowKind {
    fn clone(&self) -> (r: Self)
        ensures
            kind_view(r) == kind_view(*self),
    {
        match self {
            RowKind::Section(s) => RowKind::Section(s),
            RowKind::Project(p) => RowKind::Project(p.clone()),
            RowKind::Service(p, s) => RowKind::Service(p.clone(), s.clone()),
            RowKind::Container(id) => RowKind::Container(id.clone()),
            RowKind::Volume(n) => RowKind::Volume(n.clone()),
        }
    }
}

pub struct Row {
    pub kind: RowKind,
    pub key: String,
    pub depth: usize,
    pub has_children: bool,
    pub expanded: bool,
    pub label: String,
    pub sub: String,
    pub state: Option<String>,
}

/// A row as (kind, key, depth, has children, expanded, label, sub, state).
pub type RowV = (KindV, Seq<char>, nat, bool, bool, Seq<char>, Seq<char>, Option<Seq<char>>);

impl View for Row {
    type V = RowV;

    open spec fn view(&self) -> RowV {
        (
            kind_view(self.kind),
            self.key@,
            self.depth as nat,
            self.has_children,
            self.expanded,
            self.label@,
            self.sub@,
            crate::ops::opt_view(self.state),
        )
    }
}

impl Clone for Row {
    fn clone(&self) -> (r: Self)
        ensures
            r@ == self@,
    {
        Row {
            kind: self.kind.clone(),
            key: self.key.clone(),
            depth: self.depth,
            has_children: self.has_children,
            expanded: self.expanded,
            label: self.label.clone(),
            sub: self.sub.clone(),
            state: crate::ops::clone_opt(&self.state),
        }
    }
}

pub open spec fn rows_view(rows: Seq<Row>) -> Seq<RowV> {
    rows.map_values(|r: Row| r@)
}

// ---------------------------------------------------------------- grouping

/// The containers of compose project `p`, in order.
pub open spec fn of_project(cs: Seq<Container>, p: Seq<char>) -> Seq<Container>
    decreases cs.len(),
{
    if cs.len() == 0 {
        cs
    } else {
        let r = of_project(cs.drop_last(), p);
        if cs.last().project() == Some(p) {
            r.push(cs.last())
        } else {
            r
        }
    }
}

/// The containers that belong to some compose project, in order.
pub open spec fn with_project(cs: Seq<Container>) -> Seq<Container>
    decreases cs.len(),
{
    if cs.len() == 0 {
        cs
    } else {
        let r = with_project(cs.drop_last());
        if cs.last().project() is Some {
            r.push(cs.last())
        } else {
            r
        }
    }
}

/// The containers outside any compose project, in order.
pub open spec fn standalone(cs: Seq<Container>) -> Seq<Container>
    decreases cs.len(),
{
    if cs.len() == 0 {
        cs
    } else {
        let r = standalone(cs.drop_last());
        if cs.last().project() is None {
            r.push(cs.last())
        } else {
            r
        }
    }
}

/// The service a container is listed under ("—" without a service label).
pub open spec fn svc_name(c: Container) -> Seq<char> {
    match c.service() {
        Some(s) => s,
        None => "—"@,
    }
}

/// A container is listed under service `s`.
pub open spec fn in_service(c: Container, s: Seq<char>) -> bool {
    match c.service() {
        Some(x) => x == s,
        None => s == "—"@,
    }
}

/// The containers listed under service `s`, in order.
pub open spec fn of_service(cs: Seq<Container>, s: Seq<char>) -> Seq<Container>
    decreases cs.len(),
{
    if cs.len() == 0 {
        cs
    } else {
        let r = of_service(cs.drop_last(), s);
        if in_service(cs.last(), s) {
            r.push(cs.last())
        } else {
            r
        }
    }
}

/// How many of the containers run.
pub open spec fn n_running(cs: Seq<Container>) -> nat
    decreases cs.len(),
{
    if cs.len() == 0 {
        0
    } else {
        n_running(cs.drop_last()) + if cs.last().running() {
            1nat
        } else {
            0nat
        }
    }
}

/// `s` with runs of equal neighbours collapsed.
pub open spec fn dedup(s: Seq<Seq<char>>) -> Seq<Seq<char>>
    decreases s.len(),
{
    if s.len() == 0 {
        s
    } else {
        let d = dedup(s.drop_last());
        if d.len() > 0 && d.last() == s.last() {
            d
        } else {
            d.push(s.last())
        }
    }
}

/// The project labels of the containers that have one, in order.
pub open spec fn project_list(cs: Seq<Container>) -> Seq<Seq<char>>
    decreases cs.len(),
{
    if cs.len() == 0 {
        Seq::empty()
    } else {
        let r = project_list(cs.drop_last());
        match cs.last().project() {
            Some(p) => r.push(p),
            None => r,
        }
    }
}

/// The compose projects, sorted, each once.
pub open spec fn projects_of(cs: Seq<Container>) -> Seq<Seq<char>> {
    dedup(sorted_texts(project_list(cs)))
}

/// The services of a project's containers, sorted, each once.
pub open spec fn services_of(cs: Seq<Container>) -> Seq<Seq<char>> {
    dedup(sorted_texts(cs.map_values(|c: Container| svc_name(c))))
}

/// Running containers first, then by name.
pub open spec fn c_lt(a: Container, b: Container) -> bool {
    crate::util::container_lt(a, b)
}

pub open spec fn insert_c(s: Seq<Container>, x: Container) -> Seq<Container>
    decreases s.len(),
{
    if s.len() == 0 || !c_lt(x, s.last()) {
        s.push(x)
    } else {
        insert_c(s.drop_last(), x).push(s.last())
    }
}

/// Containers in tree order: running first, then by name (stable).
pub open spec fn sorted_cs(s: Seq<Container>) -> Seq<Container>
    decreases s.len(),
{
    if s.len() == 0 {
        s
    } else {
        insert_c(sorted_cs(s.drop_last()), s.last())
    }
}

// ---------------------------------------------------------------- the rows

/// Whether a node shows its children: always while a filter is active.
pub open spec fn expd(exp: Seq<Seq<char>>, show_all: bool, key: Seq<char>) -> bool {
    show_all || exp.contains(key)
}

/// "running" when all run, "exited" when none does, else "partial".
pub open spec fn state_word(run: nat, total: nat) -> Seq<char> {
    if run == total {
        "running"@
    } else if run == 0 {
        "exited"@
    } else {
        "partial"@
    }
}

pub open spec fn ctr_row(c: Container, depth: nat) -> RowV {
    (
        (3, c.id@, Seq::empty()),
        "c:"@ + c.id@,
        depth,
        false,
        false,
        c.name@,
        c.image@,
        Some(c.state@),
    )
}

pub open spec fn ctr_rows(cs: Seq<Container>, depth: nat) -> Seq<RowV> {
    cs.map_values(|c: Container| ctr_row(c, depth))
}

/// The row of service `s` of project `p` and, when it is expanded, its
/// containers.
pub open spec fn svc_rows(
    cs_p: Seq<Container>,
    p: Seq<char>,
    s: Seq<char>,
    exp: Seq<Seq<char>>,
    show_all: bool,
) -> Seq<RowV> {
    let scs = of_service(cs_p, s);
    let r = n_running(scs);
    let skey = "p:"@ + p + "/"@ + s;
    let e = expd(exp, show_all, skey);
    seq![
        (
            (2, p, s),
            skey,
            2nat,
            true,
            e,
            s,
            dec(r) + "/"@ + dec(scs.len()),
            Some(state_word(r, scs.len())),
        ),
    ] + if e {
        ctr_rows(sorted_cs(scs), 3)
    } else {
        Seq::empty()
    }
}

pub open spec fn svcs_rows(
    cs_p: Seq<Container>,
    p: Seq<char>,
    ss: Seq<Seq<char>>,
    exp: Seq<Seq<char>>,
    show_all: bool,
) -> Seq<RowV>
    decreases ss.len(),
{
    if ss.len() == 0 {
        Seq::empty()
    } else {
        svcs_rows(cs_p, p, ss.drop_last(), exp, show_all) + svc_rows(
            cs_p,
            p,
            ss.last(),
            exp,
            show_all,
        )
    }
}

/// The row of project `p` and, when it is expanded, its services.
pub open spec fn proj_rows(
    cs: Seq<Container>,
    p: Seq<char>,
    exp: Seq<Seq<char>>,
    show_all: bool,
) -> Seq<RowV> {
    let cs_p = of_project(cs, p);
    let r = n_running(cs_p);
    let key = "p:"@ + p;
    let e = expd(exp, show_all, key);
    seq![
        (
            (1, p, Seq::empty()),
            key,
            1nat,
            true,
            e,
            p,
            dec(r) + "/"@ + dec(cs_p.len()) + " up"@,
            Some(state_word(r, cs_p.len())),
        ),
    ] + if e {
        svcs_rows(cs_p, p, services_of(cs_p), exp, show_all)
    } else {
        Seq::empty()
    }
}

pub open spec fn projs_rows(
    cs: Seq<Container>,
    ps: Seq<Seq<char>>,
    exp: Seq<Seq<char>>,
    show_all: bool,
) -> Seq<RowV>
    decreases ps.len(),
{
    if ps.len() == 0 {
        Seq::empty()
    } else {
        projs_rows(cs, ps.drop_last(), exp, show_all) + proj_rows(cs, ps.last(), exp, show_all)
    }
}

/// The size and project a volume row shows.
pub open spec fn vol_sub(v: Volume) -> Seq<char> {
    match (v.size, v.project()) {
        (Some(s), Some(p)) => crate::util::iec_bytes(s as nat) + " · "@ + p,
        (Some(s), None) => crate::util::iec_bytes(s as nat),
        (None, Some(p)) => p,
        (None, None) => Seq::empty(),
    }
}

pub open spec fn vol_row(v: Volume) -> RowV {
    ((4, v.name@, Seq::empty()), "v:"@ + v.name@, 1nat, false, false, v.name@, vol_sub(v), None)
}

/// "n · r/t up" for a section with members.
pub open spec fn section_sub(n: nat, run: nat, tot: nat) -> Seq<char> {
    if n == 0 {
        "0"@
    } else {
        dec(n) + " · "@ + dec(run) + "/"@ + dec(tot) + " up"@
    }
}

/// The projects section: its row and, when expanded, every project.
pub open spec fn projects_part(cs: Seq<Container>, exp: Seq<Seq<char>>, show_all: bool) -> Seq<
    RowV,
> {
    let ps = projects_of(cs);
    let ip = with_project(cs);
    let ep = expd(exp, show_all, "sec:projects"@);
    seq![
        (
            (0, "PROJECTS (COMPOSE)"@, Seq::empty()),
            "sec:projects"@,
            0nat,
            ps.len() > 0,
            ep,
            "Projects"@,
            section_sub(ps.len(), n_running(ip), ip.len()),
            None,
        ),
    ] + if ep {
        projs_rows(cs, ps, exp, show_all)
    } else {
        Seq::empty()
    }
}

/// The standalone containers section: its row and, when expanded, the
/// containers outside compose projects.
pub open spec fn standalone_part(cs: Seq<Container>, exp: Seq<Seq<char>>, show_all: bool) -> Seq<
    RowV,
> {
    let sa = standalone(cs);
    let ec = expd(exp, show_all, "sec:containers"@);
    seq![
        (
            (0, "CONTAINERS (STANDALONE)"@, Seq::empty()),
            "sec:containers"@,
            0nat,
            sa.len() > 0,
            ec,
            "Containers"@,
            section_sub(sa.len(), n_running(sa), sa.len()),
            None,
        ),
    ] + if ec {
        ctr_rows(sorted_cs(sa), 1)
    } else {
        Seq::empty()
    }
}

/// The volumes section: its row and, when expanded, every volume.
pub open spec fn volumes_part(vs: Seq<Volume>, exp: Seq<Seq<char>>, show_all: bool) -> Seq<RowV> {
    let ev = expd(exp, show_all, "sec:volumes"@);
    seq![
        (
            (0, "VOLUMES"@, Seq::empty()),
            "sec:volumes"@,
            0nat,
            vs.len() > 0,
            ev,
            "Volumes"@,
            dec(vs.len()),
            None,
        ),
    ] + if ev {
        vs.map_values(|v: Volume| vol_row(v))
    } else {
        Seq::empty()
    }
}

/// The tree rows: the projects section with its projects, services and
/// containers; the standalone containers section; the volumes section.
/// `exp` holds the expanded keys; with `show_all` every node is expanded.
pub open spec fn tree_spec(
    cs: Seq<Container>,
    vs: Seq<Volume>,
    exp: Seq<Seq<char>>,
    show_all: bool,
) -> Seq<RowV> {
    projects_part(cs, exp, show_all) + standalone_part(cs, exp, show_all) + volumes_part(
        vs,
        exp,
        show_all,
    )
}

// ---------------------------------------------------------------- building

/// The containers at positions `idx`.
pub open spec fn idx_view(cs: Seq<Container>, idx: Seq<usize>) -> Seq<Container> {
    idx.map_values(|i: usize| cs[i as int])
}

/// Every position is one of `cs`.
pub open spec fn idx_ok(cs: Seq<Container>, idx: Seq<usize>) -> bool {
    forall|j: int| 0 <= j < idx.len() ==> (#[trigger] idx[j]) < cs.len()
}

proof fn lemma_idx_push(cs: Seq<Container>, idx: Seq<usize>, i: usize)
    ensures
        idx_view(cs, idx.push(i)) == idx_view(cs, idx).push(cs[i as int]),
{
    assert(idx_view(cs, idx.push(i)) =~= idx_view(cs, idx).push(cs[i as int]));
}

pub(crate) fn project_members(cs: &Vec<Container>, p: &str) -> (r: Vec<usize>)
    ensures
        idx_ok(cs@, r@),
        idx_view(cs@, r@) == of_project(cs@, p@),
{
    let mut r: Vec<usize> = Vec::new();
    let mut i: usize = 0;
    while i < cs.len()
        invariant
            i <= cs@.len(),
            idx_ok(cs@, r@),
            idx_view(cs@, r@) == of_project(cs@.take(i as int), p@),
        decreases cs@.len() - i,
    {
        assert(cs@.take(i + 1).drop_last() =~= cs@.take(i as int));
        assert(cs@.take(i + 1).last() == cs@[i as int]);
        let keep = match cs[i].compose_project() {
            Some(q) => crate::text::eq_str(q.as_str(), p),
            None => false,
        };
        if keep {
            proof {
                lemma_idx_push(cs@, r@, i);
            }
            r.push(i);
        }
        i += 1;
    }
    assert(cs@.take(cs@.len() as int) =~= cs@);
    r
}

fn standalone_members(cs: &Vec<Container>) -> (r: Vec<usize>)
    ensures
        idx_ok(cs@, r@),
        idx_view(cs@, r@) == standalone(cs@),
{
    let mut r: Vec<usize> = Vec::new();
    let mut i: usize = 0;
    while i < cs.len()
        invariant
            i <= cs@.len(),
            idx_ok(cs@, r@),
            idx_view(cs@, r@) == standalone(cs@.take(i as int)),
        decreases cs@.len() - i,
    {
        assert(cs@.take(i + 1).drop_last() =~= cs@.take(i as int));
        assert(cs@.take(i + 1).last() == cs@[i as int]);
        if cs[i].compose_project().is_none() {
            proof {
                lemma_idx_push(cs@, r@, i);
            }
            r.push(i);
        }
        i += 1;
    }
    assert(cs@.take(cs@.len() as int) =~= cs@);
    r
}

fn project_counts(cs: &Vec<Container>) -> (r: (usize, usize))
    ensures
        r.0 == n_running(with_project(cs@)),
        r.1 == with_project(cs@).len(),
{
    let mut run: usize = 0;
    let mut tot: usize = 0;
    let mut i: usize = 0;
    while i < cs.len()
        invariant
            i <= cs@.len(),
            run == n_running(with_project(cs@.take(i as int))),
            tot == with_project(cs@.take(i as int)).len(),
            tot <= i,
            run <= tot,
        decreases cs@.len() - i,
    {
        assert(cs@.take(i + 1).drop_last() =~= cs@.take(i as int));
        assert(cs@.take(i + 1).last() == cs@[i as int]);
        if cs[i].compose_project().is_some() {
            proof {
                let w = with_project(cs@.take(i as int));
                assert(w.push(cs@[i as int]).drop_last() =~= w);
            }
            tot += 1;
            if cs[i].is_running() {
                run += 1;
            }
        }
        i += 1;
    }
    assert(cs@.take(cs@.len() as int) =~= cs@);
    (run, tot)
}

fn service_members(cs: &Vec<Container>, idx: &Vec<usize>, s: &str) -> (r: Vec<usize>)
    requires
        idx_ok(cs@, idx@),
    ensures
        idx_ok(cs@, r@),
        idx_view(cs@, r@) == of_service(idx_view(cs@, idx@), s@),
{
    let ghost sub = idx_view(cs@, idx@);
    let mut r: Vec<usize> = Vec::new();
    let mut i: usize = 0;
    while i < idx.len()
        invariant
            i <= idx@.len(),
            idx_ok(cs@, idx@),
            sub == idx_view(cs@, idx@),
            idx_ok(cs@, r@),
            idx_view(cs@, r@) == of_service(sub.take(i as int), s@),
        decreases idx@.len() - i,
    {
        assert(sub.take(i + 1).drop_last() =~= sub.take(i as int));
        assert(sub.take(i + 1).last() == cs@[idx@[i as int] as int]);
        let k = idx[i];
        let keep = match cs[k].compose_service() {
            Some(x) => crate::text::eq_str(x.as_str(), s),
            None => crate::text::eq_str(s, "—"),
        };
        if keep {
            proof {
                lemma_idx_push(cs@, r@, k);
            }
            r.push(k);
        }
        i += 1;
    }
    assert(sub.take(idx@.len() as int) =~= sub);
    r
}

pub(crate) fn count_running(cs: &Vec<Container>, idx: &Vec<usize>) -> (r: usize)
    requires
        idx_ok(cs@, idx@),
    ensures
        r == n_running(idx_view(cs@, idx@)),
        r <= idx@.len(),
{
    let ghost sub = idx_view(cs@, idx@);
    let mut n: usize = 0;
    let mut i: usize = 0;
    while i < idx.len()
        invariant
            i <= idx@.len(),
            idx_ok(cs@, idx@),
            sub == idx_view(cs@, idx@),
            n == n_running(sub.take(i as int)),
            n <= i,
        decreases idx@.len() - i,
    {
        assert(sub.take(i + 1).drop_last() =~= sub.take(i as int));
        assert(sub.take(i + 1).last() == cs@[idx@[i as int] as int]);
        if cs[idx[i]].is_running() {
            n += 1;
        }
        i += 1;
    }
    assert(sub.take(idx@.len() as int) =~= sub);
    n
}

proof fn lemma_insert_c_at(s: Seq<Container>, x: Container, j: int)
    requires
        0 <= j <= s.len(),
        forall|k: int| j <= k < s.len() ==> c_lt(x, #[trigger] s[k]),
        j == 0 || !c_lt(x, s[j - 1]),
    ensures
        insert_c(s, x) == s.take(j).push(x) + s.skip(j),
    decreases s.len(),
{
    if s.len() == 0 {
        assert(s.take(j).push(x) + s.skip(j) =~= seq![x]);
    } else if j == s.len() {
        assert(s.take(j) == s);
        assert(s.skip(j) =~= Seq::<Container>::empty());
        assert(s.take(j).push(x) + s.skip(j) =~= s.push(x));
    } else {
        assert(c_lt(x, s[s.len() - 1]));
        lemma_insert_c_at(s.drop_last(), x, j);
        assert(s.drop_last().take(j) == s.take(j));
        assert((s.take(j).push(x) + s.drop_last().skip(j)).push(s.last()) =~= s.take(j).push(x)
            + s.skip(j));
    }
}

pub(crate) fn sort_members(cs: &Vec<Container>, idx: &Vec<usize>) -> (r: Vec<usize>)
    requires
        idx_ok(cs@, idx@),
    ensures
        idx_ok(cs@, r@),
        idx_view(cs@, r@) == sorted_cs(idx_view(cs@, idx@)),
{
    let ghost sub = idx_view(cs@, idx@);
    let mut out: Vec<usize> = Vec::new();
    let mut i: usize = 0;
    while i < idx.len()
        invariant
            i <= idx@.len(),
            idx_ok(cs@, idx@),
            sub == idx_view(cs@, idx@),
            idx_ok(cs@, out@),
            idx_view(cs@, out@) == sorted_cs(sub.take(i as int)),
        decreases idx@.len() - i,
    {
        let x = idx[i];
        assert(sub.take(i + 1).drop_last() =~= sub.take(i as int));
        assert(sub.take(i + 1).last() == cs@[x as int]);
        let mut j: usize = out.len();
        while j > 0 && crate::util::container_before(&cs[x], &cs[out[j - 1]])
            invariant
                j <= out@.len(),
                idx_ok(cs@, out@),
                x < cs@.len(),
                forall|k: int|
                    j <= k < out@.len() ==> c_lt(cs@[x as int], #[trigger] idx_view(cs@, out@)[k]),
            decreases j,
        {
            j -= 1;
        }
        let ghost before = idx_view(cs@, out@);
        proof {
            lemma_insert_c_at(before, cs@[x as int], j as int);
        }
        out.insert(j, x);
        assert(idx_view(cs@, out@) =~= before.take(j as int).push(cs@[x as int]) + before.skip(
            j as int,
        ));
        i += 1;
    }
    assert(sub.take(idx@.len() as int) =~= sub);
    out
}

proof fn lemma_dedup_last(s: Seq<Seq<char>>)
    ensures
        s.len() == 0 <==> dedup(s).len() == 0,
        s.len() > 0 ==> dedup(s).last() == s.last(),
    decreases s.len(),
{
    if s.len() > 0 {
        lemma_dedup_last(s.drop_last());
    }
}

/// Sorted, each text once.
fn sorted_unique(v: Vec<String>) -> (r: Vec<String>)
    ensures
        strs(r@) == dedup(sorted_texts(strs(v@))),
{
    let sorted = crate::util::sort_strings(v);
    let ghost ss = strs(sorted@);
    let mut out: Vec<String> = Vec::new();
    let mut i: usize = 0;
    while i < sorted.len()
        invariant
            i <= sorted@.len(),
            ss == strs(sorted@),
            strs(out@) == dedup(ss.take(i as int)),
        decreases sorted@.len() - i,
    {
        assert(ss.take(i + 1).drop_last() =~= ss.take(i as int));
        assert(ss.take(i + 1).last() == sorted@[i as int]@);
        proof {
            lemma_dedup_last(ss.take(i as int));
        }
        let dup = out.len() > 0 && crate::text::eq_str(
            out[out.len() - 1].as_str(),
            sorted[i].as_str(),
        );
        if !dup {
            let ghost before = out@;
            let t = sorted[i].clone();
            out.push(t);
            proof {
                crate::text::lemma_map_push(before, t, |s: String| s@);
            }
        }
        i += 1;
    }
    assert(ss.take(sorted@.len() as int) =~= ss);
    out
}

pub(crate) fn project_names(cs: &Vec<Container>) -> (r: Vec<String>)
    ensures
        strs(r@) == projects_of(cs@),
{
    let mut names: Vec<String> = Vec::new();
    let mut i: usize = 0;
    while i < cs.len()
        invariant
            i <= cs@.len(),
            strs(names@) == project_list(cs@.take(i as int)),
        decreases cs@.len() - i,
    {
        assert(cs@.take(i + 1).drop_last() =~= cs@.take(i as int));
        assert(cs@.take(i + 1).last() == cs@[i as int]);
        match cs[i].compose_project() {
            Some(p) => {
                let ghost before = names@;
                names.push(p);
                proof {
                    crate::text::lemma_map_push(before, names@.last(), |s: String| s@);
                }
                assert(strs(names@) =~= strs(before).push(names@.last()@));
            },
            None => {},
        }
        i += 1;
    }
    assert(cs@.take(cs@.len() as int) =~= cs@);
    sorted_unique(names)
}

pub(crate) fn service_names(cs: &Vec<Container>, idx: &Vec<usize>) -> (r: Vec<String>)
    requires
        idx_ok(cs@, idx@),
    ensures
        strs(r@) == services_of(idx_view(cs@, idx@)),
{
    let ghost sub = idx_view(cs@, idx@);
    let mut names: Vec<String> = Vec::new();
    let mut i: usize = 0;
    while i < idx.len()
        invariant
            i <= idx@.len(),
            idx_ok(cs@, idx@),
            sub == idx_view(cs@, idx@),
            strs(names@) == sub.take(i as int).map_values(|c: Container| svc_name(c)),
        decreases idx@.len() - i,
    {
        let n = match cs[idx[i]].compose_service() {
            Some(s) => s,
            None => owned("—"),
        };
        let ghost before = names@;
        names.push(n);
        proof {
            crate::text::lemma_map_push(before, n, |s: String| s@);
            crate::text::lemma_map_take_succ(sub, i as int, |c: Container| svc_name(c));
        }
        i += 1;
    }
    assert(sub.take(idx@.len() as int) =~= sub);
    sorted_unique(names)
}

fn has_key(exp: &Vec<String>, key: &str) -> (r: bool)
    ensures
        r == strs(exp@).contains(key@),
{
    let mut i: usize = 0;
    while i < exp.len()
        invariant
            i <= exp@.len(),
            forall|j: int| 0 <= j < i ==> (#[trigger] strs(exp@)[j]) != key@,
        decreases exp@.len() - i,
    {
        if crate::text::eq_str(exp[i].as_str(), key) {
            assert(strs(exp@)[i as int] == key@);
            return true;
        }
        i += 1;
    }
    false
}

fn push_row(rows: &mut Vec<Row>, row: Row)
    ensures
        rows_view(final(rows)@) == rows_view(old(rows)@).push(row@),
{
    let ghost before = rows@;
    rows.push(row);
    assert(rows_view(rows@) =~= rows_view(before).push(row@));
}

fn container_row(c: &Container, depth: usize) -> (r: Row)
    ensures
        r@ == ctr_row(*c, depth as nat),
{
    Row {
        kind: RowKind::Container(c.id.clone()),
        key: concat2("c:", c.id.as_str()),
        depth,
        has_children: false,
        expanded: false,
        label: c.name.clone(),
        sub: c.image.clone(),
        state: Some(c.state.clone()),
    }
}

fn push_ctr_rows(rows: &mut Vec<Row>, cs: &Vec<Container>, idx: &Vec<usize>, depth: usize)
    requires
        idx_ok(cs@, idx@),
    ensures
        rows_view(final(rows)@) == rows_view(old(rows)@) + ctr_rows(idx_view(cs@, idx@), depth as nat),
{
    let ghost start = rows_view(rows@);
    let ghost sub = idx_view(cs@, idx@);
    let mut i: usize = 0;
    while i < idx.len()
        invariant
            i <= idx@.len(),
            idx_ok(cs@, idx@),
            sub == idx_view(cs@, idx@),
            rows_view(rows@) == start + ctr_rows(sub.take(i as int), depth as nat),
        decreases idx@.len() - i,
    {
        let row = container_row(&cs[idx[i]], depth);
        push_row(rows, row);
        proof {
            crate::text::lemma_map_take_succ(sub, i as int, |c: Container| ctr_row(c, depth as nat));
        }
        assert(rows_view(rows@) =~= start + ctr_rows(sub.take(i + 1), depth as nat));
        i += 1;
    }
    assert(sub.take(idx@.len() as int) =~= sub);
}

fn count_text(run: usize, tot: usize) -> (r: String)
    ensures
        r@ == dec(run as nat) + "/"@ + dec(tot as nat),
{
    let mut s = u64_text(run as u64);
    push_str(&mut s, "/");
    let t = u64_text(tot as u64);
    push_str(&mut s, t.as_str());
    s
}

fn state_text(run: usize, tot: usize) -> (r: String)
    ensures
        r@ == state_word(run as nat, tot as nat),
{
    if run == tot {
        owned("running")
    } else if run == 0 {
        owned("exited")
    } else {
        owned("partial")
    }
}

fn push_svc_rows(
    rows: &mut Vec<Row>,
    cs: &Vec<Container>,
    cs_p: &Vec<usize>,
    p: &String,
    s: &String,
    exp: &Vec<String>,
    show_all: bool,
)
    requires
        idx_ok(cs@, cs_p@),
    ensures
        rows_view(final(rows)@) == rows_view(old(rows)@) + svc_rows(
            idx_view(cs@, cs_p@),
            p@,
            s@,
            strs(exp@),
            show_all,
        ),
{
    let ghost start = rows_view(rows@);
    let scs = service_members(cs, cs_p, s.as_str());
    let r = count_running(cs, &scs);
    let skey = concat3_string(p, s);
    let e = show_all || has_key(exp, skey.as_str());
    let row = Row {
        kind: RowKind::Service(p.clone(), s.clone()),
        key: skey,
        depth: 2,
        has_children: true,
        expanded: e,
        label: s.clone(),
        sub: count_text(r, scs.len()),
        state: Some(state_text(r, scs.len())),
    };
    push_row(rows, row);
    let ghost mid = rows_view(rows@);
    if e {
        let sorted = sort_members(cs, &scs);
        push_ctr_rows(rows, cs, &sorted, 3);
    }
    assert(rows_view(rows@) =~= start + svc_rows(idx_view(cs@, cs_p@), p@, s@, strs(exp@), show_all));
}

/// `p:{p}/{s}`.
fn concat3_string(p: &String, s: &String) -> (r: String)
    ensures
        r@ == "p:"@ + p@ + "/"@ + s@,
{
    let mut k = concat2("p:", p.as_str());
    push_str(&mut k, "/");
    push_str(&mut k, s.as_str());
    k
}

fn push_proj_rows(
    rows: &mut Vec<Row>,
    cs: &Vec<Container>,
    p: &String,
    exp: &Vec<String>,
    show_all: bool,
)
    ensures
        rows_view(final(rows)@) == rows_view(old(rows)@) + proj_rows(cs@, p@, strs(exp@), show_all),
{
    let ghost start = rows_view(rows@);
    let cs_p = project_members(cs, p.as_str());
    let r = count_running(cs, &cs_p);
    let key = concat2("p:", p.as_str());
    let e = show_all || has_key(exp, key.as_str());
    let mut sub = count_text(r, cs_p.len());
    push_str(&mut sub, " up");
    let row = Row {
        kind: RowKind::Project(p.clone()),
        key,
        depth: 1,
        has_children: true,
        expanded: e,
        label: p.clone(),
        sub,
        state: Some(state_text(r, cs_p.len())),
    };
    push_row(rows, row);
    let ghost mid = rows_view(rows@);
    if e {
        let services = service_names(cs, &cs_p);
        let ghost ss = strs(services@);
        let ghost sub_cs = idx_view(cs@, cs_p@);
        let mut i: usize = 0;
        while i < services.len()
            invariant
                i <= services@.len(),
                ss == strs(services@),
                idx_ok(cs@, cs_p@),
                sub_cs == idx_view(cs@, cs_p@),
                rows_view(rows@) == mid + svcs_rows(
                    sub_cs,
                    p@,
                    ss.take(i as int),
                    strs(exp@),
                    show_all,
                ),
            decreases services@.len() - i,
        {
            assert(ss.take(i + 1).drop_last() =~= ss.take(i as int));
            assert(ss.take(i + 1).last() == services@[i as int]@);
            push_svc_rows(rows, cs, &cs_p, p, &services[i], exp, show_all);
            i += 1;
        }
        assert(ss.take(services@.len() as int) =~= ss);
    }
    assert(rows_view(rows@) =~= start + proj_rows(cs@, p@, strs(exp@), show_all));
}

fn volume_row(v: &Volume) -> (r: Row)
    ensures
        r@ == vol_row(*v),
{
    let sub = match (v.size, v.compose_project()) {
        (Some(s), Some(p)) => {
            let mut t = crate::model::human_bytes(s);
            push_str(&mut t, " · ");
            push_str(&mut t, p.as_str());
            t
        },
        (Some(s), None) => crate::model::human_bytes(s),
        (None, Some(p)) => p,
        (None, None) => String::new(),
    };
    Row {
        kind: RowKind::Volume(v.name.clone()),
        key: concat2("v:", v.name.as_str()),
        depth: 1,
        has_children: false,
        expanded: false,
        label: v.name.clone(),
        sub,
        state: None,
    }
}

fn section_text(n: usize, run: usize, tot: usize) -> (r: String)
    ensures
        r@ == section_sub(n as nat, run as nat, tot as nat),
{
    if n == 0 {
        owned("0")
    } else {
        let mut s = u64_text(n as u64);
        push_str(&mut s, " · ");
        let c = count_text(run, tot);
        push_str(&mut s, c.as_str());
        push_str(&mut s, " up");
        s
    }
}

fn push_projects_part(rows: &mut Vec<Row>, cs: &Vec<Container>, exp: &Vec<String>, show_all: bool)
    ensures
        rows_view(final(rows)@) == rows_view(old(rows)@) + projects_part(cs@, strs(exp@), show_all),
{
    let ghost start = rows_view(rows@);
    let projects = project_names(cs);
    let (prun, ptot) = project_counts(cs);
    let ep = show_all || has_key(exp, "sec:projects");
    push_row(
        rows,
        Row {
            kind: RowKind::Section("PROJECTS (COMPOSE)"),
            key: owned("sec:projects"),
            depth: 0,
            has_children: projects.len() > 0,
            expanded: ep,
            label: owned("Projects"),
            sub: section_text(projects.len(), prun, ptot),
            state: None,
        },
    );
    let ghost r1 = rows_view(rows@);
    if ep {
        let ghost ps = strs(projects@);
        let mut i: usize = 0;
        while i < projects.len()
            invariant
                i <= projects@.len(),
                ps == strs(projects@),
                rows_view(rows@) == r1 + projs_rows(cs@, ps.take(i as int), strs(exp@), show_all),
            decreases projects@.len() - i,
        {
            assert(ps.take(i + 1).drop_last() =~= ps.take(i as int));
            assert(ps.take(i + 1).last() == projects@[i as int]@);
            push_proj_rows(rows, cs, &projects[i], exp, show_all);
            i += 1;
        }
        assert(ps.take(projects@.len() as int) =~= ps);
    }
    assert(rows_view(rows@) =~= start + projects_part(cs@, strs(exp@), show_all));
}

fn push_standalone_part(
    rows: &mut Vec<Row>,
    cs: &Vec<Container>,
    exp: &Vec<String>,
    show_all: bool,
)
    ensures
        rows_view(final(rows)@) == rows_view(old(rows)@) + standalone_part(
            cs@,
            strs(exp@),
            show_all,
        ),
{
    let ghost start = rows_view(rows@);
    let sa = standalone_members(cs);
    let srun = count_running(cs, &sa);
    let ec = show_all || has_key(exp, "sec:containers");
    push_row(
        rows,
        Row {
            kind: RowKind::Section("CONTAINERS (STANDALONE)"),
            key: owned("sec:containers"),
            depth: 0,
            has_children: sa.len() > 0,
            expanded: ec,
            label: owned("Containers"),
            sub: section_text(sa.len(), srun, sa.len()),
            state: None,
        },
    );
    if ec {
        let sorted = sort_members(cs, &sa);
        push_ctr_rows(rows, cs, &sorted, 1);
    }
    assert(rows_view(rows@) =~= start + standalone_part(cs@, strs(exp@), show_all));
}

fn push_volumes_part(rows: &mut Vec<Row>, vs: &Vec<Volume>, exp: &Vec<String>, show_all: bool)
    ensures
        rows_view(final(rows)@) == rows_view(old(rows)@) + volumes_part(vs@, strs(exp@), show_all),
{
    let ghost start = rows_view(rows@);
    let ev = show_all || has_key(exp, "sec:volumes");
    push_row(
        rows,
        Row {
            kind: RowKind::Section("VOLUMES"),
            key: owned("sec:volumes"),
            depth: 0,
            has_children: vs.len() > 0,
            expanded: ev,
            label: owned("Volumes"),
            sub: u64_text(vs.len() as u64),
            state: None,
        },
    );
    let ghost r5 = rows_view(rows@);
    if ev {
        let mut i: usize = 0;
        while i < vs.len()
            invariant
                i <= vs@.len(),
                rows_view(rows@) == r5 + vs@.take(i as int).map_values(|v: Volume| vol_row(v)),
            decreases vs@.len() - i,
        {
            push_row(rows, volume_row(&vs[i]));
            proof {
                crate::text::lemma_map_take_succ(vs@, i as int, |v: Volume| vol_row(v));
            }
            assert(rows_view(rows@) =~= r5 + vs@.take(i + 1).map_values(|v: Volume| vol_row(v)));
            i += 1;
        }
        assert(vs@.take(vs@.len() as int) =~= vs@);
    }
    assert(rows_view(rows@) =~= start + volumes_part(vs@, strs(exp@), show_all));
}

/// The tree rows for the containers and volumes, with the nodes whose keys
/// are in `exp` expanded (all of them with `show_all`).
pub fn build_rows(cs: &Vec<Container>, vs: &Vec<Volume>, exp: &Vec<String>, show_all: bool) -> (r:
    Vec<Row>)
    ensures
        rows_view(r@) == tree_spec(cs@, vs@, strs(exp@), show_all),
{
    let mut rows: Vec<Row> = Vec::new();
    assert(rows_view(rows@) =~= Seq::<RowV>::empty());
    push_projects_part(&mut rows, cs, exp, show_all);
    push_standalone_part(&mut rows, cs, exp, show_all);
    push_volumes_part(&mut rows, vs, exp, show_all);
    assert(rows_view(rows@) =~= tree_spec(cs@, vs@, strs(exp@), show_all));
    rows
}


// ---------------------------------------------------------------- filtering

/// The text a filter is matched against: label, sub and state.
pub open spec fn row_text(r: RowV) -> Seq<char> {
    r.5 + " "@ + r.6 + " "@ + crate::ops::opt_seq(r.7)
}

/// The filter matches row `r`.
pub open spec fn hit(p: Seq<char>, r: RowV) -> bool {
    crate::search::regex_matches(p, row_text(r))
}

/// Row `j` is an ancestor of row `i`: it comes before, and every row from
/// just after it down to `i` is deeper.
pub open spec fn is_anc(rs: Seq<RowV>, j: int, i: int) -> bool {
    &&& 0 <= j < i < rs.len()
    &&& forall|k: int| j < k <= i ==> (#[trigger] rs[k]).2 > rs[j].2
}

/// Row `i` stays under the filter: it matches, an ancestor matches (its
/// whole subtree stays), or a descendant matches (its ancestors stay).
pub open spec fn kept(p: Seq<char>, rs: Seq<RowV>, i: int) -> bool {
    ||| hit(p, rs[i])
    ||| exists|j: int| is_anc(rs, j, i) && hit(p, #[trigger] rs[j])
    ||| exists|k: int| is_anc(rs, i, k) && hit(p, #[trigger] rs[k])
}

/// The kept rows among the first `n`, in order.
pub open spec fn kept_upto(p: Seq<char>, rs: Seq<RowV>, n: int) -> Seq<RowV>
    decreases n,
{
    if n <= 0 {
        Seq::empty()
    } else {
        kept_upto(p, rs, n - 1) + if kept(p, rs, n - 1) {
            seq![rs[n - 1]]
        } else {
            Seq::empty()
        }
    }
}

/// The rows the filter keeps, in order.
pub open spec fn filtered(p: Seq<char>, rs: Seq<RowV>) -> Seq<RowV> {
    kept_upto(p, rs, rs.len() as int)
}

proof fn lemma_kept_upto_prefix(p: Seq<char>, rs: Seq<RowV>, i: int, n: int)
    requires
        0 <= i <= n,
    ensures
        kept_upto(p, rs, i).len() <= kept_upto(p, rs, n).len(),
        kept_upto(p, rs, n).take(kept_upto(p, rs, i).len() as int) == kept_upto(p, rs, i),
    decreases n - i,
{
    if i < n {
        lemma_kept_upto_prefix(p, rs, i, n - 1);
        let a = kept_upto(p, rs, i);
        let b = kept_upto(p, rs, n - 1);
        assert(kept_upto(p, rs, n).take(a.len() as int) =~= b.take(a.len() as int));
    } else {
        assert(kept_upto(p, rs, n).take(kept_upto(p, rs, n).len() as int) =~= kept_upto(p, rs, n));
    }
}

/// A row the filter keeps shows, in input order: it is the row after the
/// kept rows that come before it.
pub proof fn lemma_filter_keeps(p: Seq<char>, rs: Seq<RowV>, i: int)
    requires
        0 <= i < rs.len(),
        kept(p, rs, i),
    ensures
        kept_upto(p, rs, i).len() < filtered(p, rs).len(),
        filtered(p, rs)[kept_upto(p, rs, i).len() as int] == rs[i],
{
    lemma_kept_upto_prefix(p, rs, i + 1, rs.len() as int);
    let a = kept_upto(p, rs, i);
    let b = kept_upto(p, rs, i + 1);
    assert(b == a + seq![rs[i]]);
    assert(b[a.len() as int] == rs[i]);
    assert(filtered(p, rs).take(b.len() as int)[a.len() as int] == rs[i]);
}

proof fn lemma_kept_upto_only_kept(p: Seq<char>, rs: Seq<RowV>, n: int, k: int)
    requires
        0 <= n <= rs.len(),
        0 <= k < kept_upto(p, rs, n).len(),
    ensures
        exists|i: int| 0 <= i < n && kept(p, rs, i) && kept_upto(p, rs, n)[k] == #[trigger] rs[i],
    decreases n,
{
    let prev = kept_upto(p, rs, n - 1);
    if k < prev.len() {
        lemma_kept_upto_only_kept(p, rs, n - 1, k);
        let i = choose|i: int| 0 <= i < n - 1 && kept(p, rs, i) && prev[k] == #[trigger] rs[i];
        assert(kept_upto(p, rs, n)[k] == rs[i]);
    } else {
        assert(kept(p, rs, n - 1));
        assert(kept_upto(p, rs, n)[k] == rs[n - 1]);
    }
}

/// Every row the filter shows is a kept row: a match, an ancestor of a
/// match, or a row under a matching parent.
pub proof fn lemma_filter_only_kept(p: Seq<char>, rs: Seq<RowV>, k: int)
    requires
        0 <= k < filtered(p, rs).len(),
    ensures
        exists|i: int| 0 <= i < rs.len() && kept(p, rs, i) && filtered(p, rs)[k] == #[trigger] rs[i],
{
    lemma_kept_upto_only_kept(p, rs, rs.len() as int, k);
}

proof fn lemma_n_running(cs: Seq<Container>)
    ensures
        n_running(cs) <= cs.len(),
        n_running(cs) == 0 <==> forall|i: int| 0 <= i < cs.len() ==> !(#[trigger] cs[i]).running(),
        n_running(cs) == cs.len() <==> forall|i: int| 0 <= i < cs.len() ==> (#[trigger] cs[i]).running(),
    decreases cs.len(),
{
    if cs.len() > 0 {
        let d = cs.drop_last();
        lemma_n_running(d);
        let l = cs.len() - 1;
        assert(cs[l] == cs.last());
        if forall|i: int| 0 <= i < cs.len() ==> !(#[trigger] cs[i]).running() {
            assert forall|i: int| 0 <= i < d.len() implies !(#[trigger] d[i]).running() by {
                assert(d[i] == cs[i]);
            }
            assert(!cs[l].running());
        }
        if n_running(cs) == 0 {
            assert forall|i: int| 0 <= i < cs.len() implies !(#[trigger] cs[i]).running() by {
                if i < l {
                    assert(d[i] == cs[i]);
                }
            }
        }
        if forall|i: int| 0 <= i < cs.len() ==> (#[trigger] cs[i]).running() {
            assert forall|i: int| 0 <= i < d.len() implies (#[trigger] d[i]).running() by {
                assert(d[i] == cs[i]);
            }
            assert(cs[l].running());
        }
        if n_running(cs) == cs.len() {
            assert forall|i: int| 0 <= i < cs.len() implies (#[trigger] cs[i]).running() by {
                if i < l {
                    assert(d[i] == cs[i]);
                }
            }
        }
    }
}

/// The state a group of containers shows, when it has any: "exited" when
/// none runs, "running" when all do, "partial" when some but not all do.
pub proof fn lemma_group_state(cs: Seq<Container>)
    requires
        cs.len() > 0,
    ensures
        state_word(n_running(cs), cs.len()) == "exited"@ <==> forall|i: int|
            0 <= i < cs.len() ==> !(#[trigger] cs[i]).running(),
        state_word(n_running(cs), cs.len()) == "running"@ <==> forall|i: int|
            0 <= i < cs.len() ==> (#[trigger] cs[i]).running(),
        state_word(n_running(cs), cs.len()) == "partial"@ <==> (exists|i: int|
            0 <= i < cs.len() && (#[trigger] cs[i]).running()) && (exists|j: int|
            0 <= j < cs.len() && !(#[trigger] cs[j]).running()),
{
    reveal_strlit("exited");
    reveal_strlit("running");
    reveal_strlit("partial");
    lemma_n_running(cs);
    assert("exited"@[0] != "running"@[0] && "exited"@[0] != "partial"@[0] && "running"@[0]
        != "partial"@[0]);
    if exists|i: int| 0 <= i < cs.len() && (#[trigger] cs[i]).running() {
        let i = choose|i: int| 0 <= i < cs.len() && (#[trigger] cs[i]).running();
        assert(cs[i].running());
    }
    if exists|j: int| 0 <= j < cs.len() && !(#[trigger] cs[j]).running() {
        let j = choose|j: int| 0 <= j < cs.len() && !(#[trigger] cs[j]).running();
        assert(!cs[j].running());
    }
    assert(!cs[0].running() || cs[0].running());
}

/// A project row and a service row show the state of their containers
/// (see `lemma_group_state`): a project or service with containers none
/// of which runs shows "exited", one whose containers all run "running",
/// and "partial" only when some but not all run.
pub proof fn lemma_row_states(
    cs: Seq<Container>,
    p: Seq<char>,
    sv: Seq<char>,
    exp: Seq<Seq<char>>,
    show_all: bool,
)
    ensures
        proj_rows(cs, p, exp, show_all)[0].7 == Some(
            state_word(n_running(of_project(cs, p)), of_project(cs, p).len()),
        ),
        svc_rows(of_project(cs, p), p, sv, exp, show_all)[0].7 == Some(
            state_word(
                n_running(of_service(of_project(cs, p), sv)),
                of_service(of_project(cs, p), sv).len(),
            ),
        ),
        of_project(cs, p).len() > 0 ==> (proj_rows(cs, p, exp, show_all)[0].7 == Some("exited"@)
            <==> forall|i: int|
            0 <= i < of_project(cs, p).len() ==> !(#[trigger] of_project(cs, p)[i]).running()),
        of_service(of_project(cs, p), sv).len() > 0 ==> (svc_rows(
            of_project(cs, p),
            p,
            sv,
            exp,
            show_all,
        )[0].7 == Some("exited"@) <==> forall|i: int|
            0 <= i < of_service(of_project(cs, p), sv).len() ==> !(#[trigger] of_service(
                of_project(cs, p),
                sv,
            )[i]).running()),
{
    let g = of_project(cs, p);
    let h = of_service(g, sv);
    if g.len() > 0 {
        lemma_group_state(g);
    }
    if h.len() > 0 {
        lemma_group_state(h);
    }
}

/// Every section, project and service row among `rs` is expanded.
pub open spec fn nodes_open(rs: Seq<RowV>) -> bool {
    forall|i: int| 0 <= i < rs.len() && (#[trigger] rs[i]).0.0 <= 2 ==> rs[i].4
}

proof fn lemma_nodes_open_concat(a: Seq<RowV>, b: Seq<RowV>)
    requires
        nodes_open(a),
        nodes_open(b),
    ensures
        nodes_open(a + b),
{
    assert forall|i: int| 0 <= i < (a + b).len() && (#[trigger] (a + b)[i]).0.0 <= 2 implies (a
        + b)[i].4 by {
        if i < a.len() {
            assert((a + b)[i] == a[i]);
        } else {
            assert((a + b)[i] == b[i - a.len()]);
        }
    }
}

proof fn lemma_svcs_open(cs_p: Seq<Container>, p: Seq<char>, ss: Seq<Seq<char>>, exp: Seq<Seq<char>>)
    ensures
        nodes_open(svcs_rows(cs_p, p, ss, exp, true)),
    decreases ss.len(),
{
    if ss.len() > 0 {
        lemma_svcs_open(cs_p, p, ss.drop_last(), exp);
        let s = ss.last();
        let scs = of_service(cs_p, s);
        let cr = ctr_rows(sorted_cs(scs), 3);
        assert(nodes_open(cr)) by {
            assert forall|i: int| 0 <= i < cr.len() implies (#[trigger] cr[i]).0.0 == 3 by {}
        }
        let one = svc_rows(cs_p, p, s, exp, true);
        let head = one.take(1);
        assert(nodes_open(head));
        assert(one =~= head + cr);
        lemma_nodes_open_concat(head, cr);
        lemma_nodes_open_concat(svcs_rows(cs_p, p, ss.drop_last(), exp, true), one);
    }
}

proof fn lemma_projs_open(cs: Seq<Container>, ps: Seq<Seq<char>>, exp: Seq<Seq<char>>)
    ensures
        nodes_open(projs_rows(cs, ps, exp, true)),
    decreases ps.len(),
{
    if ps.len() > 0 {
        lemma_projs_open(cs, ps.drop_last(), exp);
        let p = ps.last();
        let cs_p = of_project(cs, p);
        let sr = svcs_rows(cs_p, p, services_of(cs_p), exp, true);
        lemma_svcs_open(cs_p, p, services_of(cs_p), exp);
        let one = proj_rows(cs, p, exp, true);
        let head = one.take(1);
        assert(nodes_open(head));
        assert(one =~= head + sr);
        lemma_nodes_open_concat(head, sr);
        lemma_nodes_open_concat(projs_rows(cs, ps.drop_last(), exp, true), one);
    }
}

/// With every node shown open (as under a filter), each section, project
/// and service row is expanded.
pub proof fn lemma_show_all_open(cs: Seq<Container>, vs: Seq<Volume>, exp: Seq<Seq<char>>)
    ensures
        nodes_open(tree_spec(cs, vs, exp, true)),
{
    let pr = projs_rows(cs, projects_of(cs), exp, true);
    lemma_projs_open(cs, projects_of(cs), exp);
    let a = projects_part(cs, exp, true);
    assert(a =~= a.take(1) + pr);
    assert(nodes_open(a.take(1)));
    lemma_nodes_open_concat(a.take(1), pr);
    let cr = ctr_rows(sorted_cs(standalone(cs)), 1);
    assert(nodes_open(cr)) by {
        assert forall|i: int| 0 <= i < cr.len() implies (#[trigger] cr[i]).0.0 == 3 by {}
    }
    let b = standalone_part(cs, exp, true);
    assert(b =~= b.take(1) + cr);
    assert(nodes_open(b.take(1)));
    lemma_nodes_open_concat(b.take(1), cr);
    let vr = vs.map_values(|v: Volume| vol_row(v));
    assert(nodes_open(vr)) by {
        assert forall|i: int| 0 <= i < vr.len() implies (#[trigger] vr[i]).0.0 == 4 by {}
    }
    let c = volumes_part(vs, exp, true);
    assert(c =~= c.take(1) + vr);
    assert(nodes_open(c.take(1)));
    lemma_nodes_open_concat(c.take(1), vr);
    lemma_nodes_open_concat(a, b);
    lemma_nodes_open_concat(a + b, c);
}

/// Filtering keeps rows as they are: what was expanded stays expanded.
pub proof fn lemma_filter_keeps_open(p: Seq<char>, rs: Seq<RowV>)
    requires
        nodes_open(rs),
    ensures
        nodes_open(filtered(p, rs)),
{
    let f = filtered(p, rs);
    assert forall|k: int| 0 <= k < f.len() && (#[trigger] f[k]).0.0 <= 2 implies f[k].4 by {
        lemma_filter_only_kept(p, rs, k);
    }
}

/// Every container row among `rs` shows one of the containers `cs`.
pub open spec fn rows_of(rs: Seq<RowV>, cs: Seq<Container>) -> bool {
    forall|i: int|
        0 <= i < rs.len() && (#[trigger] rs[i]).0.0 == 3 ==> exists|j: int|
            0 <= j < cs.len() && rs[i].0.1 == (#[trigger] cs[j]).id@
}

/// Every element of `sub` is one of `cs`.
pub open spec fn within(sub: Seq<Container>, cs: Seq<Container>) -> bool {
    forall|i: int| 0 <= i < sub.len() ==> cs.contains(#[trigger] sub[i])
}

proof fn lemma_within_trans(a: Seq<Container>, b: Seq<Container>, c: Seq<Container>)
    requires
        within(a, b),
        within(b, c),
    ensures
        within(a, c),
{
    assert forall|i: int| 0 <= i < a.len() implies c.contains(#[trigger] a[i]) by {
        assert(b.contains(a[i]));
        let k = choose|k: int| 0 <= k < b.len() && b[k] == a[i];
        assert(c.contains(b[k]));
    }
}

proof fn lemma_of_project_within(cs: Seq<Container>, p: Seq<char>)
    ensures
        within(of_project(cs, p), cs),
    decreases cs.len(),
{
    if cs.len() > 0 {
        lemma_of_project_within(cs.drop_last(), p);
        lemma_within_grow(of_project(cs.drop_last(), p), cs);
    }
}

proof fn lemma_of_service_within(cs: Seq<Container>, sv: Seq<char>)
    ensures
        within(of_service(cs, sv), cs),
    decreases cs.len(),
{
    if cs.len() > 0 {
        lemma_of_service_within(cs.drop_last(), sv);
        lemma_within_grow(of_service(cs.drop_last(), sv), cs);
    }
}

proof fn lemma_standalone_within(cs: Seq<Container>)
    ensures
        within(standalone(cs), cs),
    decreases cs.len(),
{
    if cs.len() > 0 {
        lemma_standalone_within(cs.drop_last());
        lemma_within_grow(standalone(cs.drop_last()), cs);
    }
}

/// What lies within all but the last of `cs`, and the last with it, lies
/// within `cs`.
proof fn lemma_within_grow(sub: Seq<Container>, cs: Seq<Container>)
    requires
        cs.len() > 0,
        within(sub, cs.drop_last()),
    ensures
        within(sub, cs),
        within(sub.push(cs.last()), cs),
{
    assert forall|i: int| 0 <= i < sub.len() implies cs.contains(#[trigger] sub[i]) by {
        let k = choose|k: int| 0 <= k < cs.drop_last().len() && cs.drop_last()[k] == sub[i];
        assert(cs[k] == sub[i]);
    }
    assert forall|i: int| 0 <= i < sub.push(cs.last()).len() implies cs.contains(
        #[trigger] sub.push(cs.last())[i],
    ) by {
        if i < sub.len() {
            assert(sub.push(cs.last())[i] == sub[i]);
        } else {
            assert(cs[cs.len() - 1] == cs.last());
        }
    }
}

proof fn lemma_sorted_cs_within(s: Seq<Container>)
    ensures
        within(sorted_cs(s), s),
    decreases s.len(),
{
    if s.len() > 0 {
        lemma_sorted_cs_within(s.drop_last());
        let r0 = sorted_cs(s.drop_last());
        let x = s.last();
        lemma_insert_c_within(r0, x);
        lemma_within_grow(r0, s);
        assert forall|i: int| 0 <= i < sorted_cs(s).len() implies s.contains(
            #[trigger] sorted_cs(s)[i],
        ) by {
            if sorted_cs(s)[i] == x {
                assert(s[s.len() - 1] == x);
            } else {
                assert(r0.contains(sorted_cs(s)[i]));
                let k = choose|k: int| 0 <= k < r0.len() && r0[k] == sorted_cs(s)[i];
                assert(s.contains(r0[k]));
            }
        }
    }
}

proof fn lemma_insert_c_within(s: Seq<Container>, x: Container)
    ensures
        forall|i: int|
            0 <= i < insert_c(s, x).len() ==> #[trigger] insert_c(s, x)[i] == x || s.contains(
                insert_c(s, x)[i],
            ),
    decreases s.len(),
{
    if s.len() > 0 && c_lt(x, s.last()) {
        lemma_insert_c_within(s.drop_last(), x);
        let r = insert_c(s, x);
        let r0 = insert_c(s.drop_last(), x);
        assert forall|i: int| 0 <= i < r.len() implies #[trigger] r[i] == x || s.contains(r[i]) by {
            if i < r0.len() {
                assert(r[i] == r0[i]);
                if r0[i] != x {
                    let k = choose|k: int| 0 <= k < s.drop_last().len() && s.drop_last()[k] == r0[i];
                    assert(s[k] == r0[i]);
                }
            } else {
                assert(s[s.len() - 1] == r[i]);
            }
        }
    } else {
        let r = insert_c(s, x);
        assert forall|i: int| 0 <= i < r.len() implies #[trigger] r[i] == x || s.contains(r[i]) by {
            if i < s.len() {
                assert(r[i] == s[i]);
            }
        }
    }
}

proof fn lemma_rows_of_concat(a: Seq<RowV>, b: Seq<RowV>, cs: Seq<Container>)
    requires
        rows_of(a, cs),
        rows_of(b, cs),
    ensures
        rows_of(a + b, cs),
{
    assert forall|i: int| 0 <= i < (a + b).len() && (#[trigger] (a + b)[i]).0.0 == 3 implies exists|
        j: int,
    | 0 <= j < cs.len() && (a + b)[i].0.1 == (#[trigger] cs[j]).id@ by {
        if i < a.len() {
            assert((a + b)[i] == a[i]);
        } else {
            assert((a + b)[i] == b[i - a.len()]);
        }
    }
}

proof fn lemma_ctr_rows_of(sub: Seq<Container>, cs: Seq<Container>, d: nat)
    requires
        within(sub, cs),
    ensures
        rows_of(ctr_rows(sub, d), cs),
{
    let rs = ctr_rows(sub, d);
    assert forall|i: int| 0 <= i < rs.len() && (#[trigger] rs[i]).0.0 == 3 implies exists|j: int|
        0 <= j < cs.len() && rs[i].0.1 == (#[trigger] cs[j]).id@ by {
        assert(cs.contains(sub[i]));
        let j = choose|j: int| 0 <= j < cs.len() && cs[j] == sub[i];
        assert(rs[i].0.1 == cs[j].id@);
    }
}

proof fn lemma_svcs_rows_of(
    cs: Seq<Container>,
    cs_p: Seq<Container>,
    p: Seq<char>,
    ss: Seq<Seq<char>>,
    exp: Seq<Seq<char>>,
    sa: bool,
)
    requires
        within(cs_p, cs),
    ensures
        rows_of(svcs_rows(cs_p, p, ss, exp, sa), cs),
    decreases ss.len(),
{
    if ss.len() > 0 {
        lemma_svcs_rows_of(cs, cs_p, p, ss.drop_last(), exp, sa);
        let sv = ss.last();
        let scs = of_service(cs_p, sv);
        lemma_of_service_within(cs_p, sv);
        lemma_sorted_cs_within(scs);
        lemma_within_trans(sorted_cs(scs), scs, cs_p);
        lemma_within_trans(sorted_cs(scs), cs_p, cs);
        let one = svc_rows(cs_p, p, sv, exp, sa);
        let tail = if expd(exp, sa, "p:"@ + p + "/"@ + sv) {
            ctr_rows(sorted_cs(scs), 3)
        } else {
            Seq::empty()
        };
        lemma_ctr_rows_of(sorted_cs(scs), cs, 3);
        assert(one =~= one.take(1) + tail);
        assert(rows_of(one.take(1), cs));
        lemma_rows_of_concat(one.take(1), tail, cs);
        lemma_rows_of_concat(svcs_rows(cs_p, p, ss.drop_last(), exp, sa), one, cs);
    }
}

proof fn lemma_projs_rows_of(cs: Seq<Container>, ps: Seq<Seq<char>>, exp: Seq<Seq<char>>, sa: bool)
    ensures
        rows_of(projs_rows(cs, ps, exp, sa), cs),
    decreases ps.len(),
{
    if ps.len() > 0 {
        lemma_projs_rows_of(cs, ps.drop_last(), exp, sa);
        let p = ps.last();
        let cs_p = of_project(cs, p);
        lemma_of_project_within(cs, p);
        lemma_svcs_rows_of(cs, cs_p, p, services_of(cs_p), exp, sa);
        let one = proj_rows(cs, p, exp, sa);
        let tail = if expd(exp, sa, "p:"@ + p) {
            svcs_rows(cs_p, p, services_of(cs_p), exp, sa)
        } else {
            Seq::empty()
        };
        assert(one =~= one.take(1) + tail);
        assert(rows_of(one.take(1), cs));
        lemma_rows_of_concat(one.take(1), tail, cs);
        lemma_rows_of_concat(projs_rows(cs, ps.drop_last(), exp, sa), one, cs);
    }
}

/// Every container row of the tree shows one of the listed containers.
pub proof fn lemma_tree_rows_of(cs: Seq<Container>, vs: Seq<Volume>, exp: Seq<Seq<char>>, sa: bool)
    ensures
        rows_of(tree_spec(cs, vs, exp, sa), cs),
{
    let a = projects_part(cs, exp, sa);
    lemma_projs_rows_of(cs, projects_of(cs), exp, sa);
    let ta = if expd(exp, sa, "sec:projects"@) {
        projs_rows(cs, projects_of(cs), exp, sa)
    } else {
        Seq::empty()
    };
    assert(a =~= a.take(1) + ta);
    assert(rows_of(a.take(1), cs));
    lemma_rows_of_concat(a.take(1), ta, cs);
    let b = standalone_part(cs, exp, sa);
    lemma_standalone_within(cs);
    lemma_sorted_cs_within(standalone(cs));
    lemma_within_trans(sorted_cs(standalone(cs)), standalone(cs), cs);
    lemma_ctr_rows_of(sorted_cs(standalone(cs)), cs, 1);
    let tb = if expd(exp, sa, "sec:containers"@) {
        ctr_rows(sorted_cs(standalone(cs)), 1)
    } else {
        Seq::empty()
    };
    assert(b =~= b.take(1) + tb);
    assert(rows_of(b.take(1), cs));
    lemma_rows_of_concat(b.take(1), tb, cs);
    let c = volumes_part(vs, exp, sa);
    assert(rows_of(c, cs)) by {
        assert forall|i: int| 0 <= i < c.len() implies (#[trigger] c[i]).0.0 != 3 by {
            if i > 0 {
                assert(c[i] == vol_row(vs[i - 1]));
            }
        }
    }
    lemma_rows_of_concat(a, b, cs);
    lemma_rows_of_concat(a + b, c, cs);
}

/// Filtering keeps rows as they are: their containers stay those listed.
pub proof fn lemma_filter_rows_of(p: Seq<char>, rs: Seq<RowV>, cs: Seq<Container>)
    requires
        rows_of(rs, cs),
    ensures
        rows_of(filtered(p, rs), cs),
{
    let f = filtered(p, rs);
    assert forall|k: int| 0 <= k < f.len() && (#[trigger] f[k]).0.0 == 3 implies exists|j: int|
        0 <= j < cs.len() && f[k].0.1 == (#[trigger] cs[j]).id@ by {
        lemma_filter_only_kept(p, rs, k);
    }
}

fn row_matches(m: &crate::search::Matcher, r: &Row) -> (b: bool)
    ensures
        b == hit(m@, r@),
{
    let mut t = r.label.clone();
    push_str(&mut t, " ");
    push_str(&mut t, r.sub.as_str());
    push_str(&mut t, " ");
    match &r.state {
        Some(s) => push_str(&mut t, s.as_str()),
        None => {},
    }
    proof {
        assert(t@ =~= row_text(r@)) by {
            reveal_strlit("");
        }
    }
    m.is_match(t.as_str())
}

/// Row `i` stays when the rows marked in `h` are those that match: it is
/// marked, an ancestor is (its whole subtree stays), or a descendant is
/// (its ancestors stay).
pub open spec fn kept_by(h: Seq<bool>, rs: Seq<RowV>, i: int) -> bool {
    ||| h[i]
    ||| exists|j: int| is_anc(rs, j, i) && #[trigger] h[j]
    ||| exists|k: int| is_anc(rs, i, k) && #[trigger] h[k]
}

/// With the marks being the filter's matches, the rows kept are the same.
pub proof fn lemma_kept_by_hits(p: Seq<char>, h: Seq<bool>, rs: Seq<RowV>, i: int)
    requires
        h.len() == rs.len(),
        forall|j: int| 0 <= j < rs.len() ==> h[j] == hit(p, #[trigger] rs[j]),
        0 <= i < rs.len(),
    ensures
        kept_by(h, rs, i) == kept(p, rs, i),
{
    if exists|j: int| is_anc(rs, j, i) && #[trigger] h[j] {
        let j = choose|j: int| is_anc(rs, j, i) && #[trigger] h[j];
        assert(hit(p, rs[j]));
    }
    if exists|j: int| is_anc(rs, j, i) && hit(p, #[trigger] rs[j]) {
        let j = choose|j: int| is_anc(rs, j, i) && hit(p, #[trigger] rs[j]);
        assert(h[j]);
    }
    if exists|k: int| is_anc(rs, i, k) && #[trigger] h[k] {
        let k = choose|k: int| is_anc(rs, i, k) && #[trigger] h[k];
        assert(hit(p, rs[k]));
    }
    if exists|k: int| is_anc(rs, i, k) && hit(p, #[trigger] rs[k]) {
        let k = choose|k: int| is_anc(rs, i, k) && hit(p, #[trigger] rs[k]);
        assert(h[k]);
    }
}

/// Which rows stay, given which rows match (`hits`, one per row).
pub fn rows_kept(rows: &Vec<Row>, hits: &Vec<bool>) -> (r: Vec<bool>)
    requires
        hits@.len() == rows@.len(),
    ensures
        r@.len() == rows@.len(),
        forall|j: int| 0 <= j < rows@.len() ==> r@[j] == kept_by(hits@, rows_view(rows@), j),
{
    let mut keep: Vec<bool> = Vec::new();
    let mut i: usize = 0;
    while i < rows.len()
        invariant
            i <= rows@.len(),
            hits@.len() == rows@.len(),
            keep@.len() == i,
            forall|j: int| 0 <= j < i ==> keep@[j] == kept_by(hits@, rows_view(rows@), j),
        decreases rows@.len() - i,
    {
        let k = kept_at(rows, hits, i);
        keep.push(k);
        i += 1;
    }
    keep
}

fn kept_at(rows: &Vec<Row>, hits: &Vec<bool>, i: usize) -> (b: bool)
    requires
        i < rows@.len(),
        hits@.len() == rows@.len(),
    ensures
        b == kept_by(hits@, rows_view(rows@), i as int),
{
    let ghost rs = rows_view(rows@);
    if hits[i] {
        return true;
    }
    // ancestors: scan back, tracking the smallest depth seen after each row
    let mut found = false;
    let mut m: usize = rows[i].depth;
    let mut j: usize = i;
    assert(rs[i as int].2 == m);
    while j > 0
        invariant
            j <= i < rows@.len(),
            rs == rows_view(rows@),
            hits@.len() == rows@.len(),
            forall|k: int| j <= k <= i ==> (#[trigger] rs[k]).2 >= m,
            exists|k: int| j <= k <= i && (#[trigger] rs[k]).2 == m,
            found <==> exists|a: int| j <= a < i && is_anc(rs, a, i as int) && #[trigger] hits@[a],
        decreases j,
    {
        j -= 1;
        let d = rows[j].depth;
        assert(rs[j as int].2 == d);
        proof {
            assert(is_anc(rs, j as int, i as int) <==> (d as int) < (m as int)) by {
                if (d as int) < (m as int) {
                    assert forall|k: int| j < k <= i implies (#[trigger] rs[k]).2 > rs[j as int].2 by {}
                } else {
                    let w = choose|k: int| j + 1 <= k <= i && (#[trigger] rs[k]).2 == m;
                    assert(rs[w].2 <= rs[j as int].2);
                }
            }
        }
        if d < m {
            if hits[j] {
                found = true;
            }
            m = d;
        }
        proof {
            if !(d < m) {
            }
        }
    }
    if found {
        return true;
    }
    // descendants: every following row deeper than row i
    let di = rows[i].depth;
    assert(i < rows.len());
    let mut k: usize = i + 1;
    let mut below = false;
    while k < rows.len() && rows[k].depth > di
        invariant
            i < k <= rows@.len(),
            rs == rows_view(rows@),
            hits@.len() == rows@.len(),
            di == rs[i as int].2,
            forall|x: int| i < x < k ==> (#[trigger] rs[x]).2 > di,
            below <==> exists|c: int| i < c < k && is_anc(rs, i as int, c) && #[trigger] hits@[c],
        decreases rows@.len() - k,
    {
        assert(is_anc(rs, i as int, k as int));
        if hits[k] {
            below = true;
        }
        k += 1;
        proof {
            if !below {
                assert forall|c: int| i < c < k && is_anc(rs, i as int, c) implies !#[trigger] hits@[c] by {
                    if c < k - 1 {
                    }
                }
            }
        }
    }
    proof {
        if !below {
            assert forall|c: int| is_anc(rs, i as int, c) implies !#[trigger] hits@[c] by {
                if c >= k {
                    assert(rs[k as int].2 > rs[i as int].2);
                }
            }
        }
    }
    below
}

/// Keep rows that match, plus their ancestors; if a parent row itself
/// matches, its whole subtree is kept.
pub fn filter_rows(rows: Vec<Row>, m: &crate::search::Matcher) -> (r: Vec<Row>)
    ensures
        rows_view(r@) == filtered(m@, rows_view(rows@)),
{
    let ghost rs = rows_view(rows@);
    let mut hits: Vec<bool> = Vec::new();
    let mut i: usize = 0;
    while i < rows.len()
        invariant
            i <= rows@.len(),
            rs == rows_view(rows@),
            hits@.len() == i,
            forall|j: int| 0 <= j < i ==> hits@[j] == hit(m@, #[trigger] rs[j]),
        decreases rows@.len() - i,
    {
        let h = row_matches(m, &rows[i]);
        hits.push(h);
        i += 1;
    }
    let keep = rows_kept(&rows, &hits);
    assert forall|j: int| 0 <= j < rows@.len() implies keep@[j] == kept(m@, rs, j) by {
        lemma_kept_by_hits(m@, hits@, rs, j);
    }
    let ghost orig = rows@;
    assert(orig.len() == rows.len());
    let mut rest = rows;
    let mut out: Vec<Row> = Vec::new();
    let mut n: usize = 0;
    while rest.len() > 0
        invariant
            orig.len() <= usize::MAX,
            n + rest@.len() == orig.len(),
            rest@ == orig.skip(n as int),
            rs == rows_view(orig),
            keep@.len() == orig.len(),
            forall|j: int| 0 <= j < orig.len() ==> keep@[j] == kept(m@, rs, j),
            rows_view(out@) == kept_upto(m@, rs, n as int),
        decreases rest@.len(),
    {
        let row = rest.remove(0);
        assert(row == orig[n as int]);
        if keep[n] {
            push_row(&mut out, row);
        }
        n += 1;
        assert(rest@ =~= orig.skip(n as int));
    }
    out
}

} // verus!
