//! What the list views show: running containers by name, and the events,
//! log lines and directory entries the active `/` filter lets through.
use vstd::prelude::*;

use super::App;
use crate::files::FsEntry;
use crate::model::{Container, DockerEvent};
use crate::text::{seq_lt, str_lt};

verus! {

/// The values behind a sequence of references.
pub open spec fn derefs<'a, T>(s: Seq<&'a T>) -> Seq<T> {
    s.map_values(|x: &'a T| *x)
}

/// The elements of `s` that satisfy `f`, in order.
pub open spec fn select<T>(s: Seq<T>, f: spec_fn(T) -> bool) -> Seq<T>
    decreases s.len(),
{
    if s.len() == 0 {
        s
    } else {
        let r = select(s.drop_last(), f);
        if f(s.last()) {
            r.push(s.last())
        } else {
            r
        }
    }
}

pub proof fn lemma_derefs_push<'a, T>(s: Seq<&'a T>, x: &'a T)
    ensures
        derefs(s.push(x)) == derefs(s).push(*x),
{
    assert(derefs(s.push(x)) =~= derefs(s).push(*x));
}

pub proof fn lemma_select_take<T>(s: Seq<T>, f: spec_fn(T) -> bool, i: int)
    requires
        0 <= i < s.len(),
    ensures
        select(s.take(i + 1), f) == if f(s[i]) {
            select(s.take(i), f).push(s[i])
        } else {
            select(s.take(i), f)
        },
{
    assert(s.take(i + 1).drop_last() =~= s.take(i));
}

/// What `select` keeps satisfies the test.
pub proof fn lemma_select_sat<T>(s: Seq<T>, f: spec_fn(T) -> bool)
    ensures
        forall|i: int| 0 <= i < select(s, f).len() ==> f(#[trigger] select(s, f)[i]),
    decreases s.len(),
{
    if s.len() > 0 {
        lemma_select_sat(s.drop_last(), f);
        let r = select(s.drop_last(), f);
        assert forall|i: int| 0 <= i < select(s, f).len() implies f(#[trigger] select(s, f)[i]) by {
            if i < r.len() {
                assert(select(s, f)[i] == r[i]);
            }
        }
    }
}

/// The elements of `s` whose mark in `m` (one per element) is set, in order.
pub open spec fn select_marked<T>(s: Seq<T>, m: Seq<bool>) -> Seq<T>
    decreases s.len(),
{
    if s.len() == 0 {
        s
    } else {
        let r = select_marked(s.drop_last(), m);
        if m[s.len() - 1] {
            r.push(s.last())
        } else {
            r
        }
    }
}

/// Marks that say which elements satisfy `f` select those elements.
pub proof fn lemma_select_marked<T>(s: Seq<T>, m: Seq<bool>, f: spec_fn(T) -> bool)
    requires
        m.len() >= s.len(),
        forall|i: int| 0 <= i < s.len() ==> m[i] == f(#[trigger] s[i]),
    ensures
        select_marked(s, m) == select(s, f),
    decreases s.len(),
{
    if s.len() > 0 {
        let d = s.drop_last();
        assert forall|i: int| 0 <= i < d.len() implies m[i] == f(#[trigger] d[i]) by {
            assert(d[i] == s[i]);
        }
        lemma_select_marked(d, m, f);
        assert(m[s.len() - 1] == f(s[s.len() - 1]));
    }
}

/// References to the items whose mark is set, in order.
pub fn pick_marked<'a, T>(items: &'a Vec<T>, marks: &Vec<bool>) -> (r: Vec<&'a T>)
    requires
        marks@.len() == items@.len(),
    ensures
        derefs(r@) == select_marked(items@, marks@),
{
    let mut out: Vec<&'a T> = Vec::new();
    let mut i: usize = 0;
    while i < items.len()
        invariant
            i <= items@.len(),
            marks@.len() == items@.len(),
            derefs(out@) == select_marked(items@.take(i as int), marks@),
        decreases items@.len() - i,
    {
        assert(items@.take(i + 1).drop_last() =~= items@.take(i as int));
        if marks[i] {
            let ghost before = out@;
            out.push(&items[i]);
            proof {
                lemma_derefs_push(before, &items@[i as int]);
            }
        }
        i += 1;
    }
    assert(items@.take(items@.len() as int) =~= items@);
    out
}

/// The references whose mark is set, in order.
pub fn pick_marked_refs<'a, T>(items: &Vec<&'a T>, marks: &Vec<bool>) -> (r: Vec<&'a T>)
    requires
        marks@.len() == items@.len(),
    ensures
        derefs(r@) == select_marked(derefs(items@), marks@),
{
    let ghost all = derefs(items@);
    let mut out: Vec<&'a T> = Vec::new();
    let mut i: usize = 0;
    while i < items.len()
        invariant
            i <= items@.len(),
            all == derefs(items@),
            marks@.len() == items@.len(),
            derefs(out@) == select_marked(all.take(i as int), marks@),
        decreases items@.len() - i,
    {
        assert(all.take(i + 1).drop_last() =~= all.take(i as int));
        assert(all.take(i + 1).last() == *items@[i as int]);
        if marks[i] {
            let ghost before = out@;
            out.push(items[i]);
            proof {
                lemma_derefs_push(before, items@[i as int]);
            }
        }
        i += 1;
    }
    assert(all.take(items@.len() as int) =~= all);
    out
}

/// `x` placed after every container whose name does not sort after its own.
pub open spec fn insert_by_name(s: Seq<Container>, x: Container) -> Seq<Container>
    decreases s.len(),
{
    if s.len() == 0 || !seq_lt(x.name@, s.last().name@) {
        s.push(x)
    } else {
        insert_by_name(s.drop_last(), x).push(s.last())
    }
}

/// Stable sort by name.
pub open spec fn by_name(s: Seq<Container>) -> Seq<Container>
    decreases s.len(),
{
    if s.len() == 0 {
        s
    } else {
        insert_by_name(by_name(s.drop_last()), s.last())
    }
}

proof fn lemma_insert_by_name_at(s: Seq<Container>, x: Container, j: int)
    requires
        0 <= j <= s.len(),
        forall|k: int| j <= k < s.len() ==> seq_lt(x.name@, (#[trigger] s[k]).name@),
        j == 0 || !seq_lt(x.name@, s[j - 1].name@),
    ensures
        insert_by_name(s, x) == s.take(j).push(x) + s.skip(j),
    decreases s.len(),
{
    if s.len() == 0 {
        assert(s.take(j).push(x) + s.skip(j) =~= seq![x]);
    } else if j == s.len() {
        assert(s.take(j) == s);
        assert(s.skip(j) =~= Seq::<Container>::empty());
        assert(s.take(j).push(x) + s.skip(j) =~= s.push(x));
    } else {
        assert(seq_lt(x.name@, s[s.len() - 1].name@));
        lemma_insert_by_name_at(s.drop_last(), x, j);
        assert(s.drop_last().take(j) == s.take(j));
        assert((s.take(j).push(x) + s.drop_last().skip(j)).push(s.last()) =~= s.take(j).push(x)
            + s.skip(j));
    }
}

/// The container is running.
pub open spec fn is_up(c: Container) -> bool {
    c.running()
}

/// The running containers, ordered by name.
pub open spec fn running_by_name(cs: Seq<Container>) -> Seq<Container> {
    by_name(select(cs, |c: Container| is_up(c)))
}

/// A stats row matches the filter on its name, image or state.
pub open spec fn stats_hit(p: Seq<char>, c: Container) -> bool {
    crate::search::regex_matches(p, c.name@) || crate::search::regex_matches(p, c.image@)
        || crate::search::regex_matches(p, c.state@)
}

/// An event matches the filter on its type, action, actor or scope.
pub open spec fn event_hit(p: Seq<char>, e: DockerEvent) -> bool {
    crate::search::regex_matches(p, e.typ@) || crate::search::regex_matches(p, e.action@)
        || crate::search::regex_matches(p, e.actor_name@) || crate::search::regex_matches(
        p,
        e.actor_id@,
    ) || crate::search::regex_matches(p, e.scope@)
}

/// The rows of the stats table.
pub open spec fn stats_rows_of(cs: Seq<Container>, pat: Option<Seq<char>>) -> Seq<Container> {
    match pat {
        None => running_by_name(cs),
        Some(p) => select(running_by_name(cs), |c: Container| stats_hit(p, c)),
    }
}

/// The events shown.
pub open spec fn events_of(es: Seq<DockerEvent>, pat: Option<Seq<char>>) -> Seq<DockerEvent> {
    match pat {
        None => es,
        Some(p) => select(es, |e: DockerEvent| event_hit(p, e)),
    }
}

/// The log lines shown.
pub open spec fn lines_of(ls: Seq<Seq<char>>, pat: Option<Seq<char>>) -> Seq<Seq<char>> {
    match pat {
        None => ls,
        Some(p) => select(ls, |l: Seq<char>| crate::search::regex_matches(p, l)),
    }
}

/// The directory entries shown.
pub open spec fn entries_of(es: Seq<FsEntry>, pat: Option<Seq<char>>) -> Seq<FsEntry> {
    match pat {
        None => es,
        Some(p) => select(es, |e: FsEntry| crate::search::regex_matches(p, e.name@)),
    }
}

/// The running containers (references into `cs`), ordered by name.
pub fn running_refs<'a>(cs: &'a Vec<Container>) -> (r: Vec<&'a Container>)
    ensures
        derefs(r@) == running_by_name(cs@),
{
    let ghost f = |c: Container| is_up(c);
    let mut up: Vec<&'a Container> = Vec::new();
    let mut i: usize = 0;
    while i < cs.len()
        invariant
            f == (|c: Container| is_up(c)),
            i <= cs@.len(),
            derefs(up@) == select(cs@.take(i as int), f),
        decreases cs@.len() - i,
    {
        proof {
            lemma_select_take(cs@, f, i as int);
        }
        if cs[i].is_running() {
            let ghost before = up@;
            up.push(&cs[i]);
            proof {
                lemma_derefs_push(before, &cs@[i as int]);
            }
        }
        i += 1;
    }
    assert(cs@.take(cs@.len() as int) =~= cs@);
    let ghost run = derefs(up@);
    let mut out: Vec<&'a Container> = Vec::new();
    let mut i: usize = 0;
    while i < up.len()
        invariant
            i <= up@.len(),
            run == derefs(up@),
            derefs(out@) == by_name(run.take(i as int)),
        decreases up@.len() - i,
    {
        let x = up[i];
        assert(run.take(i + 1).drop_last() =~= run.take(i as int));
        assert(run.take(i + 1).last() == *x);
        let mut j: usize = out.len();
        while j > 0 && str_lt(x.name.as_str(), out[j - 1].name.as_str())
            invariant
                j <= out@.len(),
                forall|k: int| j <= k < out@.len() ==> seq_lt(x.name@, (#[trigger] out@[k]).name@),
            decreases j,
        {
            j -= 1;
        }
        let ghost before = out@;
        proof {
            assert forall|k: int| j <= k < derefs(before).len() implies seq_lt(
                x.name@,
                (#[trigger] derefs(before)[k]).name@,
            ) by {
                assert(derefs(before)[k] == *before[k]);
            }
            if j > 0 {
                assert(derefs(before)[j - 1] == *before[j - 1]);
            }
            lemma_insert_by_name_at(derefs(before), *x, j as int);
        }
        out.insert(j as usize, x);
        assert(derefs(out@) =~= derefs(before).take(j as int).push(*x) + derefs(before).skip(
            j as int,
        ));
        i += 1;
    }
    assert(run.take(up@.len() as int) =~= run);
    out
}

impl App {
    /// Running containers ordered by name.
    pub fn running_containers(&self) -> (r: Vec<&Container>)
        ensures
            derefs(r@) == running_by_name(self.containers@),
    {
        running_refs(&self.containers)
    }

    /// Running containers visible under the active `/` filter.
    pub fn stats_rows(&self) -> (r: Vec<&Container>)
        ensures
            derefs(r@) == stats_rows_of(self.containers@, self.pattern()),
    {
        let v = running_refs(&self.containers);
        match &self.search.active {
            None => v,
            Some(m) => {
                let ghost all = derefs(v@);
                let mut marks: Vec<bool> = Vec::new();
                let mut i: usize = 0;
                while i < v.len()
                    invariant
                        i <= v@.len(),
                        all == derefs(v@),
                        marks@.len() == i,
                        forall|j: int| 0 <= j < i ==> marks@[j] == stats_hit(m@, #[trigger] all[j]),
                    decreases v@.len() - i,
                {
                    let c = v[i];
                    assert(all[i as int] == *c);
                    marks.push(
                        m.is_match(c.name.as_str()) || m.is_match(c.image.as_str()) || m.is_match(
                            c.state.as_str(),
                        ),
                    );
                    i += 1;
                }
                proof {
                    lemma_select_marked(all, marks@, |c: Container| stats_hit(m@, c));
                }
                pick_marked_refs(&v, &marks)
            },
        }
    }

    /// Events visible under the active `/` filter.
    pub fn visible_events(&self) -> (r: Vec<&DockerEvent>)
        ensures
            derefs(r@) == events_of(self.events@, self.pattern()),
    {
        let ghost f = |e: DockerEvent|
            match self.search.active {
                Some(m) => event_hit(m@, e),
                None => true,
            };
        let mut marks: Vec<bool> = Vec::new();
        let mut i: usize = 0;
        while i < self.events.len()
            invariant
                f == (|e: DockerEvent|
            match self.search.active {
                Some(m) => event_hit(m@, e),
                None => true,
            }),
                i <= self.events@.len(),
                marks@.len() == i,
                forall|j: int| 0 <= j < i ==> marks@[j] == f(#[trigger] self.events@[j]),
            decreases self.events@.len() - i,
        {
            let e = &self.events[i];
            let keep = match &self.search.active {
                None => true,
                Some(m) => m.is_match(e.typ.as_str()) || m.is_match(e.action.as_str())
                    || m.is_match(e.actor_name.as_str()) || m.is_match(e.actor_id.as_str())
                    || m.is_match(e.scope.as_str()),
            };
            marks.push(keep);
            i += 1;
        }
        proof {
            lemma_select_marked(self.events@, marks@, f);
            if self.search.active is None {
                lemma_select_all(self.events@, f);
            } else {
                assert(f =~= (|e: DockerEvent| event_hit(self.pattern()->0, e)));
            }
        }
        pick_marked(&self.events, &marks)
    }

    /// Log lines visible under the active `/` filter.
    pub fn visible_log_lines(&self) -> (r: Vec<&String>)
        ensures
            crate::util::strs(derefs(r@)) == lines_of(crate::util::strs(self.log_lines@), self.pattern()),
    {
        let ghost f = |l: String|
            match self.search.active {
                Some(m) => crate::search::regex_matches(m@, l@),
                None => true,
            };
        let mut marks: Vec<bool> = Vec::new();
        let mut i: usize = 0;
        while i < self.log_lines.len()
            invariant
                f == (|l: String|
            match self.search.active {
                Some(m) => crate::search::regex_matches(m@, l@),
                None => true,
            }),
                i <= self.log_lines@.len(),
                marks@.len() == i,
                forall|j: int| 0 <= j < i ==> marks@[j] == f(#[trigger] self.log_lines@[j]),
            decreases self.log_lines@.len() - i,
        {
            let l = &self.log_lines[i];
            let keep = match &self.search.active {
                None => true,
                Some(m) => m.is_match(l.as_str()),
            };
            marks.push(keep);
            i += 1;
        }
        proof {
            lemma_select_marked(self.log_lines@, marks@, f);
            lemma_select_strs(self.log_lines@, f, self.pattern());
        }
        pick_marked(&self.log_lines, &marks)
    }

    /// Directory entries visible under the active `/` filter (none when the
    /// explorer is closed).
    pub fn visible_files(&self) -> (r: Vec<&FsEntry>)
        ensures
            derefs(r@) == match self.files {
                Some(f) => entries_of(f.entries@, self.pattern()),
                None => Seq::empty(),
            },
    {
        let mut out: Vec<&FsEntry> = Vec::new();
        match &self.files {
            None => {
                assert(derefs(out@) =~= Seq::<FsEntry>::empty());
                out
            },
            Some(fs) => {
                let ghost f = |e: FsEntry|
                    match self.search.active {
                        Some(m) => crate::search::regex_matches(m@, e.name@),
                        None => true,
                    };
                let mut marks: Vec<bool> = Vec::new();
                let mut i: usize = 0;
                while i < fs.entries.len()
                    invariant
                        f == (|e: FsEntry|
                    match self.search.active {
                        Some(m) => crate::search::regex_matches(m@, e.name@),
                        None => true,
                    }),
                        i <= fs.entries@.len(),
                        marks@.len() == i,
                        forall|j: int| 0 <= j < i ==> marks@[j] == f(#[trigger] fs.entries@[j]),
                    decreases fs.entries@.len() - i,
                {
                    let e = &fs.entries[i];
                    let keep = match &self.search.active {
                        None => true,
                        Some(m) => m.is_match(e.name.as_str()),
                    };
                    marks.push(keep);
                    i += 1;
                }
                proof {
                    lemma_select_marked(fs.entries@, marks@, f);
                    if self.search.active is None {
                        lemma_select_all(fs.entries@, f);
                    } else {
                        assert(f =~= (|e: FsEntry|
                            crate::search::regex_matches(self.pattern()->0, e.name@)));
                    }
                }
                pick_marked(&fs.entries, &marks)
            },
        }
    }

    /// A `/` filter is in force.
    pub fn search_active(&self) -> (r: bool)
        ensures
            r == self.pattern() is Some,
    {
        self.search.active.is_some()
    }
}

proof fn lemma_select_all<T>(s: Seq<T>, f: spec_fn(T) -> bool)
    requires
        forall|x: T| #[trigger] f(x),
    ensures
        select(s, f) == s,
    decreases s.len(),
{
    if s.len() > 0 {
        lemma_select_all(s.drop_last(), f);
        assert(s.drop_last().push(s.last()) =~= s);
    }
}

proof fn lemma_select_strs(
    s: Seq<String>,
    f: spec_fn(String) -> bool,
    pat: Option<Seq<char>>,
)
    requires
        forall|x: String|
            #[trigger] f(x) == match pat {
                Some(p) => crate::search::regex_matches(p, x@),
                None => true,
            },
    ensures
        crate::util::strs(select(s, f)) == lines_of(crate::util::strs(s), pat),
    decreases s.len(),
{
    if s.len() > 0 {
        lemma_select_strs(s.drop_last(), f, pat);
        assert(crate::util::strs(s.drop_last()) =~= crate::util::strs(s).drop_last());
        crate::text::lemma_map_push(select(s.drop_last(), f), s.last(), |x: String| x@);
        match pat {
            Some(p) => {},
            None => {
                assert(crate::util::strs(s.drop_last()).push(s.last()@) =~= crate::util::strs(s));
            },
        }
    } else {
        assert(crate::util::strs(s) =~= Seq::<Seq<char>>::empty());
    }
}

} // verus!
