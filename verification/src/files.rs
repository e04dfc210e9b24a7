//! Directory listings for the filesystem explorer: the container archive
//! read as the children of one directory, and a fixed listing for demo mode.
use vstd::prelude::*;

use crate::text::{
    chars_of, concat3, first_index, first_pos, last_index, last_pos, lowercase, owned, seq_lt,
    slice_chars, string_of, to_lowercase,
};
use crate::order::{ins_by, keys_distinct, lemma_sort_by, sort_by, sorted_by};

verus! {

/// One row of the filesystem explorer.
pub struct FsEntry {
    pub name: String,
    pub dir: bool,
    pub size: u64,
}

pub type FsView = (Seq<char>, bool, u64);

impl View for FsEntry {
    type V = FsView;

    open spec fn view(&self) -> FsView {
        (self.name@, self.dir, self.size)
    }
}

impl Clone for FsEntry {
    fn clone(&self) -> (r: Self)
        ensures
            r@ == self@,
    {
        FsEntry { name: self.name.clone(), dir: self.dir, size: self.size }
    }
}

/// The views of a list of entries.
pub open spec fn fs_views(v: Seq<FsEntry>) -> Seq<FsView> {
    v.map_values(|e: FsEntry| e@)
}

/// The kind of an archive member, as far as a listing cares.
#[derive(Clone, Copy, PartialEq, Eq, Structural)]
pub enum TarKind {
    Regular,
    Directory,
    Other,
}

/// One member of a tar archive: its path, kind and size in bytes.
pub struct TarItem {
    pub path: String,
    pub kind: TarKind,
    pub size: u64,
}

pub type TarView = (Seq<char>, TarKind, u64);

/// What the tar reader makes of an archive: its members in order (with an
/// empty path for members that are neither files nor directories), or the
/// reader's error text.
pub uninterp spec fn tar_read(data: Seq<u8>) -> Result<Seq<TarView>, Seq<char>>;

/// The views of a read of an archive.
pub open spec fn tar_read_view(r: Result<Vec<TarItem>, String>) -> Result<Seq<TarView>, Seq<char>> {
    match r {
        Ok(v) => Ok(v@.map_values(|t: TarItem| (t.path@, t.kind, t.size))),
        Err(e) => Err(e@),
    }
}

/// tar `Archive::entries`, each member's header type and size, and for
/// files and directories the path (lossily decoded); the path of any other
/// member is never read and stands empty. The result is whatever the reader
/// makes of `data`; no bytes at all read as an archive without members (the
/// reader stops at the end of its input before the first header).
#[verifier::external_body]
fn read_tar(data: &[u8]) -> (r: Result<Vec<TarItem>, String>)
    ensures
        tar_read_view(r) == tar_read(data@),
        data@.len() == 0 ==> r is Ok && r->Ok_0@.len() == 0,
{
    let mut out = Vec::new();
    let mut ar = tar::Archive::new(data);
    for e in ar.entries().map_err(|e| e.to_string())? {
        let e = e.map_err(|e| e.to_string())?;
        let (kind, path) = match e.header().entry_type() {
            tar::EntryType::Regular => (TarKind::Regular, e.path()),
            tar::EntryType::Directory => (TarKind::Directory, e.path()),
            _ => (TarKind::Other, Ok(std::path::Path::new("").into())),
        };
        let path = path.map_err(|e| e.to_string())?.to_string_lossy().to_string();
        out.push(TarItem { path, kind, size: e.size() });
    }
    Ok(out)
}

// ---------------------------------------------------------------- paths

/// `p` without its leading `./` pieces.
pub open spec fn strip_dot_slash(p: Seq<char>) -> Seq<char>
    decreases p.len(),
{
    if p.len() >= 2 && p[0] == '.' && p[1] == '/' {
        strip_dot_slash(p.skip(2))
    } else {
        p
    }
}

/// `p` without leading `c`s.
pub open spec fn strip_lead(p: Seq<char>, c: char) -> Seq<char>
    decreases p.len(),
{
    if p.len() > 0 && p[0] == c {
        strip_lead(p.drop_first(), c)
    } else {
        p
    }
}

/// `p` without trailing `c`s.
pub open spec fn strip_trail(p: Seq<char>, c: char) -> Seq<char>
    decreases p.len(),
{
    if p.len() > 0 && p.last() == c {
        strip_trail(p.drop_last(), c)
    } else {
        p
    }
}

/// A member path as the listing uses it: no leading `./`, no slashes at
/// either end.
pub open spec fn clean_path(p: Seq<char>) -> Seq<char> {
    strip_trail(strip_lead(strip_dot_slash(p), '/'), '/')
}

/// The first `/`-separated component of `p`.
pub open spec fn first_comp(p: Seq<char>) -> Seq<char> {
    match first_index(p, '/') {
        Some(i) => p.take(i as int),
        None => p,
    }
}

fn clean_path_exec(p: &Vec<char>) -> (r: Vec<char>)
    ensures
        r@ == clean_path(p@),
{
    let mut a: usize = 0;
    assert(p@.skip(0) =~= p@);
    while p.len() - a >= 2 && p[a] == '.' && p[a + 1] == '/'
        invariant
            a <= p@.len(),
            strip_dot_slash(p@) == strip_dot_slash(p@.skip(a as int)),
        decreases p@.len() - a,
    {
        assert(p@.skip(a as int).skip(2) =~= p@.skip(a + 2));
        a += 2;
    }
    while a < p.len() && p[a] == '/'
        invariant
            a <= p@.len(),
            strip_lead(strip_dot_slash(p@), '/') == strip_lead(p@.skip(a as int), '/'),
        decreases p@.len() - a,
    {
        assert(p@.skip(a as int).drop_first() =~= p@.skip(a + 1));
        a += 1;
    }
    let mut b: usize = p.len();
    assert(p@.skip(a as int) =~= p@.subrange(a as int, b as int));
    while b > a && p[b - 1] == '/'
        invariant
            a <= b <= p@.len(),
            clean_path(p@) == strip_trail(p@.subrange(a as int, b as int), '/'),
        decreases b - a,
    {
        assert(p@.subrange(a as int, b as int).drop_last() =~= p@.subrange(a as int, b - 1));
        b -= 1;
    }
    slice_chars(p, a, b)
}

/// The last character of a non-empty list.
fn first_comp_exec(p: &Vec<char>) -> (r: Vec<char>)
    ensures
        r@ == first_comp(p@),
{
    proof {
        crate::text::lemma_first_index(p@, '/');
    }
    match first_pos(p, '/') {
        Some(i) => slice_chars(p, 0, i),
        None => slice_chars(p, 0, p.len()),
    }
}

// ---------------------------------------------------------------- listing

/// The listable members: files and directories with a usable path, as
/// (path, is a directory, size) — directories count no bytes.
pub open spec fn raw_members(items: Seq<TarView>) -> Seq<FsView>
    decreases items.len(),
{
    if items.len() == 0 {
        Seq::empty()
    } else {
        let rest = raw_members(items.drop_last());
        let it = items.last();
        let p = clean_path(it.0);
        if (it.1 == TarKind::Regular || it.1 == TarKind::Directory) && p.len() > 0 {
            rest.push(
                (
                    p,
                    it.1 == TarKind::Directory,
                    if it.1 == TarKind::Directory {
                        0u64
                    } else {
                        it.2
                    },
                ),
            )
        } else {
            rest
        }
    }
}

/// Every member sits under the first member, itself a single component:
/// the archive of a subdirectory, as the daemon sends it.
pub open spec fn shared_head(raw: Seq<FsView>) -> bool {
    &&& raw.len() > 1
    &&& raw[0].0 == first_comp(raw[0].0)
    &&& forall|i: int| 0 <= i < raw.len() ==> first_comp(#[trigger] raw[i].0) == raw[0].0
}

/// Position of the entry named `name`.
pub open spec fn name_pos(m: Seq<FsView>, name: Seq<char>) -> Option<nat>
    decreases m.len(),
{
    if m.len() == 0 {
        None
    } else {
        match name_pos(m.drop_last(), name) {
            Some(i) => Some(i),
            None => if m.last().0 == name {
                Some((m.len() - 1) as nat)
            } else {
                None
            },
        }
    }
}

/// `m` after recording a member at `rel` (relative to the listed
/// directory): a direct child replaces any entry of its name, a deeper
/// member makes its first component a directory unless already listed.
pub open spec fn place(m: Seq<FsView>, rel: Seq<char>, dir: bool, size: u64) -> Seq<FsView> {
    let name = first_comp(rel);
    if first_index(rel, '/') is Some {
        match name_pos(m, name) {
            Some(_) => m,
            None => m.push((name, true, 0u64)),
        }
    } else {
        match name_pos(m, name) {
            Some(i) => m.update(i as int, (name, dir, size)),
            None => m.push((name, dir, size)),
        }
    }
}

/// The path of a member relative to the listed directory, if it is in it.
pub open spec fn rel_path(p: Seq<char>, shared: bool, head: Seq<char>) -> Option<Seq<char>> {
    if !shared {
        Some(p)
    } else if p.len() > head.len() && p.take(head.len() as int + 1) == head.push('/') {
        Some(p.skip(head.len() as int + 1))
    } else {
        None
    }
}

/// The children of the listed directory, in first-seen order.
pub open spec fn placed(raw: Seq<FsView>, shared: bool, head: Seq<char>) -> Seq<FsView>
    decreases raw.len(),
{
    if raw.len() == 0 {
        Seq::empty()
    } else {
        let m = placed(raw.drop_last(), shared, head);
        let it = raw.last();
        match rel_path(it.0, shared, head) {
            Some(rel) => place(m, rel, it.1, it.2),
            None => m,
        }
    }
}

/// Directories first, then by lowercased name.
pub open spec fn fs_lt(a: FsView, b: FsView) -> bool {
    (a.1 && !b.1) || (a.1 == b.1 && seq_lt(lowercase(a.0), lowercase(b.0)))
}

pub open spec fn insert_fs(s: Seq<FsView>, x: FsView) -> Seq<FsView>
    decreases s.len(),
{
    if s.len() == 0 || !fs_lt(x, s.last()) {
        s.push(x)
    } else {
        insert_fs(s.drop_last(), x).push(s.last())
    }
}

/// Stable sort: directories first, then by lowercased name.
pub open spec fn sorted_fs(s: Seq<FsView>) -> Seq<FsView>
    decreases s.len(),
{
    if s.len() == 0 {
        s
    } else {
        insert_fs(sorted_fs(s.drop_last()), s.last())
    }
}

/// The listing an archive's members give.
pub open spec fn listing(items: Seq<TarView>) -> Seq<FsView> {
    let raw = raw_members(items);
    if raw.len() == 0 {
        Seq::empty()
    } else {
        sorted_fs(placed(raw, shared_head(raw), raw[0].0))
    }
}

/// Entries compared as the explorer lists them.
pub open spec fn fs_order() -> spec_fn(FsView, FsView) -> bool {
    |a: FsView, b: FsView| fs_lt(a, b)
}

/// A name of one path component, and a directory counts no bytes.
pub open spec fn entry_ok(e: FsView) -> bool {
    &&& forall|k: int| 0 <= k < e.0.len() ==> e.0[k] != '/'
    &&& e.1 ==> e.2 == 0
}

proof fn lemma_sorted_fs_by(s: Seq<FsView>)
    ensures
        sorted_fs(s) == sort_by(s, fs_order()),
    decreases s.len(),
{
    if s.len() > 0 {
        lemma_sorted_fs_by(s.drop_last());
        lemma_insert_fs_by(sorted_fs(s.drop_last()), s.last());
    }
}

proof fn lemma_insert_fs_by(s: Seq<FsView>, x: FsView)
    ensures
        insert_fs(s, x) == ins_by(s, x, fs_order()),
    decreases s.len(),
{
    if s.len() > 0 {
        lemma_insert_fs_by(s.drop_last(), x);
    }
}

proof fn lemma_raw_members_dirs(items: Seq<TarView>)
    ensures
        forall|i: int|
            0 <= i < raw_members(items).len() ==> (#[trigger] raw_members(items)[i]).1
                ==> raw_members(items)[i].2 == 0,
    decreases items.len(),
{
    if items.len() > 0 {
        lemma_raw_members_dirs(items.drop_last());
        let rest = raw_members(items.drop_last());
        let r = raw_members(items);
        assert forall|i: int| 0 <= i < r.len() && (#[trigger] r[i]).1 implies r[i].2 == 0 by {
            if i < rest.len() {
                assert(r[i] == rest[i]);
            }
        }
    }
}

proof fn lemma_name_pos(m: Seq<FsView>, name: Seq<char>)
    ensures
        match name_pos(m, name) {
            Some(i) => i < m.len() && m[i as int].0 == name,
            None => forall|k: int| 0 <= k < m.len() ==> (#[trigger] m[k]).0 != name,
        },
    decreases m.len(),
{
    if m.len() > 0 {
        lemma_name_pos(m.drop_last(), name);
        if name_pos(m.drop_last(), name) is None {
            assert forall|k: int| 0 <= k < m.len() - 1 implies (#[trigger] m[k]).0 != name by {
                assert(m[k] == m.drop_last()[k]);
            }
        }
    }
}

proof fn lemma_first_comp_ok(p: Seq<char>)
    ensures
        forall|k: int| 0 <= k < first_comp(p).len() ==> first_comp(p)[k] != '/',
{
    crate::text::lemma_first_index(p, '/');
}

proof fn lemma_placed_shape(raw: Seq<FsView>, shared: bool, head: Seq<char>)
    requires
        forall|i: int| 0 <= i < raw.len() ==> (#[trigger] raw[i]).1 ==> raw[i].2 == 0,
    ensures
        keys_distinct(placed(raw, shared, head), |x: FsView| x.0),
        forall|i: int|
            0 <= i < placed(raw, shared, head).len() ==> entry_ok(
                #[trigger] placed(raw, shared, head)[i],
            ),
    decreases raw.len(),
{
    if raw.len() > 0 {
        let d = raw.drop_last();
        assert forall|i: int| 0 <= i < d.len() && (#[trigger] d[i]).1 implies d[i].2 == 0 by {
            assert(d[i] == raw[i]);
        }
        lemma_placed_shape(d, shared, head);
        let m = placed(d, shared, head);
        let it = raw.last();
        assert(it.1 ==> it.2 == 0);
        match rel_path(it.0, shared, head) {
            Some(rel) => {
                let name = first_comp(rel);
                lemma_name_pos(m, name);
                lemma_first_comp_ok(rel);
                let r = place(m, rel, it.1, it.2);
                let key = |x: FsView| x.0;
                assert forall|i: int, j: int| 0 <= i < j < r.len() implies key(#[trigger] r[i])
                    != key(#[trigger] r[j]) by {
                    if j < m.len() {
                        assert(key(m[i]) != key(m[j]));
                        if first_index(rel, '/') is None {
                            if let Some(p) = name_pos(m, name) {
                                if i == p as int {
                                    assert(r[i].0 == name && r[j] == m[j]);
                                } else if j == p as int {
                                    assert(r[j].0 == name && r[i] == m[i]);
                                } else {
                                    assert(r[i] == m[i] && r[j] == m[j]);
                                }
                            }
                        }
                    } else {
                        assert(r[j].0 == name && r[i] == m[i]);
                    }
                }
                assert forall|i: int| 0 <= i < r.len() implies entry_ok(#[trigger] r[i]) by {
                    if i < m.len() {
                        assert(entry_ok(m[i]));
                    }
                }
            },
            None => {},
        }
    }
}

/// The listing of any archive names each child once, a name is one path
/// component (no `/`), a directory counts no bytes, and the entries come
/// directories first, each group in case-insensitive name order.
pub proof fn lemma_listing_shape(items: Seq<TarView>)
    ensures
        keys_distinct(listing(items), |x: FsView| x.0),
        forall|i: int| 0 <= i < listing(items).len() ==> entry_ok(#[trigger] listing(items)[i]),
        sorted_by(listing(items), fs_order()),
{
    let raw = raw_members(items);
    if raw.len() > 0 {
        lemma_raw_members_dirs(items);
        let pl = placed(raw, shared_head(raw), raw[0].0);
        lemma_placed_shape(raw, shared_head(raw), raw[0].0);
        lemma_sorted_fs_by(pl);
        lemma_sort_by(pl, fs_order());
        crate::order::lemma_sort_by_distinct(pl, fs_order(), |x: FsView| x.0);
        let r = listing(items);
        assert forall|i: int| 0 <= i < r.len() implies entry_ok(#[trigger] r[i]) by {
            crate::order::lemma_sort_by_from(pl, fs_order(), i);
            let k = choose|k: int| 0 <= k < pl.len() && pl[k] == r[i];
            assert(entry_ok(pl[k]));
        }
        let flag = |x: FsView| x.1;
        let key = |x: FsView| lowercase(x.0);
        crate::order::lemma_flag_text_order(flag, key);
        assert(fs_order() =~= (|a: FsView, b: FsView|
            (flag(a) && !flag(b)) || (flag(a) == flag(b) && seq_lt(key(a), key(b)))));
    }
}

proof fn lemma_insert_fs_at(s: Seq<FsView>, x: FsView, j: int)
    requires
        0 <= j <= s.len(),
        forall|k: int| j <= k < s.len() ==> fs_lt(x, #[trigger] s[k]),
        j == 0 || !fs_lt(x, s[j - 1]),
    ensures
        insert_fs(s, x) == s.take(j).push(x) + s.skip(j),
    decreases s.len(),
{
    if s.len() == 0 {
        assert(s.take(j).push(x) + s.skip(j) =~= seq![x]);
    } else if j == s.len() {
        assert(s.take(j) == s);
        assert(s.skip(j) =~= Seq::<FsView>::empty());
        assert(s.take(j).push(x) + s.skip(j) =~= s.push(x));
    } else {
        assert(fs_lt(x, s[s.len() - 1]));
        lemma_insert_fs_at(s.drop_last(), x, j);
        assert(s.drop_last().take(j) == s.take(j));
        assert((s.take(j).push(x) + s.drop_last().skip(j)).push(s.last()) =~= s.take(j).push(x)
            + s.skip(j));
    }
}

/// Whether an entry sorts before another, given each one's kind and
/// lowercased name: directories first, then by the lowercased names.
pub fn sorts_before(a_dir: bool, a_lower: &str, b_dir: bool, b_lower: &str) -> (r: bool)
    ensures
        r == ((a_dir && !b_dir) || (a_dir == b_dir && seq_lt(a_lower@, b_lower@))),
{
    if a_dir != b_dir {
        return a_dir;
    }
    crate::text::str_lt(a_lower, b_lower)
}

fn fs_before(a: &FsEntry, b: &FsEntry) -> (r: bool)
    ensures
        r == fs_lt(a@, b@),
{
    let la = to_lowercase(a.name.as_str());
    let lb = to_lowercase(b.name.as_str());
    sorts_before(a.dir, la.as_str(), b.dir, lb.as_str())
}

fn sort_entries(list: Vec<FsEntry>) -> (r: Vec<FsEntry>)
    ensures
        fs_views(r@) == sorted_fs(fs_views(list@)),
{
    let ghost orig = list@;
    assert(orig.len() == list.len());
    let mut rest = list;
    let mut out: Vec<FsEntry> = Vec::new();
    let mut i: usize = 0;
    while rest.len() > 0
        invariant
            orig.len() <= usize::MAX,
            i + rest@.len() == orig.len(),
            rest@ == orig.skip(i as int),
            fs_views(out@) == sorted_fs(fs_views(orig.take(i as int))),
        decreases rest@.len(),
    {
        let x = rest.remove(0);
        assert(x == orig[i as int]);
        assert(fs_views(orig.take(i + 1)).drop_last() =~= fs_views(orig.take(i as int)));
        assert(fs_views(orig.take(i + 1)).last() == x@);
        let mut j: usize = out.len();
        while j > 0 && fs_before(&x, &out[j - 1])
            invariant
                j <= out.len(),
                forall|k: int| j <= k < out.len() ==> fs_lt(x@, #[trigger] fs_views(out@)[k]),
            decreases j,
        {
            j -= 1;
        }
        let ghost before = fs_views(out@);
        proof {
            lemma_insert_fs_at(before, x@, j as int);
        }
        out.insert(j, x);
        assert(fs_views(out@) =~= before.take(j as int).push(x@) + before.skip(j as int));
        i += 1;
        assert(rest@ =~= orig.skip(i as int));
    }
    assert(orig.take(orig.len() as int) =~= orig);
    out
}

fn find_name(m: &Vec<FsEntry>, name: &Vec<char>) -> (r: Option<usize>)
    ensures
        match r {
            Some(i) => i < m@.len() && name_pos(fs_views(m@), name@) == Some(i as nat),
            None => name_pos(fs_views(m@), name@) is None,
        },
{
    let mut i: usize = 0;
    while i < m.len()
        invariant
            i <= m@.len(),
            name_pos(fs_views(m@.take(i as int)), name@) is None,
        decreases m@.len() - i,
    {
        assert(fs_views(m@.take(i + 1)).drop_last() =~= fs_views(m@.take(i as int)));
        let n = chars_of(m[i].name.as_str());
        if crate::text::chars_eq(&n, name) {
            assert(name_pos(fs_views(m@.take(i + 1)), name@) == Some(i as nat));
            proof {
                lemma_name_pos_prefix(fs_views(m@), name@, i + 1);
            }
            assert(fs_views(m@.take(i + 1)) =~= fs_views(m@).take(i + 1));
            return Some(i);
        }
        i += 1;
    }
    assert(m@.take(m@.len() as int) =~= m@);
    None
}

/// A name found in a prefix is found at the same place in the whole.
proof fn lemma_name_pos_prefix(m: Seq<FsView>, name: Seq<char>, k: int)
    requires
        0 <= k <= m.len(),
        name_pos(m.take(k), name) is Some,
    ensures
        name_pos(m, name) == name_pos(m.take(k), name),
    decreases m.len() - k,
{
    if k < m.len() {
        assert(m.take(k + 1).drop_last() =~= m.take(k));
        lemma_name_pos_prefix(m, name, k + 1);
    } else {
        assert(m.take(k) =~= m);
    }
}

fn place_exec(m: &mut Vec<FsEntry>, rel: &Vec<char>, dir: bool, size: u64)
    ensures
        fs_views(final(m)@) == place(fs_views(old(m)@), rel@, dir, size),
{
    proof {
        crate::text::lemma_first_index(rel@, '/');
    }
    let name = first_comp_exec(rel);
    let nested = first_pos(rel, '/').is_some();
    let ghost before = m@;
    match find_name(m, &name) {
        Some(i) => {
            if !nested {
                let e = FsEntry { name: string_of(&name), dir, size };
                m.set(i, e);
                assert(fs_views(m@) =~= fs_views(before).update(i as int, (name@, dir, size)));
            }
        },
        None => {
            let e = FsEntry {
                name: string_of(&name),
                dir: if nested {
                    true
                } else {
                    dir
                },
                size: if nested {
                    0
                } else {
                    size
                },
            };
            m.push(e);
            assert(fs_views(m@) =~= fs_views(before).push(e@));
        },
    }
}

/// The (path, is a directory, size) views of kept members.
pub open spec fn raw_view(s: Seq<(Vec<char>, bool, u64)>) -> Seq<FsView> {
    s.map_values(|r: (Vec<char>, bool, u64)| (r.0@, r.1, r.2))
}

/// The views of an archive's members.
pub open spec fn items_view(items: Seq<TarItem>) -> Seq<TarView> {
    items.map_values(|t: TarItem| (t.path@, t.kind, t.size))
}

/// The direct children of the listed directory, from the archive's
/// members (see `listing`).
pub fn listing_of(items: Vec<TarItem>) -> (r: Vec<FsEntry>)
    ensures
        fs_views(r@) == listing(items_view(items@)),
{
    let ghost iv = items_view(items@);
    let mut raw: Vec<(Vec<char>, bool, u64)> = Vec::new();
    let mut i: usize = 0;
    while i < items.len()
        invariant
            i <= items@.len(),
            iv == items_view(items@),
            raw_view(raw@) == raw_members(iv.take(i as int)),
        decreases items@.len() - i,
    {
        assert(iv.take(i + 1).drop_last() =~= iv.take(i as int));
        assert(iv.take(i + 1).last() == iv[i as int]);
        let it = &items[i];
        let p = clean_path_exec(&chars_of(it.path.as_str()));
        let keep = match it.kind {
            TarKind::Regular => true,
            TarKind::Directory => true,
            TarKind::Other => false,
        };
        if keep && p.len() > 0 {
            let is_dir = match it.kind {
                TarKind::Directory => true,
                _ => false,
            };
            let sz: u64 = if is_dir {
                0
            } else {
                it.size
            };
            let ghost before = raw_view(raw@);
            let ghost pv = p@;
            raw.push((p, is_dir, sz));
            assert(raw_view(raw@) =~= before.push((pv, is_dir, sz)));
        }
        i += 1;
    }
    assert(iv.take(items@.len() as int) =~= iv);
    let ghost rv = raw_view(raw@);
    if raw.len() == 0 {
        return Vec::new();
    }
    let head = slice_chars(&raw[0].0, 0, raw[0].0.len());
    assert(head@ =~= rv[0].0);
    let mut all = true;
    let mut k: usize = 0;
    while k < raw.len()
        invariant
            k <= raw@.len(),
            rv == raw_view(raw@),
            rv.len() > 0,
            head@ == rv[0].0,
            all <==> forall|j: int| 0 <= j < k ==> first_comp(#[trigger] rv[j].0) == rv[0].0,
        decreases raw@.len() - k,
    {
        let fc = first_comp_exec(&raw[k].0);
        assert(raw@[k as int].0@ == rv[k as int].0);
        if !crate::text::chars_eq(&fc, &head) {
            all = false;
        }
        k += 1;
    }
    let head_first = first_comp_exec(&head);
    let shared = raw.len() > 1 && crate::text::chars_eq(&head, &head_first) && all;
    assert(shared == shared_head(rv));
    let mut prefix = slice_chars(&head, 0, head.len());
    prefix.push('/');
    assert(prefix@ =~= rv[0].0.push('/'));
    let mut m: Vec<FsEntry> = Vec::new();
    let mut j: usize = 0;
    while j < raw.len()
        invariant
            j <= raw@.len(),
            rv == raw_view(raw@),
            rv.len() > 0,
            head@ == rv[0].0,
            prefix@ == rv[0].0.push('/'),
            fs_views(m@) == placed(rv.take(j as int), shared, rv[0].0),
        decreases raw@.len() - j,
    {
        assert(rv.take(j + 1).drop_last() =~= rv.take(j as int));
        assert(rv.take(j + 1).last() == rv[j as int]);
        let path = &raw[j].0;
        let rel: Option<Vec<char>> = if !shared {
            Some(slice_chars(path, 0, path.len()))
        } else if path.len() > head.len() && crate::text::starts_with_chars(path, &prefix) {
            Some(slice_chars(path, head.len() + 1, path.len()))
        } else {
            None
        };
        proof {
            if !shared {
                assert(path@.subrange(0, path@.len() as int) =~= path@);
            } else if path@.len() > head@.len() {
                assert(path@.subrange(head@.len() as int + 1, path@.len() as int) =~= path@.skip(
                    head@.len() as int + 1,
                ));
            }
        }
        match rel {
            Some(rel) => place_exec(&mut m, &rel, raw[j].1, raw[j].2),
            None => {},
        }
        j += 1;
    }
    assert(rv.take(raw@.len() as int) =~= rv);
    sort_entries(m)
}

/// Parse the archive the daemon returns for a directory into that
/// directory's direct children. The daemon prefixes members with the
/// archived directory's name (`etc/`, `etc/hostname`); when the archive
/// root is `/` the members are top-level names with their contents nested
/// below them. Both shapes are handled by detecting a shared first
/// component that is also a member of its own.
pub fn parse_tar_listing(data: &[u8]) -> (r: Result<Vec<FsEntry>, String>)
    ensures
        match tar_read(data@) {
            Ok(items) => r is Ok && fs_views(r->Ok_0@) == listing(items),
            Err(e) => r is Err && r->Err_0@ == e,
        },
        data@.len() == 0 ==> r is Ok && r->Ok_0@.len() == 0,
{
    match read_tar(data) {
        Ok(items) => Ok(listing_of(items)),
        Err(e) => Err(e),
    }
}

// ---------------------------------------------------------------- demo listing

/// The fixed listing demo mode shows for a directory.
pub open spec fn mock_dir(path: Seq<char>) -> Seq<FsView> {
    if path == "/"@ {
        seq![
            ("bin"@, true, 0u64),
            ("etc"@, true, 0u64),
            ("home"@, true, 0u64),
            ("usr"@, true, 0u64),
            ("var"@, true, 0u64),
            (".dockerenv"@, false, 0u64),
        ]
    } else if path == "/bin"@ {
        seq![("sh"@, false, 758144u64), ("busybox"@, false, 1138112u64)]
    } else if path == "/etc"@ {
        seq![
            ("hostname"@, false, 13u64),
            ("hosts"@, false, 174u64),
            ("resolv.conf"@, false, 92u64),
            ("ssl"@, true, 0u64),
        ]
    } else if path == "/home"@ {
        seq![("stephen"@, true, 0u64)]
    } else if path == "/usr"@ {
        seq![("bin"@, true, 0u64), ("lib"@, true, 0u64), ("share"@, true, 0u64)]
    } else if path == "/var"@ {
        seq![("log"@, true, 0u64), ("tmp"@, true, 0u64)]
    } else {
        Seq::empty()
    }
}

fn push_entry(v: &mut Vec<FsEntry>, name: &str, dir: bool, size: u64)
    ensures
        fs_views(final(v)@) == fs_views(old(v)@).push((name@, dir, size)),
{
    let e = FsEntry { name: owned(name), dir, size };
    v.push(e);
    assert(fs_views(v@) =~= fs_views(old(v)@).push((name@, dir, size)));
}

/// Deterministic fake filesystem for demo mode.
pub fn mock_listing(path: &str) -> (r: Vec<FsEntry>)
    ensures
        fs_views(r@) == mock_dir(path@),
{
    let mut v: Vec<FsEntry> = Vec::new();
    assert(fs_views(v@) =~= Seq::<FsView>::empty());
    if crate::text::eq_str(path, "/") {
        push_entry(&mut v, "bin", true, 0);
        push_entry(&mut v, "etc", true, 0);
        push_entry(&mut v, "home", true, 0);
        push_entry(&mut v, "usr", true, 0);
        push_entry(&mut v, "var", true, 0);
        push_entry(&mut v, ".dockerenv", false, 0);
    } else if crate::text::eq_str(path, "/bin") {
        push_entry(&mut v, "sh", false, 758144);
        push_entry(&mut v, "busybox", false, 1138112);
    } else if crate::text::eq_str(path, "/etc") {
        push_entry(&mut v, "hostname", false, 13);
        push_entry(&mut v, "hosts", false, 174);
        push_entry(&mut v, "resolv.conf", false, 92);
        push_entry(&mut v, "ssl", true, 0);
    } else if crate::text::eq_str(path, "/home") {
        push_entry(&mut v, "stephen", true, 0);
    } else if crate::text::eq_str(path, "/usr") {
        push_entry(&mut v, "bin", true, 0);
        push_entry(&mut v, "lib", true, 0);
        push_entry(&mut v, "share", true, 0);
    } else if crate::text::eq_str(path, "/var") {
        push_entry(&mut v, "log", true, 0);
        push_entry(&mut v, "tmp", true, 0);
    }
    v
}

// ---------------------------------------------------------------- navigation

/// Parent directory of an explorer path: "/" -> "/", "/etc" -> "/",
/// "/etc/ssl" -> "/etc" (one trailing slash tolerated).
pub open spec fn parent_of(p: Seq<char>) -> Seq<char> {
    let t = if p.len() > 0 && p.last() == '/' {
        p.drop_last()
    } else {
        p
    };
    match last_index(t, '/') {
        Some(i) => if i == 0 {
            "/"@
        } else {
            t.take(i as int)
        },
        None => "/"@,
    }
}

pub fn parent_path(p: &str) -> (r: String)
    ensures
        r@ == parent_of(p@),
{
    let v = chars_of(p);
    let t = if v.len() > 0 && v[v.len() - 1] == '/' {
        slice_chars(&v, 0, v.len() - 1)
    } else {
        slice_chars(&v, 0, v.len())
    };
    assert(t@ =~= (if v@.len() > 0 && v@.last() == '/' {
        v@.drop_last()
    } else {
        v@
    }));
    proof {
        crate::text::lemma_last_index(t@, '/');
    }
    match last_pos(&t, '/') {
        Some(i) => if i == 0 {
            owned("/")
        } else {
            let h = slice_chars(&t, 0, i);
            string_of(&h)
        },
        None => owned("/"),
    }
}

/// The path of child `name` of directory `dir`.
pub open spec fn child_of(dir: Seq<char>, name: Seq<char>) -> Seq<char> {
    if dir == "/"@ {
        "/"@ + name
    } else {
        dir + "/"@ + name
    }
}

/// Going into subdirectory `name` and back up returns to `dir` (an
/// absolute path without a trailing slash, or the root).
pub proof fn lemma_parent_of_child(dir: Seq<char>, name: Seq<char>)
    requires
        name.len() > 0,
        forall|k: int| 0 <= k < name.len() ==> name[k] != '/',
        dir == "/"@ || (dir.len() > 1 && dir[0] == '/' && dir.last() != '/'),
    ensures
        parent_of(child_of(dir, name)) == dir,
{
    reveal_strlit("/");
    let c = child_of(dir, name);
    let p: int = if dir == "/"@ {
        0
    } else {
        dir.len() as int
    };
    assert(c.len() == p + 1 + name.len());
    assert(c[p] == '/');
    assert forall|k: int| p < k < c.len() implies c[k] != '/' by {
        assert(c[k] == name[k - p - 1]);
    }
    assert(c.last() != '/');
    crate::text::lemma_last_index(c, '/');
    match crate::text::last_index(c, '/') {
        Some(i) => {
            if (i as int) < p {
                assert(c[p] != '/');
            }
            assert(i as int == p);
            if p > 0 {
                assert(c.take(p) =~= dir);
            }
        },
        None => {
            assert(c[p] != '/');
        },
    }
}

pub fn child_path(dir: &str, name: &str) -> (r: String)
    ensures
        r@ == child_of(dir@, name@),
{
    if crate::text::eq_str(dir, "/") {
        crate::text::concat2("/", name)
    } else {
        concat3(dir, "/", name)
    }
}

} // verus!
