//! Container actions awaiting confirmation, the single-line text input,
//! the edit-and-recreate form and the env-var editor.
use vstd::prelude::*;

use crate::model::{char_utf8_len, utf8_len};
use crate::ops::{opt_strs, GpuRequest, HostSpec, RecreateRequest};
use crate::util::strs;
use crate::text::{
    boundary_at, byte_len, char_index, char_index_of, chars_of, concat3, lemma_boundary_at,
    lemma_byte_len_concat, lemma_byte_len_single, lemma_byte_len_split, lemma_byte_len_take_mono,
    lemma_byte_len_take_succ, lemma_char_index, lemma_char_index_exact, on_boundary, owned,
    prefix_byte_len, string_of,
};

verus! {

#[derive(Clone, Copy, PartialEq, Eq, Structural)]
pub enum ContainerAction {
    Start,
    Stop,
    Restart,
    Remove,
}

/// The verb naming an action.
pub open spec fn action_word(a: ContainerAction) -> Seq<char> {
    match a {
        ContainerAction::Start => "start"@,
        ContainerAction::Stop => "stop"@,
        ContainerAction::Restart => "restart"@,
        ContainerAction::Remove => "remove"@,
    }
}

impl ContainerAction {
    pub fn label(&self) -> (r: &'static str)
        ensures
            r@ == action_word(*self),
    {
        match self {
            ContainerAction::Start => "start",
            ContainerAction::Stop => "stop",
            ContainerAction::Restart => "restart",
            ContainerAction::Remove => "remove",
        }
    }
}

/// An action awaiting confirmation or execution.
pub enum PendingAction {
    Container { id: String, name: String, action: ContainerAction },
    Recreate(Box<RecreateRequest>),
}

/// The name a recreate gives the new container, as the prompt shows it.
pub open spec fn new_name_text(req: RecreateRequest) -> Seq<char> {
    match req.spec.name {
        Some(n) => n@,
        None => "(unnamed)"@,
    }
}

/// The confirmation text for an action.
pub open spec fn describe_text(p: PendingAction) -> Seq<char> {
    match p {
        PendingAction::Container { name, action, .. } => action_word(action) + " container \""@
            + name@ + "\""@,
        PendingAction::Recreate(req) => if req.old_name@ == new_name_text(*req) {
            "recreate \""@ + req.old_name@ + "\" with changes"@
        } else {
            "recreate \""@ + req.old_name@ + "\" as \""@ + new_name_text(*req) + "\""@
        },
    }
}

impl PendingAction {
    pub fn describe(&self) -> (r: String)
        ensures
            r@ == describe_text(*self),
    {
        match self {
            PendingAction::Container { name, action, .. } => {
                let mut s = concat3(action.label(), " container \"", name.as_str());
                crate::text::push_str(&mut s, "\"");
                s
            },
            PendingAction::Recreate(req) => {
                let old = req.old_name.as_str();
                let new: &str = match &req.spec.name {
                    Some(n) => n.as_str(),
                    None => "(unnamed)",
                };
                if crate::text::eq_str(old, new) {
                    concat3("recreate \"", old, "\" with changes")
                } else {
                    let mut s = concat3("recreate \"", old, "\" as \"");
                    crate::text::push_str(&mut s, new);
                    crate::text::push_str(&mut s, "\"");
                    s
                }
            },
        }
    }
}

// ---------------------------------------------------------------- gpu choices

/// The GPU choices of the edit form, in cycling order.
pub const GPU_OPTIONS: [&'static str; 5] = ["none", "all", "1", "2", "3"];

/// The text of GPU choice `i`.
pub open spec fn gpu_option(i: int) -> Seq<char> {
    if i == 0 {
        "none"@
    } else if i == 1 {
        "all"@
    } else if i == 2 {
        "1"@
    } else if i == 3 {
        "2"@
    } else {
        "3"@
    }
}

/// GPU choice `i` as text.
pub fn gpu_option_text(i: usize) -> (r: &'static str)
    requires
        i < 5,
    ensures
        r@ == gpu_option(i as int),
{
    if i == 0 {
        "none"
    } else if i == 1 {
        "all"
    } else if i == 2 {
        "1"
    } else if i == 3 {
        "2"
    } else {
        "3"
    }
}

// ---------------------------------------------------------------- text input

/// A single-line text input; `cursor` is a byte offset into `value`.
pub struct TextInput {
    pub value: String,
    pub cursor: usize,
}

impl View for TextInput {
    type V = (Seq<char>, int);

    open spec fn view(&self) -> (Seq<char>, int) {
        (self.value@, self.cursor as int)
    }
}

impl Clone for TextInput {
    fn clone(&self) -> (r: Self)
        ensures
            r@ == self@,
    {
        TextInput { value: self.value.clone(), cursor: self.cursor }
    }
}

impl Default for TextInput {
    fn default() -> (r: Self)
        ensures
            r@ == (Seq::<char>::empty(), 0int),
    {
        TextInput { value: String::new(), cursor: 0 }
    }
}

/// Byte counts of `v`, and of one more character, fit in a `usize`.
pub open spec fn text_fits(v: Seq<char>) -> bool {
    byte_len(v) + 4 <= usize::MAX
}

/// The byte offset at which a typed character goes: the cursor, or the end
/// when the cursor lies past it.
pub open spec fn insert_at(t: (Seq<char>, int)) -> int {
    if t.1 > byte_len(t.0) {
        byte_len(t.0)
    } else {
        t.1
    }
}

/// Typing `ch`: it goes in at the cursor, which moves past it.
pub open spec fn typed(t: (Seq<char>, int), ch: char) -> (Seq<char>, int) {
    let c = insert_at(t);
    let k = char_index(t.0, c) as int;
    (t.0.take(k).push(ch) + t.0.skip(k), c + utf8_len(ch))
}

/// Backspace: the character before the cursor goes, the cursor moves to
/// where it started.
pub open spec fn erased_back(t: (Seq<char>, int)) -> (Seq<char>, int) {
    if t.1 == 0 {
        t
    } else {
        let k = char_index(t.0, t.1 - 1) as int;
        (t.0.take(k) + t.0.skip(char_index(t.0, t.1) as int), byte_len(t.0.take(k)))
    }
}

/// Delete: the character at the cursor goes, the cursor stays.
pub open spec fn erased_fwd(t: (Seq<char>, int)) -> (Seq<char>, int) {
    if t.1 >= byte_len(t.0) {
        t
    } else {
        let k = char_index(t.0, t.1) as int;
        (t.0.take(k) + t.0.skip(k + 1), t.1)
    }
}

/// Left: the cursor moves to the boundary before it.
pub open spec fn moved_left(t: (Seq<char>, int)) -> (Seq<char>, int) {
    (
        t.0,
        boundary_at(
            t.0,
            if t.1 > 0 {
                t.1 - 1
            } else {
                0
            },
        ),
    )
}

/// Right: the cursor moves to the next character start, or the end.
pub open spec fn moved_right(t: (Seq<char>, int)) -> (Seq<char>, int) {
    if t.1 < byte_len(t.0) {
        (t.0, byte_len(t.0.take(char_index(t.0, t.1) as int + 1)))
    } else {
        t
    }
}

/// The characters of `v` from `from` on, with `v`'s first `from` and
/// `mid` before them: `v[..from] + mid + v[to..]`.
fn spliced(v: &Vec<char>, from: usize, mid: &Vec<char>, to: usize) -> (r: Vec<char>)
    requires
        from <= to <= v@.len(),
    ensures
        r@ == v@.take(from as int) + mid@ + v@.skip(to as int),
{
    let mut r: Vec<char> = Vec::new();
    let mut i: usize = 0;
    while i < from
        invariant
            i <= from <= v@.len(),
            r@ == v@.take(i as int),
        decreases from - i,
    {
        r.push(v[i]);
        i += 1;
        assert(r@ =~= v@.take(i as int));
    }
    let mut j: usize = 0;
    while j < mid.len()
        invariant
            j <= mid@.len(),
            r@ == v@.take(from as int) + mid@.take(j as int),
        decreases mid@.len() - j,
    {
        r.push(mid[j]);
        j += 1;
        assert(r@ =~= v@.take(from as int) + mid@.take(j as int));
    }
    let mut k: usize = to;
    while k < v.len()
        invariant
            to <= k <= v@.len(),
            r@ == v@.take(from as int) + mid@ + v@.subrange(to as int, k as int),
        decreases v@.len() - k,
    {
        r.push(v[k]);
        k += 1;
        assert(r@ =~= v@.take(from as int) + mid@ + v@.subrange(to as int, k as int));
    }
    assert(v@.subrange(to as int, v@.len() as int) =~= v@.skip(to as int));
    assert(mid@.take(mid@.len() as int) =~= mid@);
    r
}

/// Bytes of `s` are at most four per character.
proof fn lemma_byte_len_bound(s: Seq<char>)
    ensures
        byte_len(s) <= 4 * s.len(),
    decreases s.len(),
{
    if s.len() > 0 {
        lemma_byte_len_bound(s.drop_first());
    }
}

/// The byte length of `s`, when it and one more character fit in a `usize`.
fn fitting_len(s: &str) -> (r: Option<usize>)
    ensures
        match r {
            Some(n) => text_fits(s@) && n == byte_len(s@),
            None => !text_fits(s@),
        },
{
    let v = chars_of(s);
    let mut total: u128 = 0;
    let mut i: usize = 0;
    assert(v@.take(0) =~= Seq::<char>::empty());
    while i < v.len()
        invariant
            i <= v@.len(),
            total == byte_len(v@.take(i as int)),
            total <= 4 * i,
        decreases v@.len() - i,
    {
        proof {
            lemma_byte_len_take_succ(v@, i as int);
        }
        total = total + char_utf8_len(v[i]) as u128;
        i += 1;
    }
    assert(v@.take(v@.len() as int) =~= v@);
    if total + 4 <= usize::MAX as u128 {
        Some(total as usize)
    } else {
        None
    }
}

impl TextInput {
    /// The cursor sits on a character boundary of the value.
    pub open spec fn wf(&self) -> bool {
        on_boundary(self.value@, self.cursor as int)
    }

    /// An input holding `value`, the cursor at its end.
    pub fn new(value: String) -> (r: Self)
        ensures
            r.value == value,
            text_fits(value@) ==> r.cursor == byte_len(value@),
            r.wf(),
    {
        let cursor = match fitting_len(value.as_str()) {
            Some(n) => n,
            None => 0,
        };
        proof {
            assert(value@.take(0) =~= Seq::<char>::empty());
            lemma_char_index_exact(value@, 0);
            assert(value@.take(value@.len() as int) =~= value@);
            lemma_char_index_exact(value@, value@.len() as int);
        }
        TextInput { value, cursor }
    }

    /// The last character boundary at or before byte `i`.
    fn boundary(&self, i: usize) -> (r: usize)
        requires
            text_fits(self.value@),
        ensures
            r == boundary_at(self.value@, i as int),
    {
        let v = chars_of(self.value.as_str());
        let k = char_index_of(&v, i);
        proof {
            lemma_char_index(v@, i as int);
        }
        prefix_byte_len(&v, k)
    }

    pub fn insert(&mut self, ch: char)
        requires
            on_boundary(old(self).value@, insert_at(old(self)@)),
        ensures
            final(self)@ == if text_fits(old(self).value@) {
                typed(old(self)@, ch)
            } else {
                old(self)@
            },
    {
        let len = match fitting_len(self.value.as_str()) {
            Some(n) => n,
            None => return ,
        };
        let v = chars_of(self.value.as_str());
        if self.cursor > len {
            self.cursor = len;
        }
        let k = char_index_of(&v, self.cursor);
        proof {
            lemma_char_index(v@, self.cursor as int);
        }
        let mut mid: Vec<char> = Vec::new();
        mid.push(ch);
        let nv = spliced(&v, k, &mid, k);
        assert(nv@ =~= v@.take(k as int).push(ch) + v@.skip(k as int));
        self.value = string_of(&nv);
        proof {
            lemma_boundary_at(v@, self.cursor as int);
        }
        self.cursor = self.cursor + char_utf8_len(ch);
    }

    pub fn backspace(&mut self)
        requires
            old(self).cursor == 0 || on_boundary(old(self).value@, old(self).cursor as int),
        ensures
            final(self)@ == if text_fits(old(self).value@) {
                erased_back(old(self)@)
            } else {
                old(self)@
            },
    {
        if self.cursor == 0 {
            return;
        }
        if fitting_len(self.value.as_str()).is_none() {
            return;
        }
        let v = chars_of(self.value.as_str());
        let k = char_index_of(&v, self.cursor - 1);
        let j = char_index_of(&v, self.cursor);
        proof {
            lemma_char_index(v@, self.cursor - 1);
            lemma_char_index(v@, self.cursor as int);
            if k > j {
                lemma_byte_len_take_mono(v@, j as int, k as int);
            }
        }
        let prev = prefix_byte_len(&v, k);
        let mid: Vec<char> = Vec::new();
        let nv = spliced(&v, k, &mid, j);
        assert(nv@ =~= v@.take(k as int) + v@.skip(j as int));
        self.value = string_of(&nv);
        self.cursor = prev;
    }

    pub fn delete(&mut self)
        requires
            old(self).cursor >= byte_len(old(self).value@) || on_boundary(
                old(self).value@,
                old(self).cursor as int,
            ),
        ensures
            final(self)@ == if text_fits(old(self).value@) {
                erased_fwd(old(self)@)
            } else {
                old(self)@
            },
    {
        let len = match fitting_len(self.value.as_str()) {
            Some(n) => n,
            None => return ,
        };
        if self.cursor >= len {
            return;
        }
        let v = chars_of(self.value.as_str());
        let k = char_index_of(&v, self.cursor);
        proof {
            lemma_char_index(v@, self.cursor as int);
            assert(v@.take(v@.len() as int) =~= v@);
            if k >= v@.len() {
                assert(v@.take(k as int) =~= v@);
            }
            assert(k < v@.len());
            assert(k < v.len());
        }
        let mid: Vec<char> = Vec::new();
        let nv = spliced(&v, k, &mid, k + 1);
        assert(nv@ =~= v@.take(k as int) + v@.skip(k + 1));
        self.value = string_of(&nv);
    }

    pub fn left(&mut self)
        ensures
            final(self)@ == if text_fits(old(self).value@) {
                moved_left(old(self)@)
            } else {
                old(self)@
            },
    {
        if fitting_len(self.value.as_str()).is_none() {
            return;
        }
        let i = if self.cursor > 0 {
            self.cursor - 1
        } else {
            0
        };
        self.cursor = self.boundary(i);
    }

    pub fn right(&mut self)
        ensures
            final(self)@ == if text_fits(old(self).value@) {
                moved_right(old(self)@)
            } else {
                old(self)@
            },
    {
        let len = match fitting_len(self.value.as_str()) {
            Some(n) => n,
            None => return ,
        };
        if self.cursor < len {
            let v = chars_of(self.value.as_str());
            let k = char_index_of(&v, self.cursor);
            proof {
                lemma_char_index(v@, self.cursor as int);
                assert(v@.take(v@.len() as int) =~= v@);
                if k >= v@.len() {
                    assert(v@.take(k as int) =~= v@);
                }
                assert(k < v@.len());
                assert(k < v.len());
            }
            self.cursor = prefix_byte_len(&v, k + 1);
        }
    }

    pub fn home(&mut self)
        ensures
            final(self)@ == (old(self)@.0, 0int),
    {
        self.cursor = 0;
    }

    pub fn end(&mut self)
        ensures
            final(self)@ == if text_fits(old(self).value@) {
                (old(self)@.0, byte_len(old(self)@.0))
            } else {
                old(self)@
            },
    {
        match fitting_len(self.value.as_str()) {
            Some(n) => self.cursor = n,
            None => {},
        }
    }

    /// Empties the input (Ctrl-U).
    pub fn clear(&mut self)
        ensures
            final(self)@ == (Seq::<char>::empty(), 0int),
            final(self).wf(),
    {
        self.value = String::new();
        self.cursor = 0;
        proof {
            lemma_char_index_exact(Seq::<char>::empty(), 0);
        }
    }
}

/// Backspace right after typing a character removes it again and puts the
/// cursor back where the character went in.
pub proof fn lemma_backspace_undoes_typing(t: (Seq<char>, int), ch: char)
    requires
        on_boundary(t.0, insert_at(t)),
    ensures
        erased_back(typed(t, ch)) == (t.0, insert_at(t)),
{
    let c = insert_at(t);
    let k = char_index(t.0, c) as int;
    lemma_char_index(t.0, c);
    let nv = t.0.take(k).push(ch) + t.0.skip(k);
    let nt = typed(t, ch);
    assert(nt.0 == nv);
    assert(nv.take(k + 1) =~= t.0.take(k).push(ch));
    assert(nv.take(k) =~= t.0.take(k));
    assert(byte_len(t.0.take(k)) == c);
    lemma_byte_len_take_succ(nv, k);
    lemma_char_index_exact(nv, k + 1);
    lemma_char_index_exact(nv, k);
    assert(utf8_len(ch) >= 1);
    if utf8_len(ch) > 1 {
        lemma_char_index(nv, nt.1 - 1);
        let ci = char_index(nv, nt.1 - 1) as int;
        if ci < k {
            lemma_byte_len_take_mono(nv, ci + 1, k);
        } else if ci > k {
            lemma_byte_len_take_mono(nv, k + 1, ci);
        }
    }
    assert(char_index(nv, nt.1 - 1) == k);
    assert(nv.skip(k + 1) =~= t.0.skip(k));
    assert(nv.take(k) + nv.skip(k + 1) =~= t.0);
}

/// Moving right from a character start and then left again puts the
/// cursor back where it was.
pub proof fn lemma_left_undoes_right(t: (Seq<char>, int))
    requires
        on_boundary(t.0, t.1),
        t.1 < byte_len(t.0),
    ensures
        moved_left(moved_right(t)) == t,
{
    let s = t.0;
    lemma_char_index(s, t.1);
    let j = char_index(s, t.1) as int;
    if j >= s.len() {
        assert(s.take(j) =~= s);
    }
    assert(j < s.len());
    lemma_byte_len_take_succ(s, j);
    assert(utf8_len(s[j]) >= 1);
    let r = byte_len(s.take(j + 1));
    assert(moved_right(t) == (s, r));
    lemma_char_index(s, r - 1);
    let ci = char_index(s, r - 1) as int;
    if ci > j {
        lemma_byte_len_take_mono(s, j + 1, ci);
    } else if ci < j {
        lemma_byte_len_take_mono(s, ci + 1, j);
    }
    assert(ci == j);
}

/// Every edit leaves the cursor on a character boundary.
pub proof fn lemma_edits_keep_boundary(t: (Seq<char>, int), ch: char)
    requires
        t.1 >= 0,
        on_boundary(t.0, insert_at(t)),
    ensures
        on_boundary(typed(t, ch).0, typed(t, ch).1),
        on_boundary(moved_left(t).0, moved_left(t).1),
        t.1 < byte_len(t.0) ==> on_boundary(moved_right(t).0, moved_right(t).1),
        on_boundary(t.0, 0),
        on_boundary(t.0, byte_len(t.0)),
{
    let c = insert_at(t);
    let k = char_index(t.0, c) as int;
    lemma_char_index(t.0, c);
    let nv = t.0.take(k).push(ch) + t.0.skip(k);
    assert(nv.take(k + 1) =~= t.0.take(k).push(ch));
    assert(nv.take(k) =~= t.0.take(k));
    lemma_byte_len_take_succ(nv, k);
    lemma_char_index_exact(nv, k + 1);
    lemma_boundary_at(
        t.0,
        if t.1 > 0 {
            t.1 - 1
        } else {
            0
        },
    );
    lemma_char_index_exact(t.0, 0);
    assert(t.0.take(0) =~= Seq::<char>::empty());
    lemma_char_index_exact(t.0, t.0.len() as int);
    assert(t.0.take(t.0.len() as int) =~= t.0);
    if t.1 < byte_len(t.0) {
        lemma_char_index(t.0, t.1);
        let j = char_index(t.0, t.1) as int;
        if j >= t.0.len() {
            assert(t.0.take(j) =~= t.0);
        }
        lemma_char_index_exact(t.0, j + 1);
    }
}


/// Backspace and delete leave the cursor on a character boundary.
pub proof fn lemma_erasing_keeps_boundary(t: (Seq<char>, int))
    requires
        t.1 >= 0,
        on_boundary(t.0, t.1),
    ensures
        on_boundary(erased_back(t).0, erased_back(t).1),
        on_boundary(erased_fwd(t).0, erased_fwd(t).1),
{
    let v = t.0;
    let c = t.1;
    lemma_char_index(v, c);
    let j = char_index(v, c) as int;
    if c > 0 {
        lemma_char_index(v, c - 1);
        let k = char_index(v, c - 1) as int;
        if k > j {
            lemma_byte_len_take_mono(v, j, k);
        }
        let nv = v.take(k) + v.skip(j);
        assert(nv.take(k) =~= v.take(k));
        lemma_char_index_exact(nv, k);
    }
    if c < byte_len(v) {
        if j >= v.len() {
            assert(v.take(j) =~= v);
        }
        let nv = v.take(j) + v.skip(j + 1);
        assert(nv.take(j) =~= v.take(j));
        lemma_char_index_exact(nv, j);
    }
}

// ---------------------------------------------------------------- form fields

pub enum FormValue {
    Text(TextInput),
    Toggle(bool),
    Choice(usize),
}

pub struct FormField {
    pub label: &'static str,
    pub value: FormValue,
}

/// What a field shows: its text, on/off, or the chosen GPU option.
pub open spec fn field_text(f: FormField) -> Seq<char> {
    match f.value {
        FormValue::Text(t) => t.value@,
        FormValue::Toggle(b) => if b {
            "on"@
        } else {
            "off"@
        },
        FormValue::Choice(i) => gpu_option(i as int),
    }
}

/// The value a field holds after space: toggles flip, choices advance
/// (wrapping), text stays.
pub open spec fn cycled(v: FormValue) -> FormValue {
    match v {
        FormValue::Toggle(b) => FormValue::Toggle(!b),
        FormValue::Choice(i) => FormValue::Choice(((i + 1) % 5) as usize),
        FormValue::Text(t) => FormValue::Text(t),
    }
}

impl FormField {
    pub fn display(&self) -> (r: String)
        requires
            self.value matches FormValue::Choice(i) ==> i < 5,
        ensures
            r@ == field_text(*self),
    {
        match &self.value {
            FormValue::Text(t) => t.value.clone(),
            FormValue::Toggle(b) => owned(
                if *b {
                    "on"
                } else {
                    "off"
                },
            ),
            FormValue::Choice(i) => owned(gpu_option_text(*i)),
        }
    }

    pub fn cycle(&mut self)
        requires
            old(self).value matches FormValue::Choice(i) ==> i < usize::MAX,
        ensures
            final(self).label == old(self).label,
            final(self).value == cycled(old(self).value),
    {
        match &mut self.value {
            FormValue::Toggle(b) => *b = !*b,
            FormValue::Choice(i) => *i = (*i + 1) % 5,
            FormValue::Text(_) => {},
        }
    }
}

/// Index of the first field labelled `label`.
pub open spec fn field_pos(fields: Seq<FormField>, label: Seq<char>) -> Option<int>
    decreases fields.len(),
{
    if fields.len() == 0 {
        None
    } else if fields[0].label@ == label {
        Some(0)
    } else {
        match field_pos(fields.drop_first(), label) {
            Some(i) => Some(i + 1),
            None => None,
        }
    }
}

pub proof fn lemma_field_pos(fields: Seq<FormField>, label: Seq<char>)
    ensures
        match field_pos(fields, label) {
            Some(i) => 0 <= i < fields.len() && fields[i].label@ == label && forall|j: int|
                0 <= j < i ==> (#[trigger] fields[j]).label@ != label,
            None => forall|j: int| 0 <= j < fields.len() ==> (#[trigger] fields[j]).label@ != label,
        },
    decreases fields.len(),
{
    if fields.len() > 0 {
        lemma_field_pos(fields.drop_first(), label);
        assert forall|j: int| 1 <= j < fields.len() implies fields[j] == fields.drop_first()[j
            - 1] by {}
    }
}

/// The text of the field labelled `label`; empty when it is missing or
/// not a text field.
pub open spec fn text_of(fields: Seq<FormField>, label: Seq<char>) -> Seq<char> {
    match field_pos(fields, label) {
        Some(i) => match fields[i].value {
            FormValue::Text(t) => t.value@,
            _ => Seq::empty(),
        },
        None => Seq::empty(),
    }
}

/// Whether the field labelled `label` is a toggle that is on.
pub open spec fn toggled_of(fields: Seq<FormField>, label: Seq<char>) -> bool {
    match field_pos(fields, label) {
        Some(i) => match fields[i].value {
            FormValue::Toggle(b) => b,
            _ => false,
        },
        None => false,
    }
}

/// The choice of the field labelled `label`; 0 when it is missing or not
/// a choice.
pub open spec fn choice_of(fields: Seq<FormField>, label: Seq<char>) -> int {
    match field_pos(fields, label) {
        Some(i) => match fields[i].value {
            FormValue::Choice(c) => c as int,
            _ => 0,
        },
        None => 0,
    }
}

pub(crate) fn find_field(fields: &Vec<FormField>, label: &str) -> (r: Option<usize>)
    ensures
        match r {
            Some(i) => i < fields@.len() && field_pos(fields@, label@) == Some(i as int),
            None => field_pos(fields@, label@) is None,
        },
{
    proof {
        lemma_field_pos(fields@, label@);
    }
    let mut i: usize = 0;
    while i < fields.len()
        invariant
            i <= fields@.len(),
            forall|j: int| 0 <= j < i ==> (#[trigger] fields@[j]).label@ != label@,
            match field_pos(fields@, label@) {
                Some(p) => 0 <= p < fields@.len() && fields@[p].label@ == label@ && forall|j: int|
                    0 <= j < p ==> (#[trigger] fields@[j]).label@ != label@,
                None => forall|j: int|
                    0 <= j < fields@.len() ==> (#[trigger] fields@[j]).label@ != label@,
            },
        decreases fields@.len() - i,
    {
        if crate::text::eq_str(fields[i].label, label) {
            proof {
                match field_pos(fields@, label@) {
                    Some(p) => {
                        if p < i {
                        } else if p > i {
                            assert(fields@[i as int].label@ != label@);
                        }
                    },
                    None => {
                        assert(fields@[i as int].label@ != label@);
                    },
                }
            }
            return Some(i);
        }
        i += 1;
    }
    proof {
        match field_pos(fields@, label@) {
            Some(p) => {
                assert(fields@[p].label@ != label@);
            },
            None => {},
        }
    }
    None
}

// ---------------------------------------------------------------- host summaries

/// How one host binding of `cport` reads in the form: `ip:port:cport`, or
/// `port:cport` without an address (`?` for a missing port).
pub open spec fn binding_text(cport: Seq<char>, b: crate::ops::BindingView) -> Seq<char> {
    let port = match b.1 {
        Some(p) => p,
        None => "?"@,
    };
    match b.0 {
        Some(ip) => if ip.len() > 0 {
            ip + ":"@ + port + ":"@ + cport
        } else {
            port + ":"@ + cport
        },
        None => port + ":"@ + cport,
    }
}

/// The texts of every binding, entry by entry.
pub open spec fn binding_texts(pm: crate::ops::PortMapView) -> Seq<Seq<char>>
    decreases pm.len(),
{
    if pm.len() == 0 {
        Seq::empty()
    } else {
        binding_texts(pm.drop_last()) + pm.last().1.map_values(
            |b: crate::ops::BindingView| binding_text(pm.last().0, b),
        )
    }
}

/// The form's Ports text for `host`: bindings sorted and `; `-joined.
pub open spec fn ports_text_of(host: HostSpec) -> Seq<char> {
    crate::text::join(crate::util::sorted_texts(binding_texts(host.ports())), "; "@)
}

fn binding_string(cport: &String, b: &crate::ops::PortBinding) -> (r: String)
    ensures
        r@ == binding_text(cport@, b@),
{
    let port: &str = match &b.host_port {
        Some(p) => p.as_str(),
        None => "?",
    };
    let head = match &b.host_ip {
        Some(ip) => {
            let v = chars_of(ip.as_str());
            if v.len() > 0 {
                concat3(ip.as_str(), ":", port)
            } else {
                owned(port)
            }
        },
        None => owned(port),
    };
    concat3(head.as_str(), ":", cport.as_str())
}

fn ports_text(host: &HostSpec) -> (r: String)
    ensures
        r@ == ports_text_of(*host),
{
    let mut parts: Vec<String> = Vec::new();
    match &host.port_bindings {
        Some(pm) => {
            let mut i: usize = 0;
            while i < pm.entries.len()
                invariant
                    i <= pm.entries@.len(),
                    strs(parts@) == binding_texts(pm@.take(i as int)),
                decreases pm.entries@.len() - i,
            {
                let (cport, bs) = (&pm.entries[i].0, &pm.entries[i].1);
                let ghost e = pm@[i as int];
                assert(e.0 == cport@);
                assert(e.1 == bs@.map_values(|b: crate::ops::PortBinding| b@));
                assert(pm@.take(i + 1).drop_last() =~= pm@.take(i as int));
                let ghost base = strs(parts@);
                let mut j: usize = 0;
                while j < bs.len()
                    invariant
                        j <= bs@.len(),
                        e.1 == bs@.map_values(|b: crate::ops::PortBinding| b@),
                        e.0 == cport@,
                        strs(parts@) == base + e.1.take(j as int).map_values(
                            |b: crate::ops::BindingView| binding_text(e.0, b),
                        ),
                    decreases bs@.len() - j,
                {
                    let ghost before = parts@;
                    let t = binding_string(cport, &bs[j]);
                    parts.push(t);
                    proof {
                        crate::text::lemma_map_push(before, t, |s: String| s@);
                        crate::text::lemma_map_take_succ(
                            e.1,
                            j as int,
                            |b: crate::ops::BindingView| binding_text(e.0, b),
                        );
                    }
                    j += 1;
                }
                assert(e.1.take(bs@.len() as int) =~= e.1);
                i += 1;
            }
            assert(pm@.take(pm@.len() as int) =~= pm@);
        },
        None => {
            assert(strs(parts@) =~= binding_texts(host.ports()));
        },
    }
    let sorted = crate::util::sort_strings(parts);
    crate::text::join_strings(&sorted, "; ")
}

/// The GPU choice the form starts at for `host`: "all" for count -1, the
/// count for 1 to 3, else none.
pub open spec fn gpu_choice_of(host: HostSpec) -> int {
    match host.device_requests {
        Some(v) => if v@.len() == 0 {
            0
        } else {
            match v@[0].count {
                Some(n) => if n == -1 {
                    1
                } else if 1 <= n <= 3 {
                    n + 1
                } else {
                    0
                },
                None => 0,
            }
        },
        None => 0,
    }
}

fn gpu_choice(host: &HostSpec) -> (r: usize)
    ensures
        r == gpu_choice_of(*host),
        r < 5,
{
    match &host.device_requests {
        Some(v) => {
            if v.len() == 0 {
                return 0;
            }
            match v[0].count {
                Some(n) => if n == -1 {
                    1
                } else if 1 <= n && n <= 3 {
                    (n + 1) as usize
                } else {
                    0
                },
                None => 0,
            }
        },
        None => 0,
    }
}

/// How one device request reads as a badge: "all", the count, or the
/// device ids (`?` without any).
pub open spec fn gpu_badge(r: GpuRequest) -> Seq<char> {
    let ids = match opt_strs(r.device_ids) {
        Some(ids) => crate::text::join(ids, ","@),
        None => "?"@,
    };
    match r.count {
        Some(n) => if n == -1 {
            "all"@
        } else if n > 0 {
            crate::text::dec_int(n as int)
        } else {
            ids
        },
        None => ids,
    }
}

/// The GPU badges of a host configuration, one per device request.
pub open spec fn gpu_badges(host: HostSpec) -> Seq<Seq<char>> {
    match host.device_requests {
        Some(v) => v@.map_values(|r: GpuRequest| gpu_badge(r)),
        None => Seq::empty(),
    }
}

/// Human-readable GPU summary for badges.
pub fn gpu_summary(host: &HostSpec) -> (r: Vec<String>)
    ensures
        strs(r@) == gpu_badges(*host),
{
    let mut out: Vec<String> = Vec::new();
    match &host.device_requests {
        Some(v) => {
            let mut i: usize = 0;
            while i < v.len()
                invariant
                    i <= v@.len(),
                    strs(out@) == v@.take(i as int).map_values(|r: GpuRequest| gpu_badge(r)),
                decreases v@.len() - i,
            {
                let r = &v[i];
                let ids = match &r.device_ids {
                    Some(ids) => crate::text::join_strings(ids, ","),
                    None => owned("?"),
                };
                let t = match r.count {
                    Some(n) => if n == -1 {
                        owned("all")
                    } else if n > 0 {
                        crate::text::i64_text(n)
                    } else {
                        ids
                    },
                    None => ids,
                };
                let ghost before = out@;
                out.push(t);
                proof {
                    crate::text::lemma_map_push(before, t, |s: String| s@);
                    crate::text::lemma_map_take_succ(v@, i as int, |r: GpuRequest| gpu_badge(r));
                }
                i += 1;
            }
            assert(v@.take(v@.len() as int) =~= v@);
        },
        None => {},
    }
    out
}


// ---------------------------------------------------------------- edit form

/// Edit form shown when recreating a container. Aspects of the container
/// being replaced that the form does not list (binds, restart policy, shm size,
/// pid/ipc, labels, user, workdir, entrypoint, tty) pass through unchanged.
pub struct EditForm {
    pub id: String,
    pub old_name: String,
    pub was_running: bool,
    pub labels: Vec<(String, String)>,
    pub user: Option<String>,
    pub working_dir: Option<String>,
    pub entrypoint: Option<Vec<String>>,
    pub tty: bool,
    pub host: HostSpec,
    pub fields: Vec<FormField>,
    pub sel: usize,
}

/// `f` is the text field `label` holding `v`, its cursor at the end.
pub open spec fn is_text_field(f: FormField, label: Seq<char>, v: Seq<char>) -> bool {
    &&& f.label@ == label
    &&& f.value matches FormValue::Text(t) && t.value@ == v && (text_fits(v) ==> t.cursor
        == byte_len(v)) && t.wf()
}

/// The trimmed text, when anything is left of it.
pub open spec fn trimmed_opt(s: Seq<char>) -> Option<Seq<char>> {
    if crate::text::trim(s).len() > 0 {
        Some(crate::text::trim(s))
    } else {
        None
    }
}

/// An argument list, when it has any arguments.
pub open spec fn nonempty_args(a: Seq<Seq<char>>) -> Option<Seq<Seq<char>>> {
    if a.len() > 0 {
        Some(a)
    } else {
        None
    }
}

/// `r` asks for `n` GPUs (-1: all of them).
pub open spec fn counts_gpus(r: GpuRequest, n: i64) -> bool {
    &&& crate::ops::opt_view(r.driver) == Some(Seq::<char>::empty())
    &&& r.count == Some(n)
    &&& r.device_ids is None
    &&& r.capabilities is Some
    &&& r.capabilities->0@.len() == 1
    &&& strs(r.capabilities->0@[0]@) == seq!["gpu"@]
}

/// A request that asks for the same as one counting GPUs counts them too.
pub proof fn lemma_same_request_counts(a: GpuRequest, b: GpuRequest, n: i64)
    requires
        crate::ops::same_request(a, b),
        counts_gpus(b, n),
    ensures
        counts_gpus(a, n),
{
    let f = |x: Vec<String>| strs(x@);
    let ca = a.capabilities->0@;
    let cb = b.capabilities->0@;
    assert(ca.map_values(f) == cb.map_values(f));
    assert(ca.map_values(f).len() == ca.len());
    assert(ca.map_values(f)[0] == strs(ca[0]@));
    assert(cb.map_values(f)[0] == strs(cb[0]@));
}

/// The device requests GPU choice `c` makes.
pub open spec fn gpu_requests_for(d: Option<Vec<GpuRequest>>, c: int) -> bool {
    if c == 0 {
        d is None
    } else {
        &&& d is Some
        &&& d->0@.len() == 1
        &&& counts_gpus(
            d->0@[0],
            if c == 1 {
                -1i64
            } else {
                (c - 1) as i64
            },
        )
    }
}

fn text_field(label: &'static str, value: String) -> (f: FormField)
    ensures
        is_text_field(f, label@, value@),
{
    FormField { label, value: FormValue::Text(TextInput::new(value)) }
}

fn text_or_empty(o: &Option<String>) -> (r: String)
    ensures
        r@ == crate::ops::opt_seq(crate::ops::opt_view(*o)),
{
    match o {
        Some(s) => s.clone(),
        None => String::new(),
    }
}

fn some_if_nonempty(s: String) -> (r: Option<String>)
    ensures
        r == (if s@.len() > 0 {
            Some(s)
        } else {
            None::<String>
        }),
{
    if s.as_str().is_empty() {
        None
    } else {
        Some(s)
    }
}

/// `f` is the form for container `id` built from `spec`.
pub open spec fn form_from(f: EditForm, id: Seq<char>, spec: crate::ops::ContainerSpec, was_running: bool) -> bool {
    &&& f.fields@.len() == 8
    &&& is_text_field(
        f.fields@[0],
        "Name"@,
        crate::ops::opt_seq(crate::ops::opt_view(spec.name)),
    )
    &&& is_text_field(
        f.fields@[1],
        "Image"@,
        crate::ops::opt_seq(crate::ops::opt_view(spec.image)),
    )
    &&& is_text_field(
        f.fields@[2],
        "Command"@,
        match opt_strs(spec.cmd) {
            Some(c) => crate::text::join(c, " "@),
            None => Seq::empty(),
        },
    )
    &&& is_text_field(f.fields@[3], "Env"@, crate::text::join(strs(spec.env@), "; "@))
    &&& is_text_field(f.fields@[4], "Ports"@, ports_text_of(spec.host))
    &&& f.fields@[5].label@ == "Privileged"@
    &&& f.fields@[5].value == FormValue::Toggle(
        match spec.host.privileged {
            Some(b) => b,
            None => false,
        },
    )
    &&& f.fields@[6].label@ == "GPUs"@
    &&& f.fields@[6].value == FormValue::Choice(gpu_choice_of(spec.host) as usize)
    &&& is_text_field(
        f.fields@[7],
        "Network"@,
        crate::ops::opt_seq(crate::ops::opt_view(spec.host.network_mode)),
    )
    &&& f.id@ == id
    &&& f.old_name@ == crate::ops::opt_seq(crate::ops::opt_view(spec.name))
    &&& f.was_running == was_running
    &&& f.labels@ == spec.labels@
    &&& f.user == spec.user
    &&& f.working_dir == spec.working_dir
    &&& opt_strs(f.entrypoint) == opt_strs(spec.entrypoint)
    &&& f.tty == spec.tty
    &&& crate::ops::same_host(f.host, spec.host)
    &&& f.sel == 0
}

/// `r` is the recreate request form `form` describes.
pub open spec fn request_from(r: RecreateRequest, form: EditForm) -> bool {
    &&& r.old_id@ == form.id@
    &&& r.old_name@ == form.old_name@
    &&& r.was_running == form.was_running
    &&& crate::ops::opt_view(r.spec.name) == trimmed_opt(text_of(form.fields@, "Name"@))
    &&& crate::ops::opt_view(r.spec.image) == trimmed_opt(text_of(form.fields@, "Image"@))
    &&& opt_strs(r.spec.cmd) == nonempty_args(
        crate::util::command_args(text_of(form.fields@, "Command"@)),
    )
    &&& opt_strs(r.spec.entrypoint) == opt_strs(form.entrypoint)
    &&& strs(r.spec.env@) == crate::util::trimmed_nonempty(
        crate::text::split_on(text_of(form.fields@, "Env"@), ';'),
    )
    &&& r.spec.labels@ == form.labels@
    &&& r.spec.user == form.user
    &&& r.spec.working_dir == form.working_dir
    &&& r.spec.tty == form.tty
    &&& crate::ops::same_host_rest(r.spec.host, form.host)
    &&& r.spec.host.privileged == Some(toggled_of(form.fields@, "Privileged"@))
    &&& crate::ops::opt_view(r.spec.host.network_mode) == trimmed_opt(
        text_of(form.fields@, "Network"@),
    )
    &&& gpu_requests_for(r.spec.host.device_requests, choice_of(form.fields@, "GPUs"@))
    &&& r.spec.host.ports() == crate::ops::bindings_of(
        crate::util::trimmed_nonempty(
            crate::text::split_on(text_of(form.fields@, "Ports"@), ';'),
        ),
    )
    &&& r.spec.host.port_bindings is Some <==> r.spec.host.ports().len() > 0
}

/// Two forms agree in everything the fields do not show.
pub open spec fn same_hidden(a: EditForm, b: EditForm) -> bool {
    &&& a.id@ == b.id@
    &&& a.old_name@ == b.old_name@
    &&& a.was_running == b.was_running
    &&& a.labels@ == b.labels@
    &&& a.user == b.user
    &&& a.working_dir == b.working_dir
    &&& opt_strs(a.entrypoint) == opt_strs(b.entrypoint)
    &&& a.tty == b.tty
    &&& crate::ops::same_host(a.host, b.host)
}

/// Editing a container keeps what the form does not show: whatever is
/// typed into a form made from a container's spec, the request it gives
/// replaces that container (and says whether it ran), and carries the
/// spec's labels, user, working directory, entrypoint, tty and every host
/// setting the form leaves alone.
pub proof fn lemma_edit_keeps_the_rest(
    f: EditForm,
    id: Seq<char>,
    spec: crate::ops::ContainerSpec,
    was_running: bool,
    edited: EditForm,
    r: RecreateRequest,
)
    requires
        form_from(f, id, spec, was_running),
        same_hidden(edited, f),
        request_from(r, edited),
    ensures
        r.old_id@ == id,
        r.was_running == was_running,
        r.spec.labels@ == spec.labels@,
        r.spec.user == spec.user,
        r.spec.working_dir == spec.working_dir,
        opt_strs(r.spec.entrypoint) == opt_strs(spec.entrypoint),
        r.spec.tty == spec.tty,
        crate::ops::same_host_rest(r.spec.host, spec.host),
{
}

/// A form filled from a container whose first GPU request asks for `n`
/// GPUs shows that count as its GPU choice (`n` itself for 1 to 3, "all"
/// for -1), and turned back into a request unedited it asks for `n` GPUs
/// again.
pub proof fn lemma_gpu_choice_round_trip(
    f: EditForm,
    id: Seq<char>,
    spec: crate::ops::ContainerSpec,
    was_running: bool,
    r: RecreateRequest,
    n: i64,
)
    requires
        form_from(f, id, spec, was_running),
        request_from(r, f),
        spec.host.device_requests matches Some(v) && v@.len() > 0 && v@[0].count == Some(n),
        n == -1 || 1 <= n <= 3,
    ensures
        1 <= n ==> gpu_option(choice_of(f.fields@, "GPUs"@)) == crate::text::dec(n as nat),
        n == -1 ==> gpu_option(choice_of(f.fields@, "GPUs"@)) == "all"@,
        r.spec.host.device_requests matches Some(w) && w@.len() == 1 && w@[0].count == Some(n),
{
    reveal_strlit("Name");
    reveal_strlit("Image");
    reveal_strlit("Command");
    reveal_strlit("Env");
    reveal_strlit("Ports");
    reveal_strlit("Privileged");
    reveal_strlit("GPUs");
    reveal_strlit("all");
    reveal_strlit("1");
    reveal_strlit("2");
    reveal_strlit("3");
    lemma_field_pos(f.fields@, "GPUs"@);
    assert("Name"@[0] != "GPUs"@[0]);
    assert("Image"@.len() != "GPUs"@.len());
    assert(f.fields@[0].label@ != "GPUs"@);
    assert(f.fields@[1].label@ != "GPUs"@);
    assert(f.fields@[2].label@ != "GPUs"@);
    assert(f.fields@[3].label@ != "GPUs"@);
    assert(f.fields@[4].label@ != "GPUs"@);
    assert(f.fields@[5].label@ != "GPUs"@);
    assert(field_pos(f.fields@, "GPUs"@) == Some(6int));
    assert(choice_of(f.fields@, "GPUs"@) == gpu_choice_of(spec.host));
    if n >= 1 {
        assert(crate::text::dec(n as nat) == seq![crate::text::digit_char(n as int)]);
    }
}

/// A well-formed form's GPU choice is one of the options.
pub proof fn lemma_choice_in_range(f: EditForm)
    requires
        f.wf(),
    ensures
        0 <= choice_of(f.fields@, "GPUs"@) < 5,
{
    lemma_field_pos(f.fields@, "GPUs"@);
    match field_pos(f.fields@, "GPUs"@) {
        Some(i) => {
            let fi = f.fields@[i];
            assert(match fi.value {
                FormValue::Text(t) => t.wf(),
                FormValue::Choice(c) => c < 5,
                FormValue::Toggle(_) => true,
            });
        },
        None => {},
    }
}

impl EditForm {
    /// Every text field's cursor sits on a character boundary, every
    /// choice is a GPU option.
    pub open spec fn wf(&self) -> bool {
        forall|i: int|
            0 <= i < self.fields@.len() ==> match (#[trigger] self.fields@[i]).value {
                FormValue::Text(t) => t.wf(),
                FormValue::Choice(c) => c < 5,
                FormValue::Toggle(_) => true,
            }
    }

    pub fn from_spec(id: &str, spec: &crate::ops::ContainerSpec, was_running: bool) -> (r: Self)
        ensures
            form_from(r, id@, *spec, was_running),
            r.wf(),
    {
        let cmd = match &spec.cmd {
            Some(c) => crate::text::join_strings(c, " "),
            None => String::new(),
        };
        let mut fields: Vec<FormField> = Vec::new();
        fields.push(text_field("Name", text_or_empty(&spec.name)));
        fields.push(text_field("Image", text_or_empty(&spec.image)));
        fields.push(text_field("Command", cmd));
        fields.push(text_field("Env", crate::text::join_strings(&spec.env, "; ")));
        fields.push(text_field("Ports", ports_text(&spec.host)));
        fields.push(
            FormField {
                label: "Privileged",
                value: FormValue::Toggle(
                    match spec.host.privileged {
                        Some(b) => b,
                        None => false,
                    },
                ),
            },
        );
        fields.push(FormField { label: "GPUs", value: FormValue::Choice(gpu_choice(&spec.host)) });
        fields.push(text_field("Network", text_or_empty(&spec.host.network_mode)));
        EditForm {
            id: owned(id),
            old_name: text_or_empty(&spec.name),
            was_running,
            labels: crate::model::clone_labels(&spec.labels),
            user: crate::ops::clone_opt(&spec.user),
            working_dir: crate::ops::clone_opt(&spec.working_dir),
            entrypoint: crate::ops::clone_opt_strings(&spec.entrypoint),
            tty: spec.tty,
            host: spec.host.clone(),
            fields,
            sel: 0,
        }
    }

    /// The first field labelled `label`.
    pub fn field(&self, label: &str) -> (r: Option<&FormField>)
        ensures
            match field_pos(self.fields@, label@) {
                Some(i) => r is Some && *r->0 == self.fields@[i],
                None => r is None,
            },
    {
        match find_field(&self.fields, label) {
            Some(i) => Some(&self.fields[i]),
            None => None,
        }
    }

    pub fn text(&self, label: &str) -> (r: &str)
        ensures
            r@ == text_of(self.fields@, label@),
    {
        proof {
            reveal_strlit("");
        }
        match self.field(label) {
            Some(f) => match &f.value {
                FormValue::Text(t) => t.value.as_str(),
                _ => "",
            },
            None => "",
        }
    }

    pub fn toggled(&self, label: &str) -> (r: bool)
        ensures
            r == toggled_of(self.fields@, label@),
    {
        match self.field(label) {
            Some(f) => match &f.value {
                FormValue::Toggle(b) => *b,
                _ => false,
            },
            None => false,
        }
    }

    pub fn choice(&self, label: &str) -> (r: usize)
        ensures
            r == choice_of(self.fields@, label@),
    {
        match self.field(label) {
            Some(f) => match &f.value {
                FormValue::Choice(i) => *i,
                _ => 0,
            },
            None => 0,
        }
    }

    /// Toggle / cycle the selected field (space or enter on non-text fields).
    pub fn cycle_selected(&mut self)
        requires
            old(self).sel < old(self).fields@.len() ==> (old(
                self,
            ).fields@[old(self).sel as int].value matches FormValue::Choice(i) ==> i
                < usize::MAX),
        ensures
            final(self).sel == old(self).sel,
            old(self).sel < old(self).fields@.len() ==> final(self).fields@ == old(self).fields@.update(
                old(self).sel as int,
                FormField {
                    label: old(self).fields@[old(self).sel as int].label,
                    value: cycled(old(self).fields@[old(self).sel as int].value),
                },
            ),
            old(self).sel >= old(self).fields@.len() ==> final(self).fields@ == old(self).fields@,
            final(self).id == old(self).id,
            final(self).old_name == old(self).old_name,
            final(self).was_running == old(self).was_running,
            final(self).labels == old(self).labels,
            final(self).user == old(self).user,
            final(self).working_dir == old(self).working_dir,
            final(self).entrypoint == old(self).entrypoint,
            final(self).tty == old(self).tty,
            final(self).host == old(self).host,
    {
        let sel = self.sel;
        if sel < self.fields.len() {
            self.fields[sel].cycle();
        }
    }

    /// The recreate request the form describes.
    pub fn to_request(&self) -> (r: RecreateRequest)
        requires
            0 <= choice_of(self.fields@, "GPUs"@) < 5,
        ensures
            request_from(r, *self),
    {
        let mut host = self.host.clone();
        host.privileged = Some(self.toggled("Privileged"));
        host.network_mode = some_if_nonempty(crate::text::trim_str(self.text("Network")));
        let c = self.choice("GPUs");
        if c == 0 {
            host.device_requests = None;
        } else {
            let g = if c == 1 {
                crate::ops::GpuSpec::Spec(owned("all"))
            } else {
                crate::ops::GpuSpec::Count((c - 1) as i64)
            };
            proof {
                reveal_strlit("all");
            }
            let mut reqs: Vec<GpuRequest> = Vec::new();
            reqs.push(g.to_request());
            host.device_requests = Some(reqs);
        }
        let ports = crate::util::split_list(self.text("Ports"));
        let pm = crate::ops::port_map_of(&ports);
        if pm.len() > 0 {
            host.port_bindings = Some(pm);
        } else {
            host.port_bindings = None;
            assert(pm@ =~= Seq::<(Seq<char>, Seq<crate::ops::BindingView>)>::empty());
        }
        let cmd = crate::util::split_command(self.text("Command"));
        assert(strs(cmd@).len() == cmd@.len());
        let spec = crate::ops::ContainerSpec {
            name: some_if_nonempty(crate::text::trim_str(self.text("Name"))),
            image: some_if_nonempty(crate::text::trim_str(self.text("Image"))),
            cmd: if cmd.len() > 0 {
                Some(cmd)
            } else {
                None
            },
            entrypoint: crate::ops::clone_opt_strings(&self.entrypoint),
            env: crate::util::split_list(self.text("Env")),
            labels: crate::model::clone_labels(&self.labels),
            user: crate::ops::clone_opt(&self.user),
            working_dir: crate::ops::clone_opt(&self.working_dir),
            tty: self.tty,
            host,
        };
        RecreateRequest {
            old_id: self.id.clone(),
            old_name: self.old_name.clone(),
            was_running: self.was_running,
            spec,
        }
    }
}


// ---------------------------------------------------------------- env editor

/// The column of the env table being edited.
#[derive(Clone, Copy, PartialEq, Eq, Structural)]
pub enum EnvCol {
    Key,
    Value,
}

/// One `KEY=value` row of the env table.
pub struct EnvRow {
    pub key: TextInput,
    pub value: TextInput,
}

/// Table editor for the form's Env field: one row per variable.
pub struct EnvEditor {
    pub rows: Vec<EnvRow>,
    pub sel: usize,
    pub editing: Option<EnvCol>,
}

/// An env entry split at its first `=` (no `=`: the whole entry is the key).
pub open spec fn env_pair(e: Seq<char>) -> (Seq<char>, Seq<char>) {
    match crate::text::first_index(e, '=') {
        Some(i) => (e.take(i as int), e.skip(i as int + 1)),
        None => (e, Seq::empty()),
    }
}

/// The rows an Env text gives: its `;`-separated entries split at `=`, or
/// one empty row when there are none.
pub open spec fn env_pairs(text: Seq<char>) -> Seq<(Seq<char>, Seq<char>)> {
    let es = crate::util::trimmed_nonempty(crate::text::split_on(text, ';'));
    if es.len() == 0 {
        seq![(Seq::<char>::empty(), Seq::<char>::empty())]
    } else {
        es.map_values(|e: Seq<char>| env_pair(e))
    }
}

/// `KEY=value` for every row whose key is not blank.
pub open spec fn env_lines(rows: Seq<(Seq<char>, Seq<char>)>) -> Seq<Seq<char>>
    decreases rows.len(),
{
    if rows.len() == 0 {
        Seq::empty()
    } else {
        let rest = env_lines(rows.drop_last());
        let r = rows.last();
        if crate::text::trim(r.0).len() > 0 {
            rest.push(r.0 + "="@ + r.1)
        } else {
            rest
        }
    }
}

fn empty_row() -> (r: EnvRow)
    ensures
        r.key@ == (Seq::<char>::empty(), 0int),
        r.value@ == (Seq::<char>::empty(), 0int),
        r.key.wf(),
        r.value.wf(),
{
    proof {
        lemma_char_index_exact(Seq::<char>::empty(), 0);
    }
    EnvRow { key: TextInput::default(), value: TextInput::default() }
}

fn env_row_of(e: &str) -> (r: EnvRow)
    ensures
        (r.key.value@, r.value.value@) == env_pair(e@),
        r.key.wf(),
        r.value.wf(),
{
    let v = chars_of(e);
    proof {
        crate::text::lemma_first_index(v@, '=');
    }
    match crate::text::first_pos(&v, '=') {
        Some(i) => {
            let k = crate::text::slice_chars(&v, 0, i);
            let val = crate::text::slice_chars(&v, i + 1, v.len());
            assert(k@ =~= v@.take(i as int));
            assert(val@ =~= v@.skip(i + 1));
            EnvRow { key: TextInput::new(string_of(&k)), value: TextInput::new(string_of(&val)) }
        },
        None => EnvRow { key: TextInput::new(owned(e)), value: TextInput::new(String::new()) },
    }
}

impl EnvEditor {
    /// The (key, value) texts of the rows.
    pub open spec fn pairs(&self) -> Seq<(Seq<char>, Seq<char>)> {
        self.rows@.map_values(|r: EnvRow| (r.key.value@, r.value.value@))
    }

    /// Every cell's cursor sits on a character boundary.
    pub open spec fn cells_wf(&self) -> bool {
        forall|i: int|
            0 <= i < self.rows@.len() ==> (#[trigger] self.rows@[i]).key.wf() && self.rows@[i].value.wf()
    }

    /// There is a row, the selection is on one, and the cells are in shape.
    pub open spec fn wf(&self) -> bool {
        &&& self.rows@.len() > 0
        &&& self.sel < self.rows@.len()
        &&& self.cells_wf()
    }

    /// The editor for an Env text.
    pub fn from_text(text: &str) -> (r: Self)
        ensures
            r.pairs() == env_pairs(text@),
            r.sel == 0,
            r.editing is None,
            r.wf(),
    {
        let entries = crate::util::split_list(text);
        let ghost es = crate::util::trimmed_nonempty(crate::text::split_on(text@, ';'));
        let mut rows: Vec<EnvRow> = Vec::new();
        let mut i: usize = 0;
        while i < entries.len()
            invariant
                i <= entries@.len(),
                strs(entries@) == es,
                rows@.map_values(|r: EnvRow| (r.key.value@, r.value.value@)) == es.take(
                    i as int,
                ).map_values(|e: Seq<char>| env_pair(e)),
                forall|j: int|
                    0 <= j < rows@.len() ==> (#[trigger] rows@[j]).key.wf() && rows@[j].value.wf(),
            decreases entries@.len() - i,
        {
            let ghost before = rows@;
            let row = env_row_of(entries[i].as_str());
            rows.push(row);
            proof {
                crate::text::lemma_map_push(before, row, |r: EnvRow| (r.key.value@, r.value.value@));
                crate::text::lemma_map_take_succ(es, i as int, |e: Seq<char>| env_pair(e));
                assert(es[i as int] == entries@[i as int]@);
            }
            i += 1;
        }
        assert(es.take(entries@.len() as int) =~= es);
        if rows.len() == 0 {
            let ghost before = rows@;
            let row = empty_row();
            rows.push(row);
            proof {
                crate::text::lemma_map_push(before, row, |r: EnvRow| (r.key.value@, r.value.value@));
            }
            assert(rows@.map_values(|r: EnvRow| (r.key.value@, r.value.value@)) =~= seq![
                (Seq::<char>::empty(), Seq::<char>::empty()),
            ]);
        }
        EnvEditor { rows, sel: 0, editing: None }
    }

    /// The Env text the rows make: `KEY=value` entries joined with `; `,
    /// rows with a blank key left out.
    pub fn to_text(&self) -> (r: String)
        ensures
            r@ == crate::text::join(env_lines(self.pairs()), "; "@),
    {
        let mut lines: Vec<String> = Vec::new();
        let mut i: usize = 0;
        while i < self.rows.len()
            invariant
                i <= self.rows@.len(),
                strs(lines@) == env_lines(self.pairs().take(i as int)),
            decreases self.rows@.len() - i,
        {
            assert(self.pairs().take(i + 1).drop_last() =~= self.pairs().take(i as int));
            assert(self.pairs().take(i + 1).last() == self.pairs()[i as int]);
            let key = self.rows[i].key.value.as_str();
            let k = crate::text::trim_str(key);
            if !k.as_str().is_empty() {
                let ghost before = lines@;
                let line = concat3(key, "=", self.rows[i].value.value.as_str());
                lines.push(line);
                proof {
                    crate::text::lemma_map_push(before, line, |s: String| s@);
                }
            }
            i += 1;
        }
        assert(self.pairs().take(self.rows@.len() as int) =~= self.pairs());
        crate::text::join_strings(&lines, "; ")
    }

    /// Adds an empty row, selects it and starts editing its key.
    pub fn add_row(&mut self)
        requires
            old(self).rows@.len() < usize::MAX,
        ensures
            final(self).pairs() == old(self).pairs().push(
                (Seq::<char>::empty(), Seq::<char>::empty()),
            ),
            final(self).sel == old(self).rows@.len(),
            final(self).editing == Some(EnvCol::Key),
            old(self).cells_wf() ==> final(self).wf(),
    {
        let ghost before = self.rows@;
        let row = empty_row();
        self.rows.push(row);
        proof {
            crate::text::lemma_map_push(before, row, |r: EnvRow| (r.key.value@, r.value.value@));
        }
        self.sel = self.rows.len() - 1;
        self.editing = Some(EnvCol::Key);
    }

    /// Removes the selected row; the last row left is emptied instead.
    pub fn delete_row(&mut self)
        requires
            old(self).wf(),
        ensures
            old(self).rows@.len() > 1 ==> final(self).pairs() == old(self).pairs().remove(
                old(self).sel as int,
            ),
            old(self).rows@.len() > 1 && old(self).sel < old(self).rows@.len() - 1
                ==> final(self).sel == old(self).sel,
            old(self).rows@.len() > 1 && old(self).sel == old(self).rows@.len() - 1
                ==> final(self).sel == old(self).sel - 1,
            old(self).rows@.len() == 1 ==> final(self).pairs() == seq![
                (Seq::<char>::empty(), Seq::<char>::empty()),
            ] && final(self).sel == 0,
            final(self).editing is None,
            final(self).wf(),
    {
        if self.rows.len() > 1 {
            let ghost before = self.rows@;
            let sel = self.sel;
            self.rows.remove(sel);
            assert(self.pairs() =~= before.map_values(
                |r: EnvRow| (r.key.value@, r.value.value@),
            ).remove(sel as int));
            if self.sel >= self.rows.len() {
                self.sel = self.rows.len() - 1;
            }
        } else {
            let mut rows: Vec<EnvRow> = Vec::new();
            rows.push(empty_row());
            self.rows = rows;
            self.sel = 0;
            assert(self.pairs() =~= seq![(Seq::<char>::empty(), Seq::<char>::empty())]);
        }
        self.editing = None;
    }
}

} // verus!
