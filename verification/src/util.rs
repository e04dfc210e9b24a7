//! Small text utilities: command splitting, `;` lists, byte sizes,
//! width-aware truncation and container ordering.
use vstd::prelude::*;

use crate::model::Container;
use crate::text::{
    chars_of, dec, digit_char, is_whitespace, is_ws, push_char, push_chars, seq_lt, split_chars,
    str_lt, string_of, trim, trim_chars, views, split_on,
};

verus! {

// ---------------------------------------------------------------- commands

/// Tokenizer state while splitting a command line: finished arguments,
/// the argument being built, the open quote, and whether a token started.
pub type CmdState = (Seq<Seq<char>>, Seq<char>, Option<char>, bool);

pub open spec fn cmd_step(st: CmdState, ch: char) -> CmdState {
    match st.2 {
        Some(q) => if ch == q {
            (st.0, st.1, None, st.3)
        } else {
            (st.0, st.1.push(ch), st.2, st.3)
        },
        None => if ch == '\'' || ch == '"' {
            (st.0, st.1, Some(ch), true)
        } else if is_ws(ch) {
            if st.3 {
                (st.0.push(st.1), Seq::<char>::empty(), None, false)
            } else {
                st
            }
        } else {
            (st.0, st.1.push(ch), None, true)
        },
    }
}

pub open spec fn cmd_state(s: Seq<char>) -> CmdState
    decreases s.len(),
{
    if s.len() == 0 {
        (Seq::<Seq<char>>::empty(), Seq::<char>::empty(), None, false)
    } else {
        cmd_step(cmd_state(s.drop_last()), s.last())
    }
}

/// Whitespace-separated arguments of `s`, where single or double quotes
/// group characters (quotes themselves are dropped; an unclosed quote runs
/// to the end).
pub open spec fn command_args(s: Seq<char>) -> Seq<Seq<char>> {
    let st = cmd_state(s);
    if st.3 {
        st.0.push(st.1)
    } else {
        st.0
    }
}

/// Splitting on whitespace, char by char: the finished words and the word
/// being read.
pub open spec fn ws_state(s: Seq<char>) -> (Seq<Seq<char>>, Seq<char>)
    decreases s.len(),
{
    if s.len() == 0 {
        (Seq::<Seq<char>>::empty(), Seq::<char>::empty())
    } else {
        let st = ws_state(s.drop_last());
        let ch = s.last();
        if is_ws(ch) {
            if st.1.len() > 0 {
                (st.0.push(st.1), Seq::<char>::empty())
            } else {
                st
            }
        } else {
            (st.0, st.1.push(ch))
        }
    }
}

/// The maximal runs of non-whitespace characters of `s`, in order (what
/// `str::split_whitespace` gives).
pub open spec fn ws_words(s: Seq<char>) -> Seq<Seq<char>> {
    let st = ws_state(s);
    if st.1.len() > 0 {
        st.0.push(st.1)
    } else {
        st.0
    }
}

/// `s` holds no quote character.
pub open spec fn unquoted(s: Seq<char>) -> bool {
    forall|i: int| 0 <= i < s.len() ==> #[trigger] s[i] != '\'' && s[i] != '"'
}

proof fn lemma_cmd_state_unquoted(s: Seq<char>)
    requires
        unquoted(s),
    ensures
        cmd_state(s) == (ws_state(s).0, ws_state(s).1, None::<char>, ws_state(s).1.len() > 0),
    decreases s.len(),
{
    if s.len() > 0 {
        let d = s.drop_last();
        assert(unquoted(d)) by {
            assert forall|i: int| 0 <= i < d.len() implies #[trigger] d[i] != '\'' && d[i] != '"' by {
                assert(d[i] == s[i]);
            }
        }
        lemma_cmd_state_unquoted(d);
        assert(s[s.len() - 1] == s.last());
    }
}

/// Without quotes, a command splits exactly as on whitespace.
pub proof fn lemma_split_command_unquoted(s: Seq<char>)
    requires
        unquoted(s),
    ensures
        command_args(s) == ws_words(s),
{
    lemma_cmd_state_unquoted(s);
}

/// The views of a list of strings.
pub open spec fn strs(v: Seq<String>) -> Seq<Seq<char>> {
    v.map_values(|x: String| x@)
}

/// Split a command string on whitespace, respecting single and double quotes.
/// `sh -c "apk add jq"` -> ["sh", "-c", "apk add jq"].
pub fn split_command(s: &str) -> (r: Vec<String>)
    ensures
        strs(r@) == command_args(s@),
{
    let v = chars_of(s);
    let mut args: Vec<String> = Vec::new();
    let mut cur: Vec<char> = Vec::new();
    let mut quote: Option<char> = None;
    let mut has_token = false;
    let mut i: usize = 0;
    while i < v.len()
        invariant
            i <= v.len(),
            v@ == s@,
            cmd_state(v@.take(i as int)) == (strs(args@), cur@, quote, has_token),
        decreases v.len() - i,
    {
        let ch = v[i];
        assert(v@.take(i + 1).drop_last() == v@.take(i as int));
        let ghost before = strs(args@);
        match quote {
            Some(q) => {
                if ch == q {
                    quote = None;
                } else {
                    cur.push(ch);
                }
            },
            None => {
                if ch == '\'' || ch == '"' {
                    quote = Some(ch);
                    has_token = true;
                } else if is_whitespace(ch) {
                    if has_token {
                        let piece = string_of(&cur);
                        args.push(piece);
                        assert(strs(args@) =~= before.push(cur@));
                        cur = Vec::new();
                        has_token = false;
                    }
                } else {
                    cur.push(ch);
                    has_token = true;
                }
            },
        }
        i += 1;
    }
    assert(v@.take(v.len() as int) == v@);
    if has_token {
        let ghost before = strs(args@);
        let piece = string_of(&cur);
        args.push(piece);
        assert(strs(args@) =~= before.push(cur@));
    }
    args
}

// ---------------------------------------------------------------- lists

/// Trimmed, non-empty pieces, in order.
pub open spec fn trimmed_nonempty(parts: Seq<Seq<char>>) -> Seq<Seq<char>>
    decreases parts.len(),
{
    if parts.len() == 0 {
        Seq::<Seq<char>>::empty()
    } else {
        let p = trimmed_nonempty(parts.drop_last());
        let t = trim(parts.last());
        if t.len() > 0 {
            p.push(t)
        } else {
            p
        }
    }
}

/// Split a list on `;`, trimming whitespace and dropping empty entries.
pub fn split_list(s: &str) -> (r: Vec<String>)
    ensures
        strs(r@) == trimmed_nonempty(crate::text::split_on(s@, ';')),
{
    let v = chars_of(s);
    let parts = split_chars(&v, ';');
    let mut out: Vec<String> = Vec::new();
    let mut i: usize = 0;
    while i < parts.len()
        invariant
            i <= parts.len(),
            views(parts@) == crate::text::split_on(s@, ';'),
            strs(out@) == trimmed_nonempty(views(parts@).take(i as int)),
        decreases parts.len() - i,
    {
        assert(views(parts@).take(i + 1).drop_last() == views(parts@).take(i as int));
        let t = trim_chars(&parts[i]);
        if t.len() > 0 {
            let ghost before = strs(out@);
            let piece = string_of(&t);
            out.push(piece);
            assert(strs(out@) =~= before.push(t@));
        }
        i += 1;
    }
    assert(views(parts@).take(parts@.len() as int) == views(parts@));
    out
}

/// An entry of a `;` list as `split_list` gives them: not empty, without
/// surrounding whitespace, and without `;`.
pub open spec fn list_entry(x: Seq<char>) -> bool {
    &&& x.len() > 0
    &&& trim(x) == x
    &&& forall|k: int| 0 <= k < x.len() ==> x[k] != ';'
}

proof fn lemma_split_on_join(a: Seq<char>, b: Seq<char>, c: char)
    ensures
        split_on(a + seq![c] + b, c) == split_on(a, c) + split_on(b, c),
    decreases b.len(),
{
    if b.len() == 0 {
        assert(a + seq![c] + b =~= a.push(c));
        assert(a.push(c).drop_last() =~= a);
        assert(split_on(a, c).push(Seq::<char>::empty()) =~= split_on(a, c) + split_on(b, c));
    } else {
        let bd = b.drop_last();
        lemma_split_on_join(a, bd, c);
        assert((a + seq![c] + b).drop_last() =~= a + seq![c] + bd);
        assert((a + seq![c] + b).last() == b.last());
        crate::text::lemma_split_on_nonempty(bd, c);
        let pa = split_on(a, c);
        let pb = split_on(bd, c);
        if b.last() == c {
            assert((pa + pb).push(Seq::<char>::empty()) =~= pa + pb.push(Seq::<char>::empty()));
        } else {
            assert((pa + pb).update((pa + pb).len() - 1, (pa + pb).last().push(b.last())) =~= pa
                + pb.update(pb.len() - 1, pb.last().push(b.last())));
        }
    }
}

proof fn lemma_split_on_none(y: Seq<char>, c: char)
    requires
        forall|k: int| 0 <= k < y.len() ==> y[k] != c,
    ensures
        split_on(y, c) == seq![y],
    decreases y.len(),
{
    if y.len() > 0 {
        lemma_split_on_none(y.drop_last(), c);
        assert(y[y.len() - 1] != c);
        assert(y.drop_last().push(y.last()) =~= y);
        assert(seq![y.drop_last()].update(0, y.drop_last().push(y.last())) =~= seq![y]);
    } else {
        assert(y =~= Seq::<char>::empty());
    }
}

proof fn lemma_split_on_pieces(s: Seq<char>, c: char)
    ensures
        forall|i: int, k: int|
            0 <= i < split_on(s, c).len() && 0 <= k < split_on(s, c)[i].len() ==> (#[trigger] split_on(s, c)[i][k])
                != c,
    decreases s.len(),
{
    if s.len() > 0 {
        lemma_split_on_pieces(s.drop_last(), c);
        crate::text::lemma_split_on_nonempty(s.drop_last(), c);
    }
}

/// A trimmed, non-empty text starts and ends with a non-whitespace character.
proof fn lemma_trim_ends(p: Seq<char>)
    ensures
        trim(p).len() > 0 ==> !is_ws(trim(p)[0]) && !is_ws(trim(p).last()),
        exists|a: int, b: int| 0 <= a <= b <= p.len() && #[trigger] trim(p) == p.subrange(a, b),
{
    let st = crate::text::trim_start(p);
    crate::text::lemma_trim_start_sub(p);
    let k = choose|k: int| 0 <= k <= p.len() && st == #[trigger] p.skip(k);
    crate::text::lemma_trim_end_sub(st);
    let j = choose|j: int| 0 <= j <= st.len() && crate::text::trim_end(st) == #[trigger] st.take(j);
    assert(trim(p) == p.subrange(k, k + j));
    lemma_trim_start_head(p);
    lemma_trim_end_last(st);
}

proof fn lemma_trim_start_head(p: Seq<char>)
    ensures
        crate::text::trim_start(p).len() > 0 ==> !is_ws(crate::text::trim_start(p)[0]),
    decreases p.len(),
{
    if p.len() > 0 && is_ws(p[0]) {
        lemma_trim_start_head(p.drop_first());
    }
}

proof fn lemma_trim_end_last(p: Seq<char>)
    ensures
        crate::text::trim_end(p).len() > 0 ==> !is_ws(crate::text::trim_end(p).last()),
        crate::text::trim_end(p).len() > 0 ==> crate::text::trim_end(p)[0] == p[0],
    decreases p.len(),
{
    if p.len() > 0 && is_ws(p.last()) {
        lemma_trim_end_last(p.drop_last());
    }
}

/// Text without whitespace at either end is its own trim.
proof fn lemma_trim_fixed(x: Seq<char>)
    requires
        x.len() > 0 ==> !is_ws(x[0]) && !is_ws(x.last()),
    ensures
        trim(x) == x,
{
}

/// Whitespace put before a trimmed entry is trimmed off again.
proof fn lemma_trim_lead(w: Seq<char>, x: Seq<char>)
    requires
        forall|k: int| 0 <= k < w.len() ==> is_ws(#[trigger] w[k]),
        x.len() > 0,
        !is_ws(x[0]),
        trim(x) == x,
    ensures
        trim(w + x) == x,
    decreases w.len(),
{
    if w.len() > 0 {
        assert((w + x)[0] == w[0]);
        assert((w + x).drop_first() =~= w.drop_first() + x);
        lemma_trim_lead(w.drop_first(), x);
    } else {
        assert(w + x =~= x);
    }
}

proof fn lemma_split_tail(jd: Seq<char>, w: Seq<char>, x: Seq<char>)
    requires
        list_entry(x),
        forall|k: int| 0 <= k < w.len() ==> is_ws(#[trigger] w[k]),
    ensures
        split_on(jd + (seq![';'] + w) + x, ';') == split_on(jd, ';').push(w + x),
{
    assert(jd + (seq![';'] + w) + x =~= jd + seq![';'] + (w + x));
    lemma_split_on_join(jd, w + x, ';');
    assert forall|k: int| 0 <= k < (w + x).len() implies (w + x)[k] != ';' by {
        if k < w.len() {
            assert(is_ws(w[k]));
        } else {
            assert((w + x)[k] == x[k - w.len()]);
        }
    }
    lemma_split_on_none(w + x, ';');
    assert(split_on(jd, ';') + seq![w + x] =~= split_on(jd, ';').push(w + x));
}

proof fn lemma_trimmed_tail(pd: Seq<Seq<char>>, w: Seq<char>, x: Seq<char>)
    requires
        list_entry(x),
        forall|k: int| 0 <= k < w.len() ==> is_ws(#[trigger] w[k]),
    ensures
        trimmed_nonempty(pd.push(w + x)) == trimmed_nonempty(pd).push(x),
{
    assert(pd.push(w + x).drop_last() =~= pd);
    assert(pd.push(w + x).last() == w + x);
    lemma_trim_ends(x);
    lemma_trim_lead(w, x);
}

/// Entries joined with `;` and the same whitespace after each `;` split
/// back into the same entries.
pub proof fn lemma_split_list_round_trip(xs: Seq<Seq<char>>, w: Seq<char>)
    requires
        forall|i: int| 0 <= i < xs.len() ==> list_entry(#[trigger] xs[i]),
        forall|k: int| 0 <= k < w.len() ==> is_ws(#[trigger] w[k]),
    ensures
        trimmed_nonempty(split_on(crate::text::join(xs, seq![';'] + w), ';')) == xs,
    decreases xs.len(),
{
    let sep = seq![';'] + w;
    if xs.len() == 0 {
        assert(split_on(Seq::<char>::empty(), ';') == seq![Seq::<char>::empty()]);
        assert(trim(Seq::<char>::empty()) =~= Seq::<char>::empty());
        assert(seq![Seq::<char>::empty()].drop_last() =~= Seq::<Seq<char>>::empty());
        assert(trimmed_nonempty(Seq::<Seq<char>>::empty()) =~= Seq::<Seq<char>>::empty());
        assert(seq![Seq::<char>::empty()].last() =~= Seq::<char>::empty());
        assert(trimmed_nonempty(seq![Seq::<char>::empty()]) =~= Seq::<Seq<char>>::empty());
        assert(xs =~= Seq::<Seq<char>>::empty());
    } else if xs.len() == 1 {
        let x = xs[0];
        assert(list_entry(x));
        assert(crate::text::join(xs, sep) == x);
        lemma_split_on_none(x, ';');
        assert(seq![x].drop_last() =~= Seq::<Seq<char>>::empty());
        assert(seq![x].last() == x);
        assert(trimmed_nonempty(Seq::<Seq<char>>::empty()) =~= Seq::<Seq<char>>::empty());
        assert(trim(x) == x && x.len() > 0);
        assert(trimmed_nonempty(seq![x]) == Seq::<Seq<char>>::empty().push(x));
        assert(Seq::<Seq<char>>::empty().push(x) =~= xs);
    } else {
        let d = xs.drop_last();
        let x = xs.last();
        assert(list_entry(x));
        assert forall|i: int| 0 <= i < d.len() implies list_entry(#[trigger] d[i]) by {
            assert(d[i] == xs[i]);
        }
        lemma_split_list_round_trip(d, w);
        let jd = crate::text::join(d, sep);
        assert(crate::text::join(xs, sep) == jd + sep + x);
        lemma_split_tail(jd, w, x);
        lemma_trimmed_tail(split_on(jd, ';'), w, x);
        assert(d.push(x) =~= xs);
    }
}

/// Every entry `split_list` gives is a list entry, and joining the entries
/// with `;` and splitting again gives the same entries.
pub proof fn lemma_split_list_idempotent(s: Seq<char>)
    ensures
        forall|i: int|
            0 <= i < trimmed_nonempty(split_on(s, ';')).len() ==> list_entry(
                #[trigger] trimmed_nonempty(split_on(s, ';'))[i],
            ),
        trimmed_nonempty(split_on(crate::text::join(trimmed_nonempty(split_on(s, ';')), seq![';']), ';'))
            == trimmed_nonempty(split_on(s, ';')),
{
    lemma_split_on_pieces(s, ';');
    lemma_entries(split_on(s, ';'));
    assert(seq![';'] + Seq::<char>::empty() =~= seq![';']);
    lemma_split_list_round_trip(trimmed_nonempty(split_on(s, ';')), Seq::<char>::empty());
}

proof fn lemma_entries(parts: Seq<Seq<char>>)
    requires
        forall|i: int, k: int|
            0 <= i < parts.len() && 0 <= k < parts[i].len() ==> (#[trigger] parts[i][k]) != ';',
    ensures
        forall|i: int|
            0 <= i < trimmed_nonempty(parts).len() ==> list_entry(
                #[trigger] trimmed_nonempty(parts)[i],
            ),
    decreases parts.len(),
{
    if parts.len() > 0 {
        let d = parts.drop_last();
        assert forall|i: int, k: int| 0 <= i < d.len() && 0 <= k < d[i].len() implies (
        #[trigger] d[i][k]) != ';' by {
            assert(d[i] == parts[i]);
        }
        lemma_entries(d);
        let p = parts.last();
        let t = trim(p);
        lemma_trim_ends(p);
        if t.len() > 0 {
            lemma_trim_fixed(t);
            let (a, b) = choose|a: int, b: int| 0 <= a <= b <= p.len() && #[trigger] trim(p) == p.subrange(a, b);
            assert forall|k: int| 0 <= k < t.len() implies t[k] != ';' by {
                assert(t[k] == p[a + k]);
                assert(parts[parts.len() - 1][a + k] != ';');
            }
        }
        let r = trimmed_nonempty(parts);
        let rd = trimmed_nonempty(d);
        assert forall|i: int| 0 <= i < r.len() implies list_entry(#[trigger] r[i]) by {
            if i < rd.len() {
                assert(r[i] == rd[i]);
            } else {
                assert(r[i] == t);
            }
        }
    }
}

// ---------------------------------------------------------------- sizes

/// `1024^k`.
pub open spec fn pow1024(k: nat) -> nat
    decreases k,
{
    if k == 0 {
        1
    } else {
        1024 * pow1024((k - 1) as nat)
    }
}

/// The unit index a byte count is shown in: the largest `k <= max` (from
/// `from` up) with `n >= 1024^k`, stepping one unit at a time.
pub open spec fn unit_index(n: nat, k: nat, max: nat) -> nat
    decreases max - k,
{
    if k < max && n >= pow1024(k + 1) {
        unit_index(n, k + 1, max)
    } else {
        k
    }
}

/// `n / d` rounded to the nearest integer, ties to even (how float
/// formatting rounds an exact value).
pub open spec fn round_half_even(n: nat, d: nat) -> nat {
    let q = n / d;
    let r = n % d;
    if 2 * r > d || (2 * r == d && q % 2 == 1) {
        q + 1
    } else {
        q
    }
}

/// `n / d` with one decimal (`{:.1}`).
pub open spec fn one_decimal(n: nat, d: nat) -> Seq<char> {
    let t = round_half_even(10 * n, d);
    dec(t / 10) + seq!['.'] + seq![digit_char((t % 10) as int)]
}

/// Unit names of `model::human_bytes`.
pub open spec fn iec_unit(k: nat) -> Seq<char> {
    if k == 0 {
        "B"@
    } else if k == 1 {
        "KiB"@
    } else if k == 2 {
        "MiB"@
    } else if k == 3 {
        "GiB"@
    } else if k == 4 {
        "TiB"@
    } else {
        "PiB"@
    }
}

/// Unit names of `util::human_bytes`.
pub open spec fn short_unit(k: nat) -> Seq<char> {
    if k == 0 {
        "B"@
    } else if k == 1 {
        "K"@
    } else if k == 2 {
        "M"@
    } else if k == 3 {
        "G"@
    } else {
        "T"@
    }
}

/// The text `util::human_bytes` gives.
pub open spec fn short_bytes(n: nat) -> Seq<char> {
    let u = unit_index(n, 0, 4);
    if n == 0 {
        "-"@
    } else if u == 0 {
        dec(n) + "B"@
    } else {
        one_decimal(n, pow1024(u)) + short_unit(u)
    }
}

/// The text `model::human_bytes` gives.
pub open spec fn iec_bytes(n: nat) -> Seq<char> {
    let u = unit_index(n, 0, 5);
    if n < 1024 {
        dec(n) + "B"@
    } else if n >= 100 * pow1024(u) {
        dec(round_half_even(n, pow1024(u))) + iec_unit(u)
    } else {
        one_decimal(n, pow1024(u)) + iec_unit(u)
    }
}

proof fn lemma_pow1024_bound(k: nat)
    requires
        k <= 5,
    ensures
        1 <= pow1024(k) <= 1125899906842624,
        k >= 1 ==> pow1024(k) >= 1024,
{
    reveal_with_fuel(pow1024, 6);
}

proof fn lemma_unit_index_ge(n: nat, k: nat, max: nat)
    requires
        k <= max,
    ensures
        k <= unit_index(n, k, max) <= max,
    decreases max - k,
{
    if k < max && n >= pow1024(k + 1) {
        lemma_unit_index_ge(n, k + 1, max);
    }
}

proof fn lemma_rounded_le(n: nat, d: nat)
    requires
        d >= 2,
        n >= d,
    ensures
        round_half_even(n, d) <= n,
{
    assert((n / d) * d <= n) by (nonlinear_arith)
        requires
            d >= 2,
    ;
    assert(n / d + 1 <= n) by (nonlinear_arith)
        requires
            d >= 2,
            n >= d,
            (n / d) * d <= n,
    ;
}

/// Unit index and divisor for `n`, stepping while the value is at least 1024.
fn scale(n: u64, max: u64) -> (r: (u64, u128))
    requires
        max <= 5,
    ensures
        r.0 == unit_index(n as nat, 0, max as nat),
        r.1 == pow1024(r.0 as nat),
        r.0 <= max,
{
    let mut u: u64 = 0;
    let mut d: u128 = 1;
    proof {
        lemma_pow1024_bound(1);
    }
    while u < max && (n as u128) >= d * 1024
        invariant
            u <= max <= 5,
            d == pow1024(u as nat),
            1 <= d <= 1125899906842624,
            unit_index(n as nat, 0, max as nat) == unit_index(n as nat, u as nat, max as nat),
        decreases max - u,
    {
        proof {
            lemma_pow1024_bound(u as nat);
        }
        d = d * 1024;
        u += 1;
        proof {
            reveal_with_fuel(pow1024, 2);
            lemma_pow1024_bound(u as nat);
        }
    }
    proof {
        lemma_pow1024_bound(u as nat);
    }
    (u, d)
}

fn round_half_even_exec(n: u128, d: u128) -> (r: u128)
    requires
        0 < d <= 1125899906842624,
        n < 0x1_0000_0000_0000_0000_0000,
    ensures
        r == round_half_even(n as nat, d as nat),
{
    let q = n / d;
    let rem = n % d;
    if 2 * rem > d || (2 * rem == d && q % 2 == 1) {
        q + 1
    } else {
        q
    }
}

fn digit_of(d: u128) -> (c: char)
    requires
        d < 10,
    ensures
        c == digit_char(d as int),
{
    match d {
        0 => '0',
        1 => '1',
        2 => '2',
        3 => '3',
        4 => '4',
        5 => '5',
        6 => '6',
        7 => '7',
        8 => '8',
        _ => '9',
    }
}

fn push_u64(s: &mut String, n: u64)
    ensures
        final(s)@ == old(s)@ + dec(n as nat),
{
    let t = crate::text::u64_text(n);
    let v = chars_of(t.as_str());
    push_chars(s, &v);
}

fn push_one_decimal(s: &mut String, n: u64, d: u128)
    requires
        0 < d <= 1125899906842624,
    ensures
        final(s)@ == old(s)@ + one_decimal(n as nat, d as nat),
{
    let t = round_half_even_exec(10 * (n as u128), d);
    assert(t <= 10 * (n as u128)) by (nonlinear_arith)
        requires
            t == round_half_even((10 * n) as nat, d as nat),
            d >= 1,
    {
        let q = (10 * n) as nat / d as nat;
        assert(q * d <= 10 * n);
        if d == 1 {
            assert((10 * n) as nat % d as nat == 0);
        } else {
            assert(q * d <= 10 * n);
        }
    }
    push_u64(s, (t / 10) as u64);
    push_char(s, '.');
    push_char(s, digit_of(t % 10));
}

fn push_lit(s: &mut String, lit: &str)
    ensures
        final(s)@ == old(s)@ + lit@,
{
    crate::text::push_str(s, lit);
}

/// 1234 -> "1.2K", 5 -> "5B", 0 -> "-", 730 -> "730B" (below 1024 stays in bytes).
pub fn human_bytes(n: u64) -> (r: String)
    ensures
        r@ == short_bytes(n as nat),
{
    let mut s = String::new();
    if n == 0 {
        push_lit(&mut s, "-");
        return s;
    }
    let (u, d) = scale(n, 4);
    proof {
        lemma_pow1024_bound(u as nat);
    }
    if u == 0 {
        push_u64(&mut s, n);
        push_lit(&mut s, "B");
    } else {
        push_one_decimal(&mut s, n, d);
        let unit = if u == 1 {
            "K"
        } else if u == 2 {
            "M"
        } else if u == 3 {
            "G"
        } else {
            "T"
        };
        push_lit(&mut s, unit);
    }
    s
}

/// IEC byte size: "512B", "1.2KiB", "95.4MiB", "120GiB".
pub fn iec_human_bytes(n: u64) -> (r: String)
    ensures
        r@ == iec_bytes(n as nat),
{
    let mut s = String::new();
    let (u, d) = scale(n, 5);
    if n < 1024 {
        push_u64(&mut s, n);
        push_lit(&mut s, "B");
        return s;
    }
    proof {
        lemma_pow1024_bound(u as nat);
        lemma_unit_index_ge(n as nat, 0, 5);
        assert(u >= 1) by {
            reveal_with_fuel(pow1024, 2);
            lemma_unit_index_ge(n as nat, 1, 5);
        }
    }
    if (n as u128) >= 100 * d {
        let w = round_half_even_exec(n as u128, d);
        proof {
            lemma_rounded_le(n as nat, d as nat);
        }
        push_u64(&mut s, w as u64);
    } else {
        push_one_decimal(&mut s, n, d);
    }
    let unit = if u == 0 {
        "B"
    } else if u == 1 {
        "KiB"
    } else if u == 2 {
        "MiB"
    } else if u == 3 {
        "GiB"
    } else if u == 4 {
        "TiB"
    } else {
        "PiB"
    };
    push_lit(&mut s, unit);
    s
}

// ---------------------------------------------------------------- width

/// Display width of a string (unicode-width `UnicodeWidthStr::width`).
pub uninterp spec fn str_width(s: Seq<char>) -> usize;

/// Display width of one character (unicode-width `UnicodeWidthChar::width`;
/// `None` for control characters).
pub uninterp spec fn char_width(c: char) -> Option<usize>;

/// unicode-width `UnicodeWidthStr::width`: the result is the crate's width
/// of exactly these characters.
#[verifier::external_body]
fn display_width(s: &str) -> (w: usize)
    ensures
        w == str_width(s@),
{
    unicode_width::UnicodeWidthStr::width(s)
}

/// unicode-width `UnicodeWidthChar::width`: the result is the crate's
/// width of this character.
#[verifier::external_body]
fn char_display_width(c: char) -> (w: Option<usize>)
    ensures
        w == char_width(c),
{
    unicode_width::UnicodeWidthChar::width(c)
}

/// Width of one character, control characters counting as zero.
pub open spec fn cw(c: char) -> int {
    match char_width(c) {
        Some(w) => w as int,
        None => 0,
    }
}

/// The longest prefix of `s` whose character widths fit in `budget`.
pub open spec fn fit_prefix(s: Seq<char>, budget: int) -> Seq<char>
    decreases s.len(),
{
    if s.len() == 0 || cw(s[0]) > budget {
        Seq::<char>::empty()
    } else {
        seq![s[0]] + fit_prefix(s.drop_first(), budget - cw(s[0]))
    }
}

/// What `truncate` returns.
pub open spec fn truncated(s: Seq<char>, width: int) -> Seq<char> {
    let ell = str_width(seq!['…']) as int;
    if width == 0 {
        Seq::<char>::empty()
    } else if str_width(s) <= width {
        s
    } else {
        let target = if width >= ell {
            width - ell
        } else {
            0
        };
        let out = fit_prefix(s, target);
        if str_width(out) + ell <= width {
            out.push('…')
        } else {
            out
        }
    }
}

/// Truncate a string to fit `width` display columns, appending an ellipsis if
/// it does not fit.
pub fn truncate(s: &str, width: usize) -> (r: String)
    ensures
        r@ == truncated(s@, width as int),
{
    if width == 0 {
        return String::new();
    }
    if display_width(s) <= width {
        return crate::text::owned(s);
    }
    let ell_s = "…";
    let ell = display_width(ell_s);
    proof {
        reveal_strlit("…");
        assert("…"@ =~= seq!['…']);
    }
    let target = if width >= ell {
        width - ell
    } else {
        0
    };
    let v = chars_of(s);
    let mut i: usize = 0;
    let mut budget: usize = target;
    assert(v@.skip(0) == v@);
    loop
        invariant
            i <= v.len(),
            budget <= target,
            fit_prefix(v@, target as int) == v@.take(i as int) + fit_prefix(
                v@.skip(i as int),
                budget as int,
            ),
        ensures
            fit_prefix(v@, target as int) == v@.take(i as int),
        decreases v.len() - i,
    {
        if i >= v.len() {
            assert(v@.skip(i as int).len() == 0);
            break;
        }
        let w = match char_display_width(v[i]) {
            Some(w) => w,
            None => 0,
        };
        assert(v@.skip(i as int)[0] == v@[i as int]);
        if w > budget {
            break;
        }
        assert(v@.skip(i as int).drop_first() == v@.skip(i + 1));
        assert(v@.take(i + 1) == v@.take(i as int) + seq![v@[i as int]]);
        budget = budget - w;
        i += 1;
    }
    let outv = crate::text::slice_chars(&v, 0, i);
    let mut out = string_of(&outv);
    assert(out@ == fit_prefix(s@, target as int));
    let ow = display_width(out.as_str());
    if ell <= width && ow <= width - ell {
        push_char(&mut out, '…');
    }
    out
}

// ---------------------------------------------------------------- ordering

/// Running containers first, then by name.
pub open spec fn container_lt(a: Container, b: Container) -> bool {
    (a.running() && !b.running()) || (a.running() == b.running() && seq_lt(a.name@, b.name@))
}

/// `x` inserted into `s` after every element it does not sort before.
pub open spec fn insert_container<'a>(s: Seq<&'a Container>, x: &'a Container) -> Seq<&'a Container>
    decreases s.len(),
{
    if s.len() == 0 || !container_lt(*x, *s.last()) {
        s.push(x)
    } else {
        insert_container(s.drop_last(), x).push(s.last())
    }
}

/// Stable sort of `s` by (not running, name).
pub open spec fn sorted_containers<'a>(s: Seq<&'a Container>) -> Seq<&'a Container>
    decreases s.len(),
{
    if s.len() == 0 {
        s
    } else {
        insert_container(sorted_containers(s.drop_last()), s.last())
    }
}

proof fn lemma_insert_container_at<'a>(s: Seq<&'a Container>, x: &'a Container, j: int)
    requires
        0 <= j <= s.len(),
        forall|k: int| j <= k < s.len() ==> container_lt(*x, *#[trigger] s[k]),
        j == 0 || !container_lt(*x, *s[j - 1]),
    ensures
        insert_container(s, x) == s.take(j).push(x) + s.skip(j),
    decreases s.len(),
{
    if s.len() == 0 {
        assert(s.take(j).push(x) + s.skip(j) =~= seq![x]);
    } else if j == s.len() {
        assert(s.take(j) == s);
        assert(s.skip(j) =~= Seq::<&Container>::empty());
        assert(s.take(j).push(x) + s.skip(j) =~= s.push(x));
    } else {
        assert(container_lt(*x, *s[s.len() - 1]));
        lemma_insert_container_at(s.drop_last(), x, j);
        assert(s.drop_last().take(j) == s.take(j));
        assert((s.take(j).push(x) + s.drop_last().skip(j)).push(s.last()) =~= s.take(j).push(x)
            + s.skip(j));
    }
}

/// Containers compared as the lists show them: running first, then by name.
pub open spec fn container_order<'a>() -> spec_fn(&'a Container, &'a Container) -> bool {
    |a: &'a Container, b: &'a Container| container_lt(*a, *b)
}

proof fn lemma_sorted_containers_by<'a>(s: Seq<&'a Container>)
    ensures
        sorted_containers(s) == crate::order::sort_by(s, container_order()),
    decreases s.len(),
{
    if s.len() > 0 {
        lemma_sorted_containers_by(s.drop_last());
        lemma_insert_container_by(sorted_containers(s.drop_last()), s.last());
    }
}

proof fn lemma_insert_container_by<'a>(s: Seq<&'a Container>, x: &'a Container)
    ensures
        insert_container(s, x) == crate::order::ins_by(s, x, container_order()),
    decreases s.len(),
{
    if s.len() > 0 {
        lemma_insert_container_by(s.drop_last(), x);
    }
}

/// Ordering containers keeps every one, as often as it came, puts the
/// running ones first, each group in name order, and keeps containers that
/// order alike in list order.
pub proof fn lemma_sort_containers<'a>(s: Seq<&'a Container>)
    ensures
        sorted_containers(s).to_multiset() == s.to_multiset(),
        crate::order::sorted_by(sorted_containers(s), container_order()),
        forall|c: &'a Container|
            #[trigger] sorted_containers(s).filter(crate::order::tied_with(container_order(), c))
                == s.filter(crate::order::tied_with(container_order(), c)),
{
    lemma_sorted_containers_by(s);
    crate::order::lemma_sort_by(s, container_order());
    let flag = |c: &'a Container| c.running();
    let key = |c: &'a Container| c.name@;
    crate::order::lemma_flag_text_order(flag, key);
    assert(container_order() =~= (|a: &'a Container, b: &'a Container|
        (flag(a) && !flag(b)) || (flag(a) == flag(b) && seq_lt(key(a), key(b)))));
    assert forall|c: &'a Container|
        #[trigger] sorted_containers(s).filter(crate::order::tied_with(container_order(), c))
            == s.filter(crate::order::tied_with(container_order(), c)) by {
        crate::order::lemma_sort_by_stable(s, container_order(), c);
    }
}

pub fn container_before(a: &Container, b: &Container) -> (r: bool)
    ensures
        r == container_lt(*a, *b),
{
    let ra = a.is_running();
    let rb = b.is_running();
    (ra && !rb) || (ra == rb && str_lt(a.name.as_str(), b.name.as_str()))
}

/// Running containers first, each group ordered by name (stable).
pub fn sort_containers<'a>(list: Vec<&'a Container>) -> (r: Vec<&'a Container>)
    ensures
        r@ == sorted_containers(list@),
{
    let mut out: Vec<&'a Container> = Vec::new();
    let mut i: usize = 0;
    while i < list.len()
        invariant
            i <= list.len(),
            out@ == sorted_containers(list@.take(i as int)),
        decreases list.len() - i,
    {
        let x = list[i];
        assert(list@.take(i + 1).drop_last() == list@.take(i as int));
        let mut j: usize = out.len();
        while j > 0 && container_before(x, out[j - 1])
            invariant
                j <= out.len(),
                forall|k: int| j <= k < out.len() ==> container_lt(*x, *#[trigger] out@[k]),
            decreases j,
        {
            j -= 1;
        }
        let ghost before = out@;
        proof {
            lemma_insert_container_at(before, x, j as int);
        }
        out.insert(j, x);
        assert(out@ =~= before.take(j as int).push(x) + before.skip(j as int));
        i += 1;
    }
    assert(list@.take(list.len() as int) == list@);
    out
}


/// `x` inserted into `s` after every text it does not sort before.
pub open spec fn insert_text(s: Seq<Seq<char>>, x: Seq<char>) -> Seq<Seq<char>>
    decreases s.len(),
{
    if s.len() == 0 || !seq_lt(x, s.last()) {
        s.push(x)
    } else {
        insert_text(s.drop_last(), x).push(s.last())
    }
}

/// Texts in ascending order (code point by code point).
pub open spec fn sorted_texts(s: Seq<Seq<char>>) -> Seq<Seq<char>>
    decreases s.len(),
{
    if s.len() == 0 {
        s
    } else {
        insert_text(sorted_texts(s.drop_last()), s.last())
    }
}

proof fn lemma_insert_text_at(s: Seq<Seq<char>>, x: Seq<char>, j: int)
    requires
        0 <= j <= s.len(),
        forall|k: int| j <= k < s.len() ==> seq_lt(x, #[trigger] s[k]),
        j == 0 || !seq_lt(x, s[j - 1]),
    ensures
        insert_text(s, x) == s.take(j).push(x) + s.skip(j),
    decreases s.len(),
{
    if s.len() == 0 {
        assert(s.take(j).push(x) + s.skip(j) =~= seq![x]);
    } else if j == s.len() {
        assert(s.take(j) == s);
        assert(s.skip(j) =~= Seq::<Seq<char>>::empty());
        assert(s.take(j).push(x) + s.skip(j) =~= s.push(x));
    } else {
        assert(seq_lt(x, s[s.len() - 1]));
        lemma_insert_text_at(s.drop_last(), x, j);
        assert(s.drop_last().take(j) == s.take(j));
        assert((s.take(j).push(x) + s.drop_last().skip(j)).push(s.last()) =~= s.take(j).push(x)
            + s.skip(j));
    }
}

/// Sorts strings in ascending order.
pub fn sort_strings(list: Vec<String>) -> (r: Vec<String>)
    ensures
        strs(r@) == sorted_texts(strs(list@)),
{
    let ghost orig = list@;
    assert(orig.len() == list.len());
    let mut rest = list;
    let mut out: Vec<String> = Vec::new();
    let mut i: usize = 0;
    while rest.len() > 0
        invariant
            orig.len() <= usize::MAX,
            i + rest@.len() == orig.len(),
            rest@ == orig.skip(i as int),
            strs(out@) == sorted_texts(strs(orig.take(i as int))),
        decreases rest@.len(),
    {
        let x = rest.remove(0);
        assert(x == orig[i as int]);
        assert(strs(orig.take(i + 1)).drop_last() =~= strs(orig.take(i as int)));
        assert(strs(orig.take(i + 1)).last() == x@);
        let mut j: usize = out.len();
        while j > 0 && crate::text::str_lt(x.as_str(), out[j - 1].as_str())
            invariant
                j <= out.len(),
                forall|k: int| j <= k < out.len() ==> seq_lt(x@, #[trigger] strs(out@)[k]),
            decreases j,
        {
            j -= 1;
        }
        let ghost before = strs(out@);
        proof {
            lemma_insert_text_at(before, x@, j as int);
        }
        out.insert(j, x);
        assert(strs(out@) =~= before.take(j as int).push(x@) + before.skip(j as int));
        i += 1;
        assert(rest@ =~= orig.skip(i as int));
    }
    assert(orig.take(orig.len() as int) =~= orig);
    out
}

} // verus!
