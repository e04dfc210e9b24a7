//! Character-level text helpers shared by the whole library: building
//! strings, decimal/hex rendering, whitespace trimming, comparisons.
use vstd::prelude::*;

use crate::model::utf8_len;

verus! {

// ---------------------------------------------------------------- sequences

pub proof fn lemma_map_push<A, B>(s: Seq<A>, x: A, f: spec_fn(A) -> B)
    ensures
        s.push(x).map_values(f) == s.map_values(f).push(f(x)),
{
    assert(s.push(x).map_values(f) =~= s.map_values(f).push(f(x)));
}

pub proof fn lemma_map_take_succ<A, B>(s: Seq<A>, i: int, f: spec_fn(A) -> B)
    requires
        0 <= i < s.len(),
    ensures
        s.take(i + 1).map_values(f) == s.take(i).map_values(f).push(f(s[i])),
{
    assert(s.take(i + 1) == s.take(i).push(s[i]));
    lemma_map_push(s.take(i), s[i], f);
}

pub proof fn lemma_map_update<A, B>(s: Seq<A>, i: int, x: A, f: spec_fn(A) -> B)
    requires
        0 <= i < s.len(),
    ensures
        s.update(i, x).map_values(f) == s.map_values(f).update(i, f(x)),
{
    assert(s.update(i, x).map_values(f) =~= s.map_values(f).update(i, f(x)));
}

// ---------------------------------------------------------------- building

/// Appends one character to a `String` (std `String::push`).
#[verifier::external_body]
pub(crate) fn push_char(s: &mut String, c: char)
    ensures
        final(s)@ == old(s)@.push(c),
{
    s.push(c);
}

/// The characters of a string slice, in order.
pub fn chars_of(s: &str) -> (v: Vec<char>)
    ensures
        v@ == s@,
{
    let mut v: Vec<char> = Vec::new();
    for c in it: s.chars()
        invariant
            v@ == it.seq().take(it.index() as int),
            it.seq() == s@,
    {
        v.push(c);
    }
    v
}

/// Builds a `String` from a sequence of characters.
pub fn string_of(v: &[char]) -> (s: String)
    ensures
        s@ == v@,
{
    let mut s = String::new();
    let mut i: usize = 0;
    while i < v.len()
        invariant
            i <= v.len(),
            s@ == v@.take(i as int),
        decreases v.len() - i,
    {
        push_char(&mut s, v[i]);
        i += 1;
        assert(v@.take(i as int) == v@.take(i - 1).push(v@[i - 1]));
    }
    assert(v@.take(v.len() as int) == v@);
    s
}

/// An owned copy of a string slice.
pub fn owned(s: &str) -> (r: String)
    ensures
        r@ == s@,
{
    s.to_owned()
}

/// Appends all characters of `t` to `s`.
pub fn push_str(s: &mut String, t: &str)
    ensures
        final(s)@ == old(s)@ + t@,
{
    let v = chars_of(t);
    let ghost start = s@;
    let mut i: usize = 0;
    while i < v.len()
        invariant
            i <= v.len(),
            v@ == t@,
            s@ == start + v@.take(i as int),
        decreases v.len() - i,
    {
        push_char(s, v[i]);
        i += 1;
        assert(v@.take(i as int) == v@.take(i - 1).push(v@[i - 1]));
    }
    assert(v@.take(v.len() as int) == v@);
}

/// Appends the characters of `v` to `s`.
pub fn push_chars(s: &mut String, v: &[char])
    ensures
        final(s)@ == old(s)@ + v@,
{
    let ghost start = s@;
    let mut i: usize = 0;
    while i < v.len()
        invariant
            i <= v.len(),
            s@ == start + v@.take(i as int),
        decreases v.len() - i,
    {
        push_char(s, v[i]);
        i += 1;
        assert(v@.take(i as int) == v@.take(i - 1).push(v@[i - 1]));
    }
    assert(v@.take(v.len() as int) == v@);
}

/// `a` followed by `b`, as a new string.
pub fn concat2(a: &str, b: &str) -> (r: String)
    ensures
        r@ == a@ + b@,
{
    let mut s = owned(a);
    push_str(&mut s, b);
    s
}

/// `a`, `b` and `c` joined, as a new string.
pub fn concat3(a: &str, b: &str, c: &str) -> (r: String)
    ensures
        r@ == a@ + b@ + c@,
{
    let mut s = owned(a);
    push_str(&mut s, b);
    push_str(&mut s, c);
    s
}

// ---------------------------------------------------------------- equality

/// Character-wise equality of two sequences.
pub fn chars_eq(a: &[char], b: &[char]) -> (r: bool)
    ensures
        r == (a@ == b@),
{
    if a.len() != b.len() {
        return false;
    }
    let mut i: usize = 0;
    while i < a.len()
        invariant
            a.len() == b.len(),
            i <= a.len(),
            forall|k: int| 0 <= k < i ==> a@[k] == b@[k],
        decreases a.len() - i,
    {
        if a[i] != b[i] {
            return false;
        }
        i += 1;
    }
    assert(a@ =~= b@);
    true
}

/// Equality of two string slices.
pub fn eq_str(a: &str, b: &str) -> (r: bool)
    ensures
        r == (a@ == b@),
{
    let va = chars_of(a);
    let vb = chars_of(b);
    chars_eq(&va, &vb)
}

// ---------------------------------------------------------------- order

/// Lexicographic order on code points (the order `str` comparison uses,
/// since UTF-8 preserves code point order).
pub open spec fn seq_lt(a: Seq<char>, b: Seq<char>) -> bool {
    exists|i: int|
        #![trigger a.take(i), b.take(i)]
        0 <= i <= a.len() && i <= b.len() && a.take(i) == b.take(i) && ((i == a.len() && i
            < b.len()) || (i < a.len() && i < b.len() && (a[i] as u32) < (b[i] as u32)))
}

/// Whether `a` sorts strictly before `b`.
pub fn chars_lt(a: &[char], b: &[char]) -> (r: bool)
    ensures
        r == seq_lt(a@, b@),
{
    let mut i: usize = 0;
    while i < a.len() && i < b.len()
        invariant
            i <= a.len(),
            i <= b.len(),
            a@.take(i as int) == b@.take(i as int),
        decreases a.len() - i,
    {
        if a[i] != b[i] {
            let r = (a[i] as u32) < (b[i] as u32);
            proof {
                if !r {
                    assert forall|j: int|
                        0 <= j <= a@.len() && j <= b@.len() && a@.take(j) == b@.take(j)
                            implies !((j == a@.len() && j < b@.len()) || (j < a@.len() && j
                        < b@.len() && (a@[j] as u32) < (b@[j] as u32))) by {
                        if j <= i {
                            if j < i {
                                assert(a@.take(i as int)[j] == b@.take(i as int)[j]);
                            }
                        } else {
                            assert(a@.take(j)[i as int] == b@.take(j)[i as int]);
                        }
                    }
                }
            }
            return r;
        }
        assert(a@.take(i + 1) == a@.take(i as int).push(a@[i as int]));
        assert(b@.take(i + 1) == b@.take(i as int).push(b@[i as int]));
        i += 1;
    }
    let r = i == a.len() && i < b.len();
    proof {
        if !r {
            assert forall|j: int|
                0 <= j <= a@.len() && j <= b@.len() && a@.take(j) == b@.take(j) implies !((j
                == a@.len() && j < b@.len()) || (j < a@.len() && j < b@.len() && (a@[j] as u32)
                < (b@[j] as u32))) by {
                if j < i {
                    assert(a@.take(i as int)[j] == b@.take(i as int)[j]);
                }
            }
        }
    }
    r
}

/// Whether string `a` sorts strictly before string `b`.
pub fn str_lt(a: &str, b: &str) -> (r: bool)
    ensures
        r == seq_lt(a@, b@),
{
    let va = chars_of(a);
    let vb = chars_of(b);
    chars_lt(&va, &vb)
}

// ---------------------------------------------------------------- numbers

/// The character for a decimal digit.
pub open spec fn digit_char(d: int) -> char {
    if d == 0 {
        '0'
    } else if d == 1 {
        '1'
    } else if d == 2 {
        '2'
    } else if d == 3 {
        '3'
    } else if d == 4 {
        '4'
    } else if d == 5 {
        '5'
    } else if d == 6 {
        '6'
    } else if d == 7 {
        '7'
    } else if d == 8 {
        '8'
    } else {
        '9'
    }
}

/// The character for a lowercase hexadecimal digit.
pub open spec fn hex_char(d: int) -> char {
    if d < 10 {
        digit_char(d)
    } else if d == 10 {
        'a'
    } else if d == 11 {
        'b'
    } else if d == 12 {
        'c'
    } else if d == 13 {
        'd'
    } else if d == 14 {
        'e'
    } else {
        'f'
    }
}

/// Decimal rendering of a natural number, without leading zeros.
pub open spec fn dec(n: nat) -> Seq<char>
    decreases n,
{
    if n < 10 {
        seq![digit_char(n as int)]
    } else {
        dec(n / 10).push(digit_char((n % 10) as int))
    }
}

/// Decimal rendering of an integer, with a leading `-` when negative.
pub open spec fn dec_int(n: int) -> Seq<char> {
    if n < 0 {
        seq!['-'] + dec((-n) as nat)
    } else {
        dec(n as nat)
    }
}

/// Lowercase hexadecimal rendering of a natural number.
pub open spec fn hex(n: nat) -> Seq<char>
    decreases n,
{
    if n < 16 {
        seq![hex_char(n as int)]
    } else {
        hex(n / 16).push(hex_char((n % 16) as int))
    }
}

fn digit(d: u64) -> (c: char)
    requires
        d < 16,
    ensures
        c == hex_char(d as int),
{
    match d {
        0 => '0',
        1 => '1',
        2 => '2',
        3 => '3',
        4 => '4',
        5 => '5',
        6 => '6',
        7 => '7',
        8 => '8',
        9 => '9',
        10 => 'a',
        11 => 'b',
        12 => 'c',
        13 => 'd',
        14 => 'e',
        _ => 'f',
    }
}

fn dec_chars(n: u64) -> (v: Vec<char>)
    ensures
        v@ == dec(n as nat),
    decreases n,
{
    if n < 10 {
        let mut v = Vec::new();
        v.push(digit(n));
        v
    } else {
        let mut v = dec_chars(n / 10);
        v.push(digit(n % 10));
        v
    }
}

fn hex_chars(n: u64) -> (v: Vec<char>)
    ensures
        v@ == hex(n as nat),
    decreases n,
{
    if n < 16 {
        let mut v = Vec::new();
        v.push(digit(n));
        v
    } else {
        let mut v = hex_chars(n / 16);
        v.push(digit(n % 16));
        v
    }
}

/// Decimal rendering of an unsigned number.
pub fn u64_text(n: u64) -> (s: String)
    ensures
        s@ == dec(n as nat),
{
    let v = dec_chars(n);
    string_of(&v)
}

/// Decimal rendering of a signed number.
pub fn i64_text(n: i64) -> (s: String)
    ensures
        s@ == dec_int(n as int),
{
    if n < 0 {
        let m: u64 = (-(n as i128)) as u64;
        let mut s = String::new();
        push_char(&mut s, '-');
        let v = dec_chars(m);
        push_chars(&mut s, &v);
        assert(s@ == seq!['-'] + dec((-n) as nat));
        s
    } else {
        u64_text(n as u64)
    }
}

/// Lowercase hexadecimal rendering of an unsigned number.
pub fn hex_text(n: u64) -> (s: String)
    ensures
        s@ == hex(n as nat),
{
    let v = hex_chars(n);
    string_of(&v)
}

// ---------------------------------------------------------------- whitespace

/// The Unicode `White_Space` property, which `char::is_whitespace` tests.
pub open spec fn is_ws(c: char) -> bool {
    let u = c as u32;
    (0x9 <= u <= 0xd) || u == 0x20 || u == 0x85 || u == 0xa0 || u == 0x1680 || (0x2000 <= u
        <= 0x200a) || u == 0x2028 || u == 0x2029 || u == 0x202f || u == 0x205f || u == 0x3000
}

/// Whether a character is whitespace.
pub fn is_whitespace(c: char) -> (r: bool)
    ensures
        r == is_ws(c),
{
    let u = c as u32;
    (0x9 <= u && u <= 0xd) || u == 0x20 || u == 0x85 || u == 0xa0 || u == 0x1680 || (0x2000 <= u
        && u <= 0x200a) || u == 0x2028 || u == 0x2029 || u == 0x202f || u == 0x205f || u == 0x3000
}

/// `s` without leading whitespace.
pub open spec fn trim_start(s: Seq<char>) -> Seq<char>
    decreases s.len(),
{
    if s.len() > 0 && is_ws(s[0]) {
        trim_start(s.drop_first())
    } else {
        s
    }
}

/// `s` without trailing whitespace.
pub open spec fn trim_end(s: Seq<char>) -> Seq<char>
    decreases s.len(),
{
    if s.len() > 0 && is_ws(s.last()) {
        trim_end(s.drop_last())
    } else {
        s
    }
}

/// `s` without leading and trailing whitespace (`str::trim`).
pub open spec fn trim(s: Seq<char>) -> Seq<char> {
    trim_end(trim_start(s))
}

/// Every character of `s` is ASCII.
pub open spec fn is_ascii_seq(s: Seq<char>) -> bool {
    forall|i: int| 0 <= i < s.len() ==> (#[trigger] s[i] as u32) < 128
}

pub proof fn lemma_trim_start_sub(s: Seq<char>)
    ensures
        exists|k: int| 0 <= k <= s.len() && trim_start(s) == #[trigger] s.skip(k),
    decreases s.len(),
{
    if s.len() > 0 && is_ws(s[0]) {
        lemma_trim_start_sub(s.drop_first());
        let k = choose|k: int| 0 <= k <= s.len() - 1 && trim_start(s.drop_first()) == #[trigger] s.drop_first().skip(k);
        assert(s.drop_first().skip(k) =~= s.skip(k + 1));
    } else {
        assert(s.skip(0) =~= s);
    }
}

pub proof fn lemma_trim_end_sub(s: Seq<char>)
    ensures
        exists|k: int| 0 <= k <= s.len() && trim_end(s) == #[trigger] s.take(k),
    decreases s.len(),
{
    if s.len() > 0 && is_ws(s.last()) {
        lemma_trim_end_sub(s.drop_last());
        let k = choose|k: int| 0 <= k <= s.len() - 1 && trim_end(s.drop_last()) == #[trigger] s.drop_last().take(k);
        assert(s.drop_last().take(k) =~= s.take(k));
    } else {
        assert(s.take(s.len() as int) =~= s);
    }
}

/// Trimming ASCII text leaves ASCII text.
pub proof fn lemma_trim_ascii(s: Seq<char>)
    ensures
        is_ascii_seq(s) ==> is_ascii_seq(trim(s)),
{
    lemma_trim_start_sub(s);
    let k = choose|k: int| 0 <= k <= s.len() && trim_start(s) == #[trigger] s.skip(k);
    let a = trim_start(s);
    lemma_trim_end_sub(a);
    let j = choose|j: int| 0 <= j <= a.len() && trim_end(a) == #[trigger] a.take(j);
    if is_ascii_seq(s) {
        assert forall|i: int| 0 <= i < trim(s).len() implies (#[trigger] trim(s)[i] as u32) < 128 by {
            assert(trim(s)[i] == a[i]);
            assert(a[i] == s[i + k]);
        }
    }
}

/// Leading and trailing whitespace removed.
pub fn trim_chars(v: &[char]) -> (r: Vec<char>)
    ensures
        r@ == trim(v@),
{
    let mut i: usize = 0;
    assert(v@.skip(0) == v@);
    while i < v.len() && is_whitespace(v[i])
        invariant
            i <= v.len(),
            trim_start(v@) == trim_start(v@.skip(i as int)),
        decreases v.len() - i,
    {
        assert(v@.skip(i as int).drop_first() == v@.skip(i + 1));
        i += 1;
    }
    let mut j: usize = v.len();
    assert(v@.skip(i as int) == v@.subrange(i as int, j as int));
    while j > i && is_whitespace(v[j - 1])
        invariant
            i <= j <= v.len(),
            trim_start(v@) == v@.skip(i as int),
            trim(v@) == trim_end(v@.subrange(i as int, j as int)),
        decreases j,
    {
        assert(v@.subrange(i as int, j as int).drop_last() == v@.subrange(i as int, j - 1));
        j -= 1;
    }
    let mut r: Vec<char> = Vec::new();
    let mut k: usize = i;
    while k < j
        invariant
            i <= k <= j <= v.len(),
            r@ == v@.subrange(i as int, k as int),
        decreases j - k,
    {
        r.push(v[k]);
        assert(v@.subrange(i as int, k + 1) == v@.subrange(i as int, k as int).push(v@[k as int]));
        k += 1;
    }
    r
}

/// A trimmed copy of a string slice.
pub fn trim_str(s: &str) -> (r: String)
    ensures
        r@ == trim(s@),
{
    let v = chars_of(s);
    let t = trim_chars(&v);
    string_of(&t)
}

// ---------------------------------------------------------------- ascii case

/// ASCII lowercase of one character (`char::to_ascii_lowercase`).
pub open spec fn ascii_lower(c: char) -> char {
    if 'A' <= c <= 'Z' {
        ((c as u32) + 32) as char
    } else {
        c
    }
}

/// ASCII lowercase of a sequence.
pub open spec fn ascii_lower_seq(s: Seq<char>) -> Seq<char> {
    s.map_values(|c: char| ascii_lower(c))
}

/// ASCII lowercase of one character: 'A'..='Z' map to 'a'..='z', every
/// other character is unchanged.
pub fn to_ascii_lower(c: char) -> (r: char)
    ensures
        r == ascii_lower(c),
{
    if 'A' <= c && c <= 'Z' {
        let u: u32 = c as u32;
        let b: u8 = u as u8;
        assert(b == u) by (bit_vector)
            requires
                65 <= u <= 90,
                b == u as u8,
        ;
        (b + 32) as char
    } else {
        c
    }
}

/// ASCII lowercase copy of a sequence (`str::to_ascii_lowercase`).
pub fn ascii_lower_chars(v: &[char]) -> (r: Vec<char>)
    ensures
        r@ == ascii_lower_seq(v@),
{
    let mut r: Vec<char> = Vec::new();
    let mut i: usize = 0;
    while i < v.len()
        invariant
            i <= v.len(),
            r@ == ascii_lower_seq(v@.take(i as int)),
        decreases v.len() - i,
    {
        r.push(to_ascii_lower(v[i]));
        assert(ascii_lower_seq(v@.take(i + 1)) == ascii_lower_seq(v@.take(i as int)).push(
            ascii_lower(v@[i as int]),
        ));
        i += 1;
    }
    assert(v@.take(v.len() as int) == v@);
    r
}

// ---------------------------------------------------------------- prefixes

/// Whether `p` is a prefix of `s`.
pub fn starts_with_chars(s: &[char], p: &[char]) -> (r: bool)
    ensures
        r == (p@.len() <= s@.len() && s@.take(p@.len() as int) == p@),
{
    if p.len() > s.len() {
        return false;
    }
    let mut i: usize = 0;
    while i < p.len()
        invariant
            p.len() <= s.len(),
            i <= p.len(),
            forall|k: int| 0 <= k < i ==> s@[k] == p@[k],
        decreases p.len() - i,
    {
        if s[i] != p[i] {
            assert(s@.take(p@.len() as int)[i as int] != p@[i as int]);
            return false;
        }
        i += 1;
    }
    assert(s@.take(p@.len() as int) =~= p@);
    true
}

/// Whether `p` is a suffix of `s`.
pub fn ends_with_chars(s: &[char], p: &[char]) -> (r: bool)
    ensures
        r == (p@.len() <= s@.len() && s@.skip(s@.len() - p@.len()) == p@),
{
    if p.len() > s.len() {
        return false;
    }
    let off = s.len() - p.len();
    let mut i: usize = 0;
    while i < p.len()
        invariant
            off + p.len() == s.len(),
            i <= p.len(),
            forall|k: int| 0 <= k < i ==> s@[off + k] == p@[k],
        decreases p.len() - i,
    {
        if s[off + i] != p[i] {
            assert(s@.skip(off as int)[i as int] != p@[i as int]);
            return false;
        }
        i += 1;
    }
    assert(s@.skip(off as int) =~= p@);
    true
}

/// The characters `v[from..to]`.
pub fn slice_chars(v: &[char], from: usize, to: usize) -> (r: Vec<char>)
    requires
        from <= to <= v.len(),
    ensures
        r@ == v@.subrange(from as int, to as int),
{
    let mut r: Vec<char> = Vec::new();
    let mut k: usize = from;
    while k < to
        invariant
            from <= k <= to <= v.len(),
            r@ == v@.subrange(from as int, k as int),
        decreases to - k,
    {
        r.push(v[k]);
        assert(v@.subrange(from as int, k + 1) == v@.subrange(from as int, k as int).push(
            v@[k as int],
        ));
        k += 1;
    }
    r
}

/// Index of the first occurrence of `c` in `v`, if any.
pub fn find_char(v: &[char], c: char) -> (r: Option<usize>)
    ensures
        match r {
            Some(i) => i < v@.len() && v@[i as int] == c && forall|k: int|
                0 <= k < i ==> v@[k] != c,
            None => forall|k: int| 0 <= k < v@.len() ==> v@[k] != c,
        },
{
    let mut i: usize = 0;
    while i < v.len()
        invariant
            i <= v.len(),
            forall|k: int| 0 <= k < i ==> v@[k] != c,
        decreases v.len() - i,
    {
        if v[i] == c {
            return Some(i);
        }
        i += 1;
    }
    None
}

/// Index of the last occurrence of `c` in `v`, if any.
pub fn rfind_char(v: &[char], c: char) -> (r: Option<usize>)
    ensures
        match r {
            Some(i) => i < v@.len() && v@[i as int] == c && forall|k: int|
                i < k < v@.len() ==> v@[k] != c,
            None => forall|k: int| 0 <= k < v@.len() ==> v@[k] != c,
        },
{
    let mut i: usize = v.len();
    while i > 0
        invariant
            i <= v.len(),
            forall|k: int| i <= k < v@.len() ==> v@[k] != c,
        decreases i,
    {
        if v[i - 1] == c {
            return Some(i - 1);
        }
        i -= 1;
    }
    None
}

/// Whether `c` occurs in `v`.
pub fn contains_char(v: &[char], c: char) -> (r: bool)
    ensures
        r == v@.contains(c),
{
    match find_char(v, c) {
        Some(i) => {
            assert(v@[i as int] == c);
            true
        },
        None => false,
    }
}

/// `p` occurs somewhere in `s`.
pub open spec fn has_infix(s: Seq<char>, p: Seq<char>) -> bool {
    exists|i: int| 0 <= i && i + p.len() <= s.len() && #[trigger] s.subrange(i, i + p.len()) == p
}

/// Whether `p` occurs somewhere in `s`.
pub fn contains_chars(s: &[char], p: &[char]) -> (r: bool)
    ensures
        r == has_infix(s@, p@),
{
    if p.len() > s.len() {
        return false;
    }
    let last = s.len() - p.len();
    let mut i: usize = 0;
    loop
        invariant
            i <= last,
            last + p@.len() == s@.len(),
            forall|k: int| 0 <= k < i ==> #[trigger] s@.subrange(k, k + p@.len()) != p@,
        decreases last - i,
    {
        let rest = slice_chars(s, i, s.len());
        let hit = starts_with_chars(&rest, p);
        assert(rest@.take(p@.len() as int) =~= s@.subrange(i as int, i + p@.len()));
        if hit {
            return true;
        }
        if i == last {
            assert forall|k: int| 0 <= k && k + p@.len() <= s@.len() implies #[trigger] s@.subrange(
                k,
                k + p@.len(),
            ) != p@ by {
                if k < i {
                } else {
                    assert(k == i);
                }
            }
            return false;
        }
        i += 1;
    }
}


// ---------------------------------------------------------------- splitting

/// Pieces of `s` between occurrences of `c` (`str::split`); there is always
/// at least one piece.
pub open spec fn split_on(s: Seq<char>, c: char) -> Seq<Seq<char>>
    decreases s.len(),
{
    if s.len() == 0 {
        seq![Seq::<char>::empty()]
    } else {
        let prev = split_on(s.drop_last(), c);
        if s.last() == c {
            prev.push(Seq::<char>::empty())
        } else {
            prev.update(prev.len() - 1, prev.last().push(s.last()))
        }
    }
}

pub proof fn lemma_split_on_nonempty(s: Seq<char>, c: char)
    ensures
        split_on(s, c).len() >= 1,
    decreases s.len(),
{
    if s.len() > 0 {
        lemma_split_on_nonempty(s.drop_last(), c);
    }
}

/// The views of a list of character vectors.
pub open spec fn views(v: Seq<Vec<char>>) -> Seq<Seq<char>> {
    v.map_values(|x: Vec<char>| x@)
}

/// The views of a list of strings.
pub open spec fn str_views(v: Seq<String>) -> Seq<Seq<char>> {
    v.map_values(|x: String| x@)
}

/// Splits `v` on every `c`.
pub fn split_chars(v: &[char], c: char) -> (r: Vec<Vec<char>>)
    ensures
        views(r@) == split_on(v@, c),
{
    let mut done: Vec<Vec<char>> = Vec::new();
    let mut cur: Vec<char> = Vec::new();
    let mut i: usize = 0;
    while i < v.len()
        invariant
            i <= v.len(),
            split_on(v@.take(i as int), c) == views(done@).push(cur@),
        decreases v.len() - i,
    {
        let ghost prev = views(done@).push(cur@);
        assert(v@.take(i + 1).drop_last() == v@.take(i as int));
        if v[i] == c {
            let old_cur = cur;
            done.push(old_cur);
            cur = Vec::new();
            assert(views(done@) =~= prev.drop_last().push(old_cur@));
            assert(views(done@).push(cur@) =~= prev.push(Seq::<char>::empty()));
        } else {
            cur.push(v[i]);
            assert(views(done@).push(cur@) =~= prev.update(prev.len() - 1, prev.last().push(v@[i as int])));
        }
        i += 1;
    }
    assert(v@.take(v.len() as int) == v@);
    done.push(cur);
    assert(views(done@) =~= split_on(v@, c));
    done
}

/// Pieces of a string split on `c`, as strings.
pub fn split_str(s: &str, c: char) -> (r: Vec<String>)
    ensures
        str_views(r@) == split_on(s@, c),
{
    let v = chars_of(s);
    let parts = split_chars(&v, c);
    let mut r: Vec<String> = Vec::new();
    let mut i: usize = 0;
    while i < parts.len()
        invariant
            i <= parts.len(),
            views(parts@) == split_on(s@, c),
            r@.len() == i,
            str_views(r@) == views(parts@).take(i as int),
        decreases parts.len() - i,
    {
        let ghost before = r@;
        let piece = string_of(&parts[i]);
        r.push(piece);
        assert(r@ == before.push(piece));
        assert(before.len() == i);
        assert(r@.len() == i + 1);
        assert(str_views(r@) =~= views(parts@).take(i + 1)) by {
            assert forall|k: int| 0 <= k < i + 1 implies str_views(r@)[k] == views(parts@).take(i + 1)[k] by {
                if k < i {
                    assert(str_views(before)[k] == views(parts@).take(i as int)[k]);
                    assert(r@[k] == before[k]);
                } else {
                    assert(r@[k] == piece);
                }
            }
        }
        i += 1;
    }
    assert(views(parts@).take(parts@.len() as int) == views(parts@));
    r
}

// ---------------------------------------------------------------- joining

/// `parts` joined with `sep` between neighbours (`[String]::join`).
pub open spec fn join(parts: Seq<Seq<char>>, sep: Seq<char>) -> Seq<char>
    decreases parts.len(),
{
    if parts.len() == 0 {
        Seq::<char>::empty()
    } else if parts.len() == 1 {
        parts[0]
    } else {
        join(parts.drop_last(), sep) + sep + parts.last()
    }
}

/// Joins strings with a separator.
pub fn join_strings(parts: &Vec<String>, sep: &str) -> (r: String)
    ensures
        r@ == join(str_views(parts@), sep@),
{
    let mut r = String::new();
    let mut i: usize = 0;
    while i < parts.len()
        invariant
            i <= parts.len(),
            r@ == join(str_views(parts@).take(i as int), sep@),
        decreases parts.len() - i,
    {
        let ghost before = str_views(parts@).take(i as int);
        assert(str_views(parts@).take(i + 1).drop_last() == before);
        if i > 0 {
            push_str(&mut r, sep);
        }
        push_str(&mut r, parts[i].as_str());
        i += 1;
    }
    assert(str_views(parts@).take(parts@.len() as int) == str_views(parts@));
    r
}

// ---------------------------------------------------------------- integers

/// Whether every character is an ASCII digit.
pub open spec fn all_digits(s: Seq<char>) -> bool {
    forall|i: int| 0 <= i < s.len() ==> '0' <= #[trigger] s[i] <= '9'
}

/// The value of a string of decimal digits.
pub open spec fn digits_value(s: Seq<char>) -> int
    decreases s.len(),
{
    if s.len() == 0 {
        0
    } else {
        digits_value(s.drop_last()) * 10 + ((s.last() as u32) - ('0' as u32))
    }
}

pub proof fn lemma_digits_value_prefix(s: Seq<char>, k: int)
    requires
        all_digits(s),
        0 <= k <= s.len(),
    ensures
        digits_value(s.take(k)) <= digits_value(s),
        digits_value(s) >= 0,
    decreases s.len(),
{
    if s.len() > 0 {
        assert(all_digits(s.drop_last()));
        if k < s.len() {
            assert(s.drop_last().take(k) == s.take(k));
            lemma_digits_value_prefix(s.drop_last(), k);
        } else {
            assert(s.take(k) == s);
            lemma_digits_value_prefix(s.drop_last(), 0);
        }
    }
}

/// `str::parse::<i64>`: an optional sign, then at least one digit, in range.
pub open spec fn parse_i64(s: Seq<char>) -> Option<i64> {
    let neg = s.len() > 0 && s[0] == '-';
    let d = if s.len() > 0 && (s[0] == '-' || s[0] == '+') {
        s.drop_first()
    } else {
        s
    };
    if d.len() == 0 || !all_digits(d) {
        None
    } else {
        let v = if neg {
            -digits_value(d)
        } else {
            digits_value(d)
        };
        if i64::MIN <= v <= i64::MAX {
            Some(v as i64)
        } else {
            None
        }
    }
}

/// `str::parse::<u16>`: an optional `+`, then at least one digit, in range.
pub open spec fn parse_u16(s: Seq<char>) -> Option<u16> {
    let d = if s.len() > 0 && s[0] == '+' {
        s.drop_first()
    } else {
        s
    };
    if d.len() == 0 || !all_digits(d) || digits_value(d) > u16::MAX {
        None
    } else {
        Some(digits_value(d) as u16)
    }
}

/// The value of `d` when it is a non-empty digit string whose value is at
/// most `bound`.
fn digits_at_most(d: &[char], bound: u64) -> (r: Option<u64>)
    requires
        bound >= 9,
    ensures
        match r {
            Some(v) => d@.len() > 0 && all_digits(d@) && v == digits_value(d@) && v <= bound,
            None => !(d@.len() > 0 && all_digits(d@) && digits_value(d@) <= bound),
        },
{
    if d.len() == 0 {
        return None;
    }
    let mut acc: u64 = 0;
    let mut i: usize = 0;
    while i < d.len()
        invariant
            i <= d.len(),
            all_digits(d@.take(i as int)),
            acc == digits_value(d@.take(i as int)),
            acc <= bound,
            bound >= 9,
        decreases d.len() - i,
    {
        let c = d[i];
        if !('0' <= c && c <= '9') {
            assert(!all_digits(d@));
            return None;
        }
        let dv = (c as u32 - '0' as u32) as u64;
        assert(d@.take(i + 1).drop_last() == d@.take(i as int));
        if acc > (bound - dv) / 10 {
            proof {
                assert(digits_value(d@.take(i + 1)) > bound) by (nonlinear_arith)
                    requires
                        digits_value(d@.take(i + 1)) == acc * 10 + dv,
                        acc > (bound - dv) / 10,
                        dv <= 9,
                        dv <= bound || acc * 10 + dv > bound,
                ;
                if all_digits(d@) {
                    lemma_digits_value_prefix(d@, i + 1);
                }
            }
            return None;
        }
        proof {
            assert(acc * 10 + dv <= bound) by (nonlinear_arith)
                requires
                    acc <= (bound - dv) / 10,
                    dv <= bound,
            ;
        }
        acc = acc * 10 + dv;
        i += 1;
    }
    assert(d@.take(d@.len() as int) == d@);
    Some(acc)
}

/// Parses a signed 64-bit integer like `str::parse::<i64>`.
pub fn parse_i64_chars(s: &[char]) -> (r: Option<i64>)
    ensures
        r == parse_i64(s@),
{
    let neg = s.len() > 0 && s[0] == '-';
    let d = if s.len() > 0 && (s[0] == '-' || s[0] == '+') {
        slice_chars(s, 1, s.len())
    } else {
        slice_chars(s, 0, s.len())
    };
    assert(s@.subrange(1, s@.len() as int) == s@.drop_first() || s@.len() == 0);
    assert(s@.subrange(0, s@.len() as int) == s@);
    let bound: u64 = if neg {
        9223372036854775808
    } else {
        9223372036854775807
    };
    match digits_at_most(&d, bound) {
        Some(v) => {
            if neg {
                Some((-(v as i128)) as i64)
            } else {
                Some(v as i64)
            }
        },
        None => None,
    }
}

/// Parses an unsigned 16-bit integer like `str::parse::<u16>`.
pub fn parse_u16_chars(s: &[char]) -> (r: Option<u16>)
    ensures
        r == parse_u16(s@),
{
    let d = if s.len() > 0 && s[0] == '+' {
        slice_chars(s, 1, s.len())
    } else {
        slice_chars(s, 0, s.len())
    };
    assert(s@.subrange(1, s@.len() as int) == s@.drop_first() || s@.len() == 0);
    assert(s@.subrange(0, s@.len() as int) == s@);
    match digits_at_most(&d, 65535) {
        Some(v) => Some(v as u16),
        None => None,
    }
}

// ---------------------------------------------------------------- unicode case

/// The result of std `str::to_lowercase` (full Unicode lowercase mapping).
pub uninterp spec fn lowercase(s: Seq<char>) -> Seq<char>;

/// Unicode lowercase copy of a string (std `str::to_lowercase`). On ASCII
/// text the Unicode mapping lowers 'A'..='Z' and keeps every other
/// character, which is all that is claimed beyond the name.
#[verifier::external_body]
pub(crate) fn to_lowercase(s: &str) -> (r: String)
    ensures
        r@ == lowercase(s@),
        is_ascii_seq(s@) ==> r@ == ascii_lower_seq(s@),
{
    s.to_lowercase()
}


// ---------------------------------------------------------------- positions

/// Position of the first `c` in `s`.
pub open spec fn first_index(s: Seq<char>, c: char) -> Option<nat>
    decreases s.len(),
{
    if s.len() == 0 {
        None
    } else if s[0] == c {
        Some(0)
    } else {
        match first_index(s.drop_first(), c) {
            Some(i) => Some(i + 1),
            None => None,
        }
    }
}

/// Position of the last `c` in `s`.
pub open spec fn last_index(s: Seq<char>, c: char) -> Option<nat>
    decreases s.len(),
{
    if s.len() == 0 {
        None
    } else if s.last() == c {
        Some((s.len() - 1) as nat)
    } else {
        last_index(s.drop_last(), c)
    }
}

pub proof fn lemma_first_index(s: Seq<char>, c: char)
    ensures
        match first_index(s, c) {
            Some(i) => i < s.len() && s[i as int] == c && forall|k: int| 0 <= k < i ==> s[k] != c,
            None => forall|k: int| 0 <= k < s.len() ==> s[k] != c,
        },
    decreases s.len(),
{
    if s.len() > 0 && s[0] != c {
        lemma_first_index(s.drop_first(), c);
        match first_index(s.drop_first(), c) {
            Some(i) => {
                assert forall|k: int| 0 <= k < i + 1 implies s[k] != c by {
                    if k > 0 {
                        assert(s[k] == s.drop_first()[k - 1]);
                    }
                }
            },
            None => {
                assert forall|k: int| 0 <= k < s.len() implies s[k] != c by {
                    if k > 0 {
                        assert(s[k] == s.drop_first()[k - 1]);
                    }
                }
            },
        }
    }
}

pub proof fn lemma_last_index(s: Seq<char>, c: char)
    ensures
        match last_index(s, c) {
            Some(i) => i < s.len() && s[i as int] == c && forall|k: int| i < k < s.len() ==> s[k] != c,
            None => forall|k: int| 0 <= k < s.len() ==> s[k] != c,
        },
    decreases s.len(),
{
    if s.len() > 0 && s.last() != c {
        lemma_last_index(s.drop_last(), c);
        match last_index(s.drop_last(), c) {
            Some(i) => {
                assert forall|k: int| i < k < s.len() implies s[k] != c by {
                    if k < s.len() - 1 {
                        assert(s[k] == s.drop_last()[k]);
                    }
                }
            },
            None => {
                assert forall|k: int| 0 <= k < s.len() implies s[k] != c by {
                    if k < s.len() - 1 {
                        assert(s[k] == s.drop_last()[k]);
                    }
                }
            },
        }
    }
}

/// A position characterised as the first occurrence is `first_index`.
pub proof fn lemma_first_index_unique(s: Seq<char>, c: char, i: int)
    requires
        0 <= i < s.len(),
        s[i] == c,
        forall|k: int| 0 <= k < i ==> s[k] != c,
    ensures
        first_index(s, c) == Some(i as nat),
{
    lemma_first_index(s, c);
    match first_index(s, c) {
        Some(j) => {
            if (j as int) < i {
                assert(s[j as int] != c);
            }
            if (j as int) > i {
                assert(s[i] != c);
            }
        },
        None => {
            assert(s[i] != c);
        },
    }
}

/// The first position of `c` in `v`.
pub fn first_pos(v: &[char], c: char) -> (r: Option<usize>)
    ensures
        match r {
            Some(i) => first_index(v@, c) == Some(i as nat),
            None => first_index(v@, c) is None,
        },
{
    proof {
        lemma_first_index(v@, c);
    }
    match find_char(v, c) {
        Some(i) => {
            proof {
                lemma_first_index_unique(v@, c, i as int);
            }
            Some(i)
        },
        None => {
            proof {
                if first_index(v@, c) is Some {
                    let j = first_index(v@, c)->0;
                    assert(v@[j as int] == c);
                }
            }
            None
        },
    }
}

/// The last position of `c` in `v`.
pub fn last_pos(v: &[char], c: char) -> (r: Option<usize>)
    ensures
        match r {
            Some(i) => last_index(v@, c) == Some(i as nat),
            None => last_index(v@, c) is None,
        },
{
    proof {
        lemma_last_index(v@, c);
    }
    match rfind_char(v, c) {
        Some(i) => {
            proof {
                match last_index(v@, c) {
                    Some(j) => {
                        if (j as int) < (i as int) {
                            assert(v@[i as int] != c);
                        }
                        if (j as int) > (i as int) {
                            assert(v@[j as int] != c);
                        }
                    },
                    None => {
                        assert(v@[i as int] != c);
                    },
                }
            }
            Some(i)
        },
        None => {
            proof {
                if last_index(v@, c) is Some {
                    let j = last_index(v@, c)->0;
                    assert(v@[j as int] == c);
                }
            }
            None
        },
    }
}

// ---------------------------------------------------------------- utf-8 offsets

/// Length in bytes of the UTF-8 encoding of `s`.
pub open spec fn byte_len(s: Seq<char>) -> int
    decreases s.len(),
{
    if s.len() == 0 {
        0
    } else {
        utf8_len(s[0]) + byte_len(s.drop_first())
    }
}

/// Number of leading characters of `s` whose encoding fits in `b` bytes.
pub open spec fn char_index(s: Seq<char>, b: int) -> nat
    decreases s.len(),
{
    if s.len() == 0 || utf8_len(s[0]) > b {
        0
    } else {
        1 + char_index(s.drop_first(), b - utf8_len(s[0]))
    }
}

/// The last character boundary at or before byte `b` (the end of `s`
/// when `b` lies beyond it).
pub open spec fn boundary_at(s: Seq<char>, b: int) -> int {
    byte_len(s.take(char_index(s, b) as int))
}

/// Byte `b` starts a character of `s`, or is its end.
pub open spec fn on_boundary(s: Seq<char>, b: int) -> bool {
    0 <= b && boundary_at(s, b) == b
}

pub proof fn lemma_byte_len_nonneg(s: Seq<char>)
    ensures
        byte_len(s) >= s.len(),
    decreases s.len(),
{
    if s.len() > 0 {
        lemma_byte_len_nonneg(s.drop_first());
    }
}

pub proof fn lemma_byte_len_concat(a: Seq<char>, b: Seq<char>)
    ensures
        byte_len(a + b) == byte_len(a) + byte_len(b),
    decreases a.len(),
{
    if a.len() == 0 {
        assert(a + b =~= b);
    } else {
        assert((a + b)[0] == a[0]);
        assert((a + b).drop_first() =~= a.drop_first() + b);
        lemma_byte_len_concat(a.drop_first(), b);
    }
}

pub proof fn lemma_byte_len_single(c: char)
    ensures
        byte_len(seq![c]) == utf8_len(c),
{
    assert(seq![c].drop_first() =~= Seq::<char>::empty());
    assert(byte_len(Seq::<char>::empty()) == 0);
}

pub proof fn lemma_byte_len_take_succ(s: Seq<char>, i: int)
    requires
        0 <= i < s.len(),
    ensures
        byte_len(s.take(i + 1)) == byte_len(s.take(i)) + utf8_len(s[i]),
{
    assert(s.take(i + 1) =~= s.take(i) + seq![s[i]]);
    lemma_byte_len_concat(s.take(i), seq![s[i]]);
    lemma_byte_len_single(s[i]);
}

/// Longer prefixes take strictly more bytes.
pub proof fn lemma_byte_len_take_mono(s: Seq<char>, i: int, j: int)
    requires
        0 <= i <= j <= s.len(),
    ensures
        byte_len(s.take(i)) <= byte_len(s.take(j)),
        i < j ==> byte_len(s.take(i)) < byte_len(s.take(j)),
    decreases j - i,
{
    if i < j {
        lemma_byte_len_take_mono(s, i, j - 1);
        lemma_byte_len_take_succ(s, j - 1);
    }
}

pub proof fn lemma_byte_len_split(s: Seq<char>, i: int)
    requires
        0 <= i <= s.len(),
    ensures
        byte_len(s) == byte_len(s.take(i)) + byte_len(s.skip(i)),
{
    assert(s =~= s.take(i) + s.skip(i));
    lemma_byte_len_concat(s.take(i), s.skip(i));
}

/// `char_index` picks the longest prefix that fits in `b` bytes.
pub proof fn lemma_char_index(s: Seq<char>, b: int)
    requires
        b >= 0,
    ensures
        char_index(s, b) <= s.len(),
        byte_len(s.take(char_index(s, b) as int)) <= b,
        char_index(s, b) < s.len() ==> byte_len(s.take(char_index(s, b) as int + 1)) > b,
    decreases s.len(),
{
    let k = char_index(s, b);
    if s.len() == 0 {
        assert(s.take(0) =~= Seq::<char>::empty());
    } else if utf8_len(s[0]) > b {
        assert(s.take(0) =~= Seq::<char>::empty());
        assert(s.take(1) =~= seq![s[0]]);
        lemma_byte_len_single(s[0]);
    } else {
        let t = s.drop_first();
        let u = utf8_len(s[0]);
        lemma_char_index(t, b - u);
        let m = char_index(t, b - u);
        assert(s.take(k as int) =~= seq![s[0]] + t.take(m as int));
        lemma_byte_len_concat(seq![s[0]], t.take(m as int));
        lemma_byte_len_single(s[0]);
        if k < s.len() {
            assert(s.take(k as int + 1) =~= seq![s[0]] + t.take(m as int + 1));
            lemma_byte_len_concat(seq![s[0]], t.take(m as int + 1));
        }
    }
}

/// A byte offset that ends a prefix of `k` characters indexes exactly
/// those `k` characters.
pub proof fn lemma_char_index_exact(s: Seq<char>, k: int)
    requires
        0 <= k <= s.len(),
    ensures
        char_index(s, byte_len(s.take(k))) == k,
        on_boundary(s, byte_len(s.take(k))),
{
    let b = byte_len(s.take(k));
    lemma_byte_len_take_mono(s, 0, k);
    assert(s.take(0) =~= Seq::<char>::empty());
    lemma_char_index(s, b);
    let ci = char_index(s, b) as int;
    if ci < k {
        lemma_byte_len_take_mono(s, ci + 1, k);
    } else if ci > k {
        lemma_byte_len_take_mono(s, k, ci);
    }
}

/// The boundary found for `b` lies at or before `b`, and within `s`.
pub proof fn lemma_boundary_at(s: Seq<char>, b: int)
    requires
        b >= 0,
    ensures
        0 <= boundary_at(s, b) <= b,
        boundary_at(s, b) <= byte_len(s),
        on_boundary(s, boundary_at(s, b)),
{
    lemma_char_index(s, b);
    let k = char_index(s, b) as int;
    lemma_byte_len_take_mono(s, 0, k);
    lemma_byte_len_take_mono(s, k, s.len() as int);
    assert(s.take(0) =~= Seq::<char>::empty());
    assert(s.take(s.len() as int) =~= s);
    lemma_char_index_exact(s, k);
}

/// The UTF-8 encoding vstd describes has `byte_len` bytes.
pub proof fn lemma_encode_utf8_len(s: Seq<char>)
    ensures
        vstd::utf8::encode_utf8(s).len() == byte_len(s),
    decreases s.len(),
{
    if s.len() > 0 {
        vstd::utf8::char_is_scalar(s[0]);
        lemma_encode_utf8_len(s.drop_first());
    }
}

/// Byte length of a string slice (std `str::len`).
pub fn str_byte_len(s: &str) -> (n: usize)
    ensures
        byte_len(s@) <= usize::MAX ==> n == byte_len(s@),
{
    proof {
        lemma_encode_utf8_len(s@);
    }
    s.len()
}

/// Bytes taken by the first `k` characters of `v`.
pub fn prefix_byte_len(v: &[char], k: usize) -> (n: usize)
    requires
        k <= v@.len(),
        byte_len(v@) <= usize::MAX,
    ensures
        n == byte_len(v@.take(k as int)),
{
    let mut i: usize = 0;
    let mut acc: usize = 0;
    proof {
        assert(v@.take(0) =~= Seq::<char>::empty());
        lemma_byte_len_take_mono(v@, k as int, v@.len() as int);
        assert(v@.take(v@.len() as int) =~= v@);
    }
    while i < k
        invariant
            i <= k <= v@.len(),
            byte_len(v@) <= usize::MAX,
            byte_len(v@.take(k as int)) <= byte_len(v@),
            acc == byte_len(v@.take(i as int)),
        decreases k - i,
    {
        proof {
            lemma_byte_len_take_succ(v@, i as int);
            lemma_byte_len_take_mono(v@, i + 1, k as int);
        }
        acc = acc + crate::model::char_utf8_len(v[i]);
        i += 1;
    }
    acc
}

/// Number of leading characters of `v` that fit in `b` bytes.
pub fn char_index_of(v: &[char], b: usize) -> (k: usize)
    ensures
        k == char_index(v@, b as int),
{
    let mut i: usize = 0;
    let mut used: usize = 0;
    assert(v@.skip(0) =~= v@);
    while i < v.len() && crate::model::char_utf8_len(v[i]) <= b - used
        invariant
            i <= v.len(),
            used <= b,
            char_index(v@, b as int) == i + char_index(v@.skip(i as int), b - used),
        decreases v.len() - i,
    {
        let ghost rest = v@.skip(i as int);
        assert(rest.drop_first() =~= v@.skip(i + 1));
        used = used + crate::model::char_utf8_len(v[i]);
        i += 1;
    }
    i
}

} // verus!
