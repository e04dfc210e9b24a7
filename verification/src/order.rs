//! Orders and stable insertion sorting, with what every sort in the
//! library keeps: the same elements, in order.
use vstd::prelude::*;

use crate::text::seq_lt;

verus! {

broadcast use vstd::seq_lib::group_to_multiset_ensures;

/// `x` put into `s` after every element it does not sort before.
pub open spec fn ins_by<T>(s: Seq<T>, x: T, lt: spec_fn(T, T) -> bool) -> Seq<T>
    decreases s.len(),
{
    if s.len() == 0 || !lt(x, s.last()) {
        s.push(x)
    } else {
        ins_by(s.drop_last(), x, lt).push(s.last())
    }
}

/// Stable insertion sort of `s` by `lt`.
pub open spec fn sort_by<T>(s: Seq<T>, lt: spec_fn(T, T) -> bool) -> Seq<T>
    decreases s.len(),
{
    if s.len() == 0 {
        s
    } else {
        ins_by(sort_by(s.drop_last(), lt), s.last(), lt)
    }
}

/// `lt` is a strict weak order: never both ways, and whatever sorts
/// before `c` sorts before every `b` or `b` sorts before `c`.
pub open spec fn weak_order<T>(lt: spec_fn(T, T) -> bool) -> bool {
    &&& forall|a: T, b: T| #[trigger] lt(a, b) ==> !lt(b, a)
    &&& forall|a: T, b: T, c: T|
        #![trigger lt(a, c), lt(a, b)]
        #![trigger lt(a, c), lt(b, c)]
        lt(a, c) ==> lt(a, b) || lt(b, c)
}

/// No element of `s` sorts before one that comes earlier.
pub open spec fn sorted_by<T>(s: Seq<T>, lt: spec_fn(T, T) -> bool) -> bool {
    forall|i: int, j: int| 0 <= i < j < s.len() ==> !lt(#[trigger] s[j], #[trigger] s[i])
}

/// No two elements of `s` share a key.
pub open spec fn keys_distinct<T, K>(s: Seq<T>, key: spec_fn(T) -> K) -> bool {
    forall|i: int, j: int| 0 <= i < j < s.len() ==> key(#[trigger] s[i]) != key(#[trigger] s[j])
}

/// Where `ins_by` puts `x`: after the elements it does not sort before.
pub proof fn lemma_ins_by_split<T>(s: Seq<T>, x: T, lt: spec_fn(T, T) -> bool) -> (j: int)
    ensures
        0 <= j <= s.len(),
        ins_by(s, x, lt) == s.insert(j, x),
        j == 0 || !lt(x, s[j - 1]),
        forall|k: int| j <= k < s.len() ==> lt(x, #[trigger] s[k]),
    decreases s.len(),
{
    if s.len() == 0 || !lt(x, s.last()) {
        assert(s.push(x) =~= s.insert(s.len() as int, x));
        s.len() as int
    } else {
        let j = lemma_ins_by_split(s.drop_last(), x, lt);
        assert(s.drop_last().insert(j, x).push(s.last()) =~= s.insert(j, x));
        assert forall|k: int| j <= k < s.len() implies lt(x, #[trigger] s[k]) by {
            if k < s.len() - 1 {
                assert(s[k] == s.drop_last()[k]);
            }
        }
        j
    }
}

/// Sorting keeps the elements (as a multiset), and with a strict weak
/// order the result is in order.
pub proof fn lemma_sort_by<T>(s: Seq<T>, lt: spec_fn(T, T) -> bool)
    ensures
        sort_by(s, lt).len() == s.len(),
        sort_by(s, lt).to_multiset() == s.to_multiset(),
        weak_order(lt) ==> sorted_by(sort_by(s, lt), lt),
    decreases s.len(),
{
    if s.len() > 0 {
        let d = s.drop_last();
        let x = s.last();
        lemma_sort_by(d, lt);
        let r0 = sort_by(d, lt);
        let j = lemma_ins_by_split(r0, x, lt);
        let r = r0.insert(j, x);
        assert(d.push(x) =~= s);
        if weak_order(lt) {
            assert forall|i: int, k: int| 0 <= i < k < r.len() implies !lt(
                #[trigger] r[k],
                #[trigger] r[i],
            ) by {
                if k < j {
                    assert(r[i] == r0[i] && r[k] == r0[k]);
                } else if k == j {
                    assert(r[i] == r0[i] && r[k] == x);
                    if i < j - 1 {
                        assert(!lt(r0[j - 1], r0[i]));
                        assert(!lt(x, r0[j - 1]));
                        if lt(x, r0[i]) {
                            assert(lt(x, r0[j - 1]) || lt(r0[j - 1], r0[i]));
                        }
                    }
                } else if i < j {
                    assert(r[i] == r0[i] && r[k] == r0[k - 1]);
                } else if i == j {
                    assert(r[i] == x && r[k] == r0[k - 1]);
                    assert(lt(x, r0[k - 1]));
                } else {
                    assert(r[i] == r0[i - 1] && r[k] == r0[k - 1]);
                }
            }
        }
    }
}

/// Sorting keeps keys apart that were apart.
pub proof fn lemma_sort_by_distinct<T, K>(s: Seq<T>, lt: spec_fn(T, T) -> bool, key: spec_fn(T) -> K)
    requires
        keys_distinct(s, key),
    ensures
        keys_distinct(sort_by(s, lt), key),
    decreases s.len(),
{
    if s.len() > 0 {
        let d = s.drop_last();
        let x = s.last();
        assert(keys_distinct(d, key)) by {
            assert forall|i: int, k: int| 0 <= i < k < d.len() implies key(#[trigger] d[i]) != key(
                #[trigger] d[k],
            ) by {
                assert(d[i] == s[i] && d[k] == s[k]);
            }
        }
        lemma_sort_by_distinct(d, lt, key);
        lemma_sort_by(d, lt);
        let r0 = sort_by(d, lt);
        let j = lemma_ins_by_split(r0, x, lt);
        let r = r0.insert(j, x);
        assert forall|i: int| 0 <= i < r0.len() implies key(#[trigger] r0[i]) != key(x) by {
            assert(r0.to_multiset().count(r0[i]) > 0);
            assert(d.to_multiset().count(r0[i]) > 0);
            assert(d.contains(r0[i]));
            let m = choose|m: int| 0 <= m < d.len() && d[m] == r0[i];
            assert(s[m] == d[m]);
            assert(s[s.len() - 1] == x);
        }
        assert forall|i: int, k: int| 0 <= i < k < r.len() implies key(#[trigger] r[i]) != key(
            #[trigger] r[k],
        ) by {
            if k < j {
                assert(r[i] == r0[i] && r[k] == r0[k]);
            } else if k == j {
                assert(r[i] == r0[i] && r[k] == x);
            } else if i < j {
                assert(r[i] == r0[i] && r[k] == r0[k - 1]);
            } else if i == j {
                assert(r[i] == x && r[k] == r0[k - 1]);
            } else {
                assert(r[i] == r0[i - 1] && r[k] == r0[k - 1]);
            }
        }
    }
}

/// Every element of a sorted sequence comes from the input.
pub proof fn lemma_sort_by_from<T>(s: Seq<T>, lt: spec_fn(T, T) -> bool, i: int)
    requires
        0 <= i < sort_by(s, lt).len(),
    ensures
        s.contains(sort_by(s, lt)[i]),
{
    lemma_sort_by(s, lt);
    let r = sort_by(s, lt);
    assert(r.to_multiset().count(r[i]) > 0);
}

/// `a` and `b` sort neither way round.
pub open spec fn tied<T>(lt: spec_fn(T, T) -> bool, a: T, b: T) -> bool {
    !lt(a, b) && !lt(b, a)
}

/// The elements tied with `c`.
pub open spec fn tied_with<T>(lt: spec_fn(T, T) -> bool, c: T) -> spec_fn(T) -> bool {
    |z: T| tied(lt, z, c)
}

proof fn lemma_filter_none<T>(s: Seq<T>, p: spec_fn(T) -> bool)
    requires
        forall|k: int| 0 <= k < s.len() ==> !p(#[trigger] s[k]),
    ensures
        s.filter(p) =~= Seq::<T>::empty(),
    decreases s.len(),
{
    reveal_with_fuel(Seq::filter, 1);
    if s.len() > 0 {
        assert forall|k: int| 0 <= k < s.drop_last().len() implies !p(#[trigger] s.drop_last()[k]) by {
            assert(s.drop_last()[k] == s[k]);
        }
        lemma_filter_none(s.drop_last(), p);
        assert(!p(s[s.len() - 1]));
    }
}

/// Sorting is stable: the elements tied with any `c` come out in the order
/// they came in.
pub proof fn lemma_sort_by_stable<T>(s: Seq<T>, lt: spec_fn(T, T) -> bool, c: T)
    requires
        weak_order(lt),
    ensures
        sort_by(s, lt).filter(tied_with(lt, c)) == s.filter(tied_with(lt, c)),
    decreases s.len(),
{
    let p = tied_with(lt, c);
    reveal_with_fuel(Seq::filter, 1);
    if s.len() > 0 {
        let d = s.drop_last();
        let x = s.last();
        lemma_sort_by_stable(d, lt, c);
        let r0 = sort_by(d, lt);
        let j = lemma_ins_by_split(r0, x, lt);
        let a = r0.take(j);
        let b = r0.skip(j);
        assert(r0 =~= a + b);
        assert(r0.insert(j, x) =~= a + (seq![x] + b));
        Seq::filter_distributes_over_add(a, b, p);
        Seq::filter_distributes_over_add(a, seq![x] + b, p);
        Seq::filter_distributes_over_add(seq![x], b, p);
        assert(seq![x].drop_last() =~= Seq::<T>::empty());
        assert(seq![x].last() == x);
        assert(Seq::<T>::empty().filter(p) =~= Seq::<T>::empty());
        assert(s =~= d.push(x));
        assert(d.push(x).drop_last() =~= d);
        if p(x) {
            assert forall|k: int| 0 <= k < b.len() implies !p(#[trigger] b[k]) by {
                assert(b[k] == r0[j + k]);
                assert(lt(x, r0[j + k]));
                if p(b[k]) {
                    // both tied with `c`, so tied with each other
                    assert(lt(x, b[k]) ==> lt(x, c) || lt(c, b[k]));
                }
            }
            lemma_filter_none(b, p);
            assert(seq![x].filter(p) =~= seq![x]);
            assert(r0.filter(p) =~= a.filter(p));
            assert(sort_by(s, lt).filter(p) =~= a.filter(p).push(x));
        } else {
            assert(seq![x].filter(p) =~= Seq::<T>::empty());
            assert(sort_by(s, lt).filter(p) =~= a.filter(p) + b.filter(p));
        }
    }
}

// ---------------------------------------------------------------- text order

proof fn lemma_seq_trichotomy(a: Seq<char>, b: Seq<char>, i: int)
    requires
        0 <= i <= a.len(),
        i <= b.len(),
        a.take(i) == b.take(i),
    ensures
        seq_lt(a, b) || seq_lt(b, a) || a == b,
    decreases a.len() - i,
{
    if i == a.len() || i == b.len() {
        if i < b.len() {
            assert(seq_lt(a, b));
        } else if i < a.len() {
            assert(seq_lt(b, a));
        } else {
            assert(a == a.take(i) && b == b.take(i));
        }
    } else if a[i] == b[i] {
        assert(a.take(i + 1) =~= a.take(i).push(a[i]));
        assert(b.take(i + 1) =~= b.take(i).push(b[i]));
        lemma_seq_trichotomy(a, b, i + 1);
    } else if (a[i] as u32) < (b[i] as u32) {
        assert(seq_lt(a, b));
    } else {
        let ca = a[i];
        let cb = b[i];
        if (ca as u32) == (cb as u32) {
            vstd::utf8::char_u32_cast(ca, ca as u32);
            vstd::utf8::char_u32_cast(cb, cb as u32);
        }
        assert(seq_lt(b, a));
    }
}

/// The order of text is a strict total order.
pub proof fn lemma_seq_lt_order(a: Seq<char>, b: Seq<char>, c: Seq<char>)
    ensures
        !seq_lt(a, a),
        seq_lt(a, b) || seq_lt(b, a) || a == b,
        seq_lt(a, b) && seq_lt(b, c) ==> seq_lt(a, c),
        seq_lt(a, b) ==> !seq_lt(b, a),
{
    assert(a.take(0) =~= b.take(0));
    lemma_seq_trichotomy(a, b, 0);
    assert(!seq_lt(a, a));
    if seq_lt(a, b) && seq_lt(b, c) {
        lemma_seq_lt_trans(a, b, c);
    }
    if seq_lt(a, b) && seq_lt(b, a) {
        lemma_seq_lt_trans(a, b, a);
    }
}

proof fn lemma_seq_lt_trans(a: Seq<char>, b: Seq<char>, c: Seq<char>)
    requires
        seq_lt(a, b),
        seq_lt(b, c),
    ensures
        seq_lt(a, c),
{
    let i = choose|i: int|
        #![trigger a.take(i), b.take(i)]
        0 <= i <= a.len() && i <= b.len() && a.take(i) == b.take(i) && ((i == a.len() && i
            < b.len()) || (i < a.len() && i < b.len() && (a[i] as u32) < (b[i] as u32)));
    let j = choose|j: int|
        #![trigger b.take(j), c.take(j)]
        0 <= j <= b.len() && j <= c.len() && b.take(j) == c.take(j) && ((j == b.len() && j
            < c.len()) || (j < b.len() && j < c.len() && (b[j] as u32) < (c[j] as u32)));
    if i < j {
        assert(b.take(j)[i] == c.take(j)[i]);
        assert(a.take(i) =~= c.take(i)) by {
            assert forall|k: int| 0 <= k < i implies a.take(i)[k] == c.take(i)[k] by {
                assert(a.take(i)[k] == b.take(i)[k]);
                assert(b.take(j)[k] == c.take(j)[k]);
            }
        }
        assert(seq_lt(a, c));
    } else if j < i {
        assert(a.take(i)[j] == b.take(i)[j]);
        assert(a.take(j) =~= c.take(j)) by {
            assert forall|k: int| 0 <= k < j implies a.take(j)[k] == c.take(j)[k] by {
                assert(a.take(i)[k] == b.take(i)[k]);
                assert(b.take(j)[k] == c.take(j)[k]);
            }
        }
        assert(seq_lt(a, c));
    } else {
        assert(a.take(i) =~= c.take(i));
        assert(seq_lt(a, c));
    }
}

/// Comparing by a text key is a strict weak order.
pub proof fn lemma_text_key_order<T>(key: spec_fn(T) -> Seq<char>)
    ensures
        weak_order(|a: T, b: T| seq_lt(key(a), key(b))),
{
    let lt = |a: T, b: T| seq_lt(key(a), key(b));
    assert forall|a: T, b: T| #[trigger] lt(a, b) implies !lt(b, a) by {
        lemma_seq_lt_order(key(a), key(b), key(b));
    }
    assert forall|a: T, b: T, c: T| lt(a, c) implies #[trigger] lt(a, b) || #[trigger] lt(b, c) by {
        lemma_seq_lt_order(key(a), key(b), key(c));
        lemma_seq_lt_order(key(b), key(c), key(a));
        lemma_seq_lt_order(key(c), key(a), key(b));
        lemma_seq_lt_order(key(c), key(b), key(a));
        lemma_seq_lt_order(key(b), key(a), key(c));
        lemma_seq_lt_order(key(a), key(c), key(b));
    }
}

/// Flag-first, then by a text key, is a strict weak order.
pub proof fn lemma_flag_text_order<T>(flag: spec_fn(T) -> bool, key: spec_fn(T) -> Seq<char>)
    ensures
        weak_order(
            |a: T, b: T|
                (flag(a) && !flag(b)) || (flag(a) == flag(b) && seq_lt(key(a), key(b))),
        ),
{
    let lt = |a: T, b: T| (flag(a) && !flag(b)) || (flag(a) == flag(b) && seq_lt(key(a), key(b)));
    assert forall|a: T, b: T| #[trigger] lt(a, b) implies !lt(b, a) by {
        lemma_seq_lt_order(key(a), key(b), key(b));
    }
    assert forall|a: T, b: T, c: T| lt(a, c) implies #[trigger] lt(a, b) || #[trigger] lt(b, c) by {
        lemma_seq_lt_order(key(a), key(b), key(c));
        lemma_seq_lt_order(key(b), key(c), key(a));
        lemma_seq_lt_order(key(c), key(a), key(b));
        lemma_seq_lt_order(key(c), key(b), key(a));
        lemma_seq_lt_order(key(b), key(a), key(c));
        lemma_seq_lt_order(key(a), key(c), key(b));
    }
}

} // verus!
