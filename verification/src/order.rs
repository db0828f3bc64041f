//! Code point order of keys and a stable sort of indices by key.
use vstd::prelude::*;

verus! {

/// `a` comes no later than `b` in the lexicographic order of their code
/// points, which is the order `str::cmp` gives (byte order of UTF-8 text).
pub open spec fn lex_le(a: Seq<char>, b: Seq<char>) -> bool
    decreases a.len(),
{
    if a.len() == 0 {
        true
    } else if b.len() == 0 {
        false
    } else if a[0] == b[0] {
        lex_le(a.drop_first(), b.drop_first())
    } else {
        (a[0] as int) < (b[0] as int)
    }
}

/// Merges two sequences of indices, each in key order, into one in key
/// order; on equal keys the index from `a` comes first.
pub open spec fn merge(keys: Seq<Seq<char>>, a: Seq<int>, b: Seq<int>) -> Seq<int>
    decreases a.len() + b.len(),
{
    if a.len() == 0 {
        b
    } else if b.len() == 0 {
        a
    } else if lex_le(keys[a[0]], keys[b[0]]) {
        seq![a[0]] + merge(keys, a.drop_first(), b)
    } else {
        seq![b[0]] + merge(keys, a, b.drop_first())
    }
}

/// The indices `lo..hi` in key order, equal keys in index order (merge sort).
pub open spec fn sort_range(keys: Seq<Seq<char>>, lo: int, hi: int) -> Seq<int>
    decreases hi - lo,
{
    if hi - lo <= 0 {
        seq![]
    } else if hi - lo == 1 {
        seq![lo]
    } else {
        let mid = lo + (hi - lo) / 2;
        merge(keys, sort_range(keys, lo, mid), sort_range(keys, mid, hi))
    }
}

/// The indices of `keys` in the order of a stable sort by key.
pub open spec fn sort_order(keys: Seq<Seq<char>>) -> Seq<int> {
    sort_range(keys, 0, keys.len() as int)
}

/// Every sequence comes no later than itself.
pub proof fn lemma_lex_le_reflexive(a: Seq<char>)
    ensures
        lex_le(a, a),
    decreases a.len(),
{
    if a.len() > 0 {
        lemma_lex_le_reflexive(a.drop_first());
    }
}

/// Of two sequences, one comes no later than the other.
pub proof fn lemma_lex_le_total(a: Seq<char>, b: Seq<char>)
    ensures
        lex_le(a, b) || lex_le(b, a),
    decreases a.len(),
{
    if a.len() > 0 && b.len() > 0 {
        if a[0] == b[0] {
            lemma_lex_le_total(a.drop_first(), b.drop_first());
        } else {
            assert((a[0] as int) != (b[0] as int));
        }
    }
}

/// Two sequences that each come no later than the other are equal.
pub proof fn lemma_lex_le_antisymmetric(a: Seq<char>, b: Seq<char>)
    requires
        lex_le(a, b),
        lex_le(b, a),
    ensures
        a == b,
    decreases a.len(),
{
    if a.len() > 0 && b.len() > 0 && a[0] == b[0] {
        lemma_lex_le_antisymmetric(a.drop_first(), b.drop_first());
        assert(a =~= seq![a[0]] + a.drop_first());
        assert(b =~= seq![b[0]] + b.drop_first());
    } else if a.len() > 0 && b.len() > 0 {
        assert((a[0] as int) != (b[0] as int));
    }
    if a.len() == 0 {
        assert(b.len() == 0);
        assert(a =~= b);
    }
}

/// The order is transitive.
pub proof fn lemma_lex_le_transitive(a: Seq<char>, b: Seq<char>, c: Seq<char>)
    requires
        lex_le(a, b),
        lex_le(b, c),
    ensures
        lex_le(a, c),
    decreases a.len(),
{
    if a.len() > 0 && b.len() > 0 && c.len() > 0 && a[0] == b[0] && b[0] == c[0] {
        lemma_lex_le_transitive(a.drop_first(), b.drop_first(), c.drop_first());
    }
}

/// Indices in `lo..hi`, each once, in key order, equal keys in index order.
pub open spec fn sorted_run(keys: Seq<Seq<char>>, s: Seq<int>, lo: int, hi: int) -> bool {
    &&& forall|i: int| 0 <= i < s.len() ==> lo <= #[trigger] s[i] < hi
    &&& forall|i: int, j: int| 0 <= i < j < s.len() ==> #[trigger] s[i] != #[trigger] s[j]
    &&& forall|i: int, j: int|
        0 <= i < j < s.len() ==> lex_le(keys[#[trigger] s[i]], keys[#[trigger] s[j]])
    &&& forall|i: int, j: int|
        0 <= i < j < s.len() && keys[#[trigger] s[i]] == keys[#[trigger] s[j]] ==> s[i] < s[j]
}

/// Merging two sorted runs of adjacent index ranges gives a sorted run of
/// their union, holding exactly their elements.
proof fn lemma_merge_sorted(keys: Seq<Seq<char>>, a: Seq<int>, b: Seq<int>, lo: int, mid: int, hi: int)
    requires
        sorted_run(keys, a, lo, mid),
        sorted_run(keys, b, mid, hi),
        0 <= lo <= mid <= hi <= keys.len(),
    ensures
        merge(keys, a, b).len() == a.len() + b.len(),
        forall|x: int| merge(keys, a, b).contains(x) <==> (a.contains(x) || b.contains(x)),
        sorted_run(keys, merge(keys, a, b), lo, hi),
    decreases a.len() + b.len(),
{
    let m = merge(keys, a, b);
    if a.len() == 0 {
        assert forall|x: int| m.contains(x) <==> (a.contains(x) || b.contains(x)) by {}
    } else if b.len() == 0 {
        assert forall|x: int| m.contains(x) <==> (a.contains(x) || b.contains(x)) by {}
    } else if lex_le(keys[a[0]], keys[b[0]]) {
        let a2 = a.drop_first();
        lemma_merge_sorted(keys, a2, b, lo, mid, hi);
        let rest = merge(keys, a2, b);
        assert(m == seq![a[0]] + rest);
        assert forall|x: int| m.contains(x) <==> (a.contains(x) || b.contains(x)) by {
            if m.contains(x) {
                let k = choose|k: int| 0 <= k < m.len() && m[k] == x;
                if k > 0 {
                    assert(rest[k - 1] == x);
                    assert(rest.contains(x));
                    if a2.contains(x) {
                        let q = choose|q: int| 0 <= q < a2.len() && a2[q] == x;
                        assert(a[q + 1] == x);
                    }
                }
            }
            if a.contains(x) {
                let q = choose|q: int| 0 <= q < a.len() && a[q] == x;
                if q == 0 {
                    assert(m[0] == x);
                } else {
                    assert(a2[q - 1] == x);
                    assert(a2.contains(x));
                    assert(rest.contains(x));
                    let k = choose|k: int| 0 <= k < rest.len() && rest[k] == x;
                    assert(m[k + 1] == x);
                }
            }
            if b.contains(x) {
                assert(rest.contains(x));
                let k = choose|k: int| 0 <= k < rest.len() && rest[k] == x;
                assert(m[k + 1] == x);
            }
        }
        assert forall|k: int| 0 <= k < rest.len() implies lex_le(keys[a[0]], keys[#[trigger] rest[k]])
            && rest[k] != a[0] && (keys[a[0]] == keys[rest[k]] ==> a[0] < rest[k]) by {
            assert(rest.contains(rest[k]));
            if a2.contains(rest[k]) {
                let q = choose|q: int| 0 <= q < a2.len() && a2[q] == rest[k];
                assert(a[q + 1] == rest[k]);
            } else {
                let q = choose|q: int| 0 <= q < b.len() && b[q] == rest[k];
                if q > 0 {
                    lemma_lex_le_transitive(keys[a[0]], keys[b[0]], keys[b[q]]);
                }
            }
        }
        assert forall|i: int, j: int| 0 <= i < j < m.len() implies #[trigger] m[i] != #[trigger] m[j]
            && lex_le(keys[m[i]], keys[m[j]]) && (keys[m[i]] == keys[m[j]] ==> m[i] < m[j]) by {
            if i > 0 {
                assert(m[i] == rest[i - 1] && m[j] == rest[j - 1]);
            } else {
                assert(m[j] == rest[j - 1]);
            }
        }
        assert forall|i: int| 0 <= i < m.len() implies lo <= #[trigger] m[i] < hi by {
            if i > 0 {
                assert(m[i] == rest[i - 1]);
            }
        }
    } else {
        let b2 = b.drop_first();
        lemma_merge_sorted(keys, a, b2, lo, mid, hi);
        let rest = merge(keys, a, b2);
        assert(m == seq![b[0]] + rest);
        lemma_lex_le_total(keys[a[0]], keys[b[0]]);
        assert forall|x: int| m.contains(x) <==> (a.contains(x) || b.contains(x)) by {
            if m.contains(x) {
                let k = choose|k: int| 0 <= k < m.len() && m[k] == x;
                if k > 0 {
                    assert(rest[k - 1] == x);
                    assert(rest.contains(x));
                    if b2.contains(x) {
                        let q = choose|q: int| 0 <= q < b2.len() && b2[q] == x;
                        assert(b[q + 1] == x);
                    }
                }
            }
            if b.contains(x) {
                let q = choose|q: int| 0 <= q < b.len() && b[q] == x;
                if q == 0 {
                    assert(m[0] == x);
                } else {
                    assert(b2[q - 1] == x);
                    assert(b2.contains(x));
                    assert(rest.contains(x));
                    let k = choose|k: int| 0 <= k < rest.len() && rest[k] == x;
                    assert(m[k + 1] == x);
                }
            }
            if a.contains(x) {
                assert(rest.contains(x));
                let k = choose|k: int| 0 <= k < rest.len() && rest[k] == x;
                assert(m[k + 1] == x);
            }
        }
        assert forall|k: int| 0 <= k < rest.len() implies lex_le(keys[b[0]], keys[#[trigger] rest[k]])
            && rest[k] != b[0] && (keys[b[0]] == keys[rest[k]] ==> b[0] < rest[k]) by {
            assert(rest.contains(rest[k]));
            if b2.contains(rest[k]) {
                let q = choose|q: int| 0 <= q < b2.len() && b2[q] == rest[k];
                assert(b[q + 1] == rest[k]);
            } else {
                let q = choose|q: int| 0 <= q < a.len() && a[q] == rest[k];
                if q > 0 {
                    lemma_lex_le_transitive(keys[b[0]], keys[a[0]], keys[a[q]]);
                }
                if keys[b[0]] == keys[a[q]] {
                    if q > 0 {
                        lemma_lex_le_transitive(keys[a[0]], keys[a[q]], keys[b[0]]);
                    } else {
                        lemma_lex_le_reflexive(keys[a[0]]);
                    }
                }
            }
        }
        assert forall|i: int, j: int| 0 <= i < j < m.len() implies #[trigger] m[i] != #[trigger] m[j]
            && lex_le(keys[m[i]], keys[m[j]]) && (keys[m[i]] == keys[m[j]] ==> m[i] < m[j]) by {
            if i > 0 {
                assert(m[i] == rest[i - 1] && m[j] == rest[j - 1]);
            } else {
                assert(m[j] == rest[j - 1]);
            }
        }
        assert forall|i: int| 0 <= i < m.len() implies lo <= #[trigger] m[i] < hi by {
            if i > 0 {
                assert(m[i] == rest[i - 1]);
            }
        }
    }
}

/// `sort_range` gives a sorted run of `lo..hi` with every index of it.
proof fn lemma_sort_range(keys: Seq<Seq<char>>, lo: int, hi: int)
    requires
        0 <= lo <= hi <= keys.len(),
    ensures
        sort_range(keys, lo, hi).len() == hi - lo,
        sorted_run(keys, sort_range(keys, lo, hi), lo, hi),
    decreases hi - lo,
{
    if hi - lo > 1 {
        let mid = lo + (hi - lo) / 2;
        lemma_sort_range(keys, lo, mid);
        lemma_sort_range(keys, mid, hi);
        lemma_merge_sorted(keys, sort_range(keys, lo, mid), sort_range(keys, mid, hi), lo, mid, hi);
    }
}

/// The sort order is a permutation of `0..keys.len()`.
pub proof fn law_sort_order_is_permutation(keys: Seq<Seq<char>>)
    ensures
        sort_order(keys).len() == keys.len(),
        forall|i: int| 0 <= i < keys.len() ==> 0 <= #[trigger] sort_order(keys)[i] < keys.len(),
        forall|i: int, j: int|
            0 <= i < j < keys.len() ==> #[trigger] sort_order(keys)[i] != #[trigger] sort_order(keys)[j],
{
    lemma_sort_range(keys, 0, keys.len() as int);
}

/// The keys come out in non-decreasing order.
pub proof fn law_sort_order_is_sorted(keys: Seq<Seq<char>>)
    ensures
        forall|i: int, j: int|
            0 <= i < j < keys.len() ==> lex_le(
                keys[#[trigger] sort_order(keys)[i]],
                keys[#[trigger] sort_order(keys)[j]],
            ),
{
    lemma_sort_range(keys, 0, keys.len() as int);
}

/// Entries with equal keys keep their relative order.
pub proof fn law_sort_order_is_stable(keys: Seq<Seq<char>>)
    ensures
        forall|i: int, j: int|
            0 <= i < j < keys.len() && keys[#[trigger] sort_order(keys)[i]] == keys[#[trigger] sort_order(keys)[j]]
                ==> sort_order(keys)[i] < sort_order(keys)[j],
{
    lemma_sort_range(keys, 0, keys.len() as int);
}

/// Whether `a` comes no later than `b` in code point order.
pub fn chars_le(a: &Vec<char>, b: &Vec<char>) -> (r: bool)
    ensures
        r == lex_le(a@, b@),
{
    let mut i: usize = 0;
    assert(a@.skip(0) =~= a@);
    assert(b@.skip(0) =~= b@);
    while i < a.len()
        invariant
            i <= a@.len(),
            i <= b@.len(),
            a@.take(i as int) == b@.take(i as int),
            lex_le(a@, b@) == lex_le(a@.skip(i as int), b@.skip(i as int)),
        decreases a@.len() - i,
    {
        if i >= b.len() {
            return false;
        }
        let x = a[i];
        let y = b[i];
        if x != y {
            return x < y;
        }
        assert(a@.skip(i as int).drop_first() =~= a@.skip(i + 1));
        assert(b@.skip(i as int).drop_first() =~= b@.skip(i + 1));
        assert(a@.take(i + 1) =~= a@.take(i as int).push(x));
        assert(b@.take(i + 1) =~= b@.take(i as int).push(y));
        i = i + 1;
    }
    true
}

/// Keys are ordered by code point at their first difference: where `a`
/// and `b` agree before position `i` and differ at `i`, `a` comes first
/// exactly when its char at `i` has the smaller code point.
pub proof fn law_key_order_is_code_point_order(a: Seq<char>, b: Seq<char>, i: int)
    requires
        0 <= i < a.len(),
        i < b.len(),
        a.take(i) == b.take(i),
        a[i] != b[i],
    ensures
        lex_le(a, b) <==> (a[i] as int) < (b[i] as int),
    decreases i,
{
    if i > 0 {
        assert(a[0] == a.take(i)[0]);
        assert(b[0] == b.take(i)[0]);
        assert(a.drop_first().take(i - 1) =~= a.take(i).drop_first());
        assert(b.drop_first().take(i - 1) =~= b.take(i).drop_first());
        law_key_order_is_code_point_order(a.drop_first(), b.drop_first(), i - 1);
    }
}

/// A key comes before every longer key that it begins, and no longer key
/// comes before it.
pub proof fn law_prefix_comes_first(a: Seq<char>, rest: Seq<char>)
    ensures
        lex_le(a, a + rest),
        rest.len() > 0 ==> !lex_le(a + rest, a),
    decreases a.len(),
{
    if a.len() > 0 {
        assert((a + rest).drop_first() =~= a.drop_first() + rest);
        law_prefix_comes_first(a.drop_first(), rest);
    }
}

/// The views of the keys.
pub open spec fn key_views(keys: Seq<Vec<char>>) -> Seq<Seq<char>> {
    keys.map_values(|k: Vec<char>| k@)
}

/// Indices as mathematical integers.
pub open spec fn as_ints(s: Seq<usize>) -> Seq<int> {
    s.map_values(|u: usize| u as int)
}

/// Merges two runs of indices, each in key order (see `merge`).
fn merge_runs(keys: &Vec<Vec<char>>, a: Vec<usize>, b: Vec<usize>) -> (r: Vec<usize>)
    requires
        forall|i: int| 0 <= i < a@.len() ==> #[trigger] a@[i] < keys@.len(),
        forall|i: int| 0 <= i < b@.len() ==> #[trigger] b@[i] < keys@.len(),
    ensures
        as_ints(r@) == merge(key_views(keys@), as_ints(a@), as_ints(b@)),
{
    let ghost kv = key_views(keys@);
    let ghost whole = merge(kv, as_ints(a@), as_ints(b@));
    let mut r: Vec<usize> = Vec::new();
    let mut i: usize = 0;
    let mut j: usize = 0;
    assert(as_ints(a@).skip(0) =~= as_ints(a@));
    assert(as_ints(b@).skip(0) =~= as_ints(b@));
    assert(as_ints(r@) + whole =~= whole);
    while i < a.len() || j < b.len()
        invariant
            kv == key_views(keys@),
            whole == merge(kv, as_ints(a@), as_ints(b@)),
            forall|k: int| 0 <= k < a@.len() ==> #[trigger] a@[k] < keys@.len(),
            forall|k: int| 0 <= k < b@.len() ==> #[trigger] b@[k] < keys@.len(),
            i <= a@.len(),
            j <= b@.len(),
            as_ints(r@) + merge(kv, as_ints(a@).skip(i as int), as_ints(b@).skip(j as int)) == whole,
        decreases a@.len() + b@.len() - i - j,
    {
        let ghost sa = as_ints(a@).skip(i as int);
        let ghost sb = as_ints(b@).skip(j as int);
        let ghost before = r@;
        let take_a = if i == a.len() {
            false
        } else if j == b.len() {
            true
        } else {
            chars_le(&keys[a[i]], &keys[b[j]])
        };
        if take_a {
            r.push(a[i]);
            proof {
                assert(sa[0] == a@[i as int] as int);
                assert(sa.drop_first() =~= as_ints(a@).skip(i + 1));
                if sb.len() == 0 {
                    assert(merge(kv, sa.drop_first(), sb) == sa.drop_first());
                    assert(merge(kv, sa, sb) == sa);
                    assert(sa =~= seq![sa[0]] + sa.drop_first());
                }
                assert(as_ints(r@) =~= as_ints(before) + seq![sa[0]]);
            }
            i = i + 1;
        } else {
            r.push(b[j]);
            proof {
                assert(sb[0] == b@[j as int] as int);
                assert(sb.drop_first() =~= as_ints(b@).skip(j + 1));
                if sa.len() == 0 {
                    assert(merge(kv, sa, sb.drop_first()) == sb.drop_first());
                    assert(merge(kv, sa, sb) == sb);
                    assert(sb =~= seq![sb[0]] + sb.drop_first());
                }
                assert(as_ints(r@) =~= as_ints(before) + seq![sb[0]]);
            }
            j = j + 1;
        }
    }
    proof {
        let sa = as_ints(a@).skip(i as int);
        let sb = as_ints(b@).skip(j as int);
        assert(sa.len() == 0 && sb.len() == 0);
        assert(as_ints(r@) + merge(kv, sa, sb) =~= as_ints(r@));
    }
    r
}

/// The indices `lo..hi` in the order of `sort_range`.
fn sort_indices(keys: &Vec<Vec<char>>, lo: usize, hi: usize) -> (r: Vec<usize>)
    requires
        lo <= hi <= keys@.len(),
    ensures
        as_ints(r@) == sort_range(key_views(keys@), lo as int, hi as int),
        forall|i: int| 0 <= i < r@.len() ==> #[trigger] r@[i] < keys@.len(),
    decreases hi - lo,
{
    proof {
        lemma_sort_range(key_views(keys@), lo as int, hi as int);
    }
    if hi - lo == 0 {
        let r: Vec<usize> = Vec::new();
        assert(as_ints(r@) =~= sort_range(key_views(keys@), lo as int, hi as int));
        r
    } else if hi - lo == 1 {
        let mut r: Vec<usize> = Vec::new();
        r.push(lo);
        assert(as_ints(r@) =~= sort_range(key_views(keys@), lo as int, hi as int));
        r
    } else {
        let mid = lo + (hi - lo) / 2;
        let a = sort_indices(keys, lo, mid);
        let b = sort_indices(keys, mid, hi);
        let r = merge_runs(keys, a, b);
        proof {
            let s = sort_range(key_views(keys@), lo as int, hi as int);
            assert forall|i: int| 0 <= i < r@.len() implies #[trigger] r@[i] < keys@.len() by {
                assert(as_ints(r@)[i] == s[i]);
            }
        }
        r
    }
}

/// The indices of `keys` in the order of a stable sort by key (merge sort).
pub fn sorted_order(keys: &Vec<Vec<char>>) -> (r: Vec<usize>)
    ensures
        as_ints(r@) == sort_order(key_views(keys@)),
{
    sort_indices(keys, 0, keys.len())
}

} // verus!
