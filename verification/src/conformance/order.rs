//! Stable ordering of records by computed keys.
//!
//! Records are ordered by a key made of atoms (numbers and texts, compared
//! lexicographically); [`sort_by_keys`] returns the stable sorting
//! permutation, as positions into the original list.

use vstd::prelude::*;

use crate::conformance::identity::{IdKind, SemanticId, digests};
use crate::index::identity::{
    KeyAtom, atoms, key_eq, key_less, key_lt, lemma_key_lt_asym, lemma_key_lt_irreflexive,
    lemma_key_lt_total, lemma_key_lt_trans,
};

verus! {

/// Values of a list of computed keys.
pub open spec fn key_values(v: Seq<Vec<KeyAtom>>) -> Seq<Seq<(int, Seq<char>)>> {
    v.map_values(|k: Vec<KeyAtom>| atoms(k@))
}

/// `order` lists each position below `n` exactly once.
pub open spec fn is_permutation(order: Seq<usize>, n: int) -> bool {
    &&& order.len() == n
    &&& forall|p: int| 0 <= p < n ==> (#[trigger] order[p]) < n
    &&& forall|p: int, q: int| 0 <= p < q < n ==> #[trigger] order[p] != #[trigger] order[q]
    &&& forall|i: int| 0 <= i < n ==> #[trigger] covers(order, n, i)
}

/// Some position below `n` of `order` holds `i`.
pub open spec fn covers(order: Seq<usize>, n: int, i: int) -> bool {
    exists|p: int| 0 <= p < n && #[trigger] order[p] == i
}

/// The keys taken in the given order.
pub open spec fn permuted(k: Seq<Seq<(int, Seq<char>)>>, order: Seq<usize>) -> Seq<Seq<(int, Seq<char>)>> {
    Seq::new(order.len(), |p: int| k[order[p] as int])
}

/// Keys in non-decreasing order.
pub open spec fn nondecreasing(k: Seq<Seq<(int, Seq<char>)>>) -> bool {
    forall|p: int, q: int| 0 <= p < q < k.len() ==> !key_lt(#[trigger] k[q], #[trigger] k[p])
}

/// Returns the stable sorting permutation of the keys: every position once,
/// keys in non-decreasing order, equal keys in their original order.
pub fn sort_by_keys(keys: &Vec<Vec<KeyAtom>>) -> (order: Vec<usize>)
    ensures
        is_permutation(order@, keys@.len() as int),
        nondecreasing(permuted(key_values(keys@), order@)),
{
    let ghost k = key_values(keys@);
    let mut order: Vec<usize> = Vec::new();
    let mut i: usize = 0;
    while i < keys.len()
        invariant
            i <= keys@.len(),
            k == key_values(keys@),
            is_permutation(order@, i as int),
            nondecreasing(permuted(k, order@)),
        decreases keys@.len() - i,
    {
        let mut p: usize = 0;
        while p < order.len() && !key_less(&keys[i], &keys[order[p]])
            invariant
                p <= order@.len(),
                order@.len() == i,
                i < keys@.len(),
                k == key_values(keys@),
                is_permutation(order@, i as int),
                forall|q: int| 0 <= q < p ==> !key_lt(k[i as int], #[trigger] k[order@[q] as int]),
            decreases order@.len() - p,
        {
            assert(k[order@[p as int] as int] == atoms(keys@[order@[p as int] as int]@));
            p += 1;
        }
        proof {
            if p < order@.len() {
                assert(k[order@[p as int] as int] == atoms(keys@[order@[p as int] as int]@));
            }
            lemma_insert_position(k, order@, i as int, p as int);
        }
        order.insert(p, i);
        i += 1;
    }
    order
}

proof fn lemma_insert_position(k: Seq<Seq<(int, Seq<char>)>>, order: Seq<usize>, i: int, p: int)
    requires
        0 <= i < k.len(),
        i <= usize::MAX,
        is_permutation(order, i),
        nondecreasing(permuted(k, order)),
        0 <= p <= order.len(),
        forall|q: int| 0 <= q < p ==> !key_lt(k[i], #[trigger] k[order[q] as int]),
        p < order.len() ==> key_lt(k[i], k[order[p] as int]),
    ensures
        is_permutation(order.insert(p, i as usize), i + 1),
        nondecreasing(permuted(k, order.insert(p, i as usize))),
{
    let o2 = order.insert(p, i as usize);
    let s = permuted(k, order);
    let s2 = permuted(k, o2);
    assert forall|a: int| 0 <= a < i + 1 implies (#[trigger] o2[a]) < i + 1 by {
        if a < p {
            assert(o2[a] == order[a]);
        } else if a > p {
            assert(o2[a] == order[a - 1]);
        }
    }
    assert forall|a: int, b: int| 0 <= a < b < i + 1 implies #[trigger] o2[a] != #[trigger] o2[b] by {
        if a < p && b < p {
        } else if a < p && b == p {
            assert(o2[a] == order[a]);
        } else if a < p && b > p {
            assert(o2[a] == order[a]);
            assert(o2[b] == order[b - 1]);
        } else if a == p {
            assert(o2[b] == order[b - 1]);
        } else {
            assert(o2[a] == order[a - 1]);
            assert(o2[b] == order[b - 1]);
        }
    }
    assert forall|x: int| 0 <= x < i + 1 implies #[trigger] covers(o2, i + 1, x) by {
        if x == i {
            assert(o2[p] == i);
        } else {
            assert(covers(order, i, x));
            let q = choose|q: int| 0 <= q < i && #[trigger] order[q] == x;
            if q < p {
                assert(o2[q] == x);
            } else {
                assert(o2[q + 1] == x);
            }
        }
    }
    assert forall|a: int, b: int| 0 <= a < b < s2.len() implies !key_lt(#[trigger] s2[b], #[trigger] s2[a]) by {
        if a < p && b < p {
            assert(s2[a] == s[a] && s2[b] == s[b]);
        } else if a < p && b == p {
            assert(s2[a] == k[order[a] as int]);
        } else if a < p && b > p {
            assert(s2[a] == s[a]);
            assert(s2[b] == s[b - 1]);
            assert(!key_lt(s[b - 1], s[a]));
        } else if a == p {
            assert(s2[b] == s[b - 1]);
            assert(s2[a] == k[i]);
            if key_lt(s[b - 1], k[i]) {
                if b - 1 == p {
                    lemma_key_lt_asym(k[i], s[p]);
                } else {
                    assert(!key_lt(s[b - 1], s[p]));
                    lemma_key_lt_total(s[b - 1], s[p]);
                    if s[b - 1] == s[p] {
                        lemma_key_lt_asym(k[i], s[p]);
                    } else {
                        lemma_key_lt_trans(s[p], s[b - 1], k[i]);
                        lemma_key_lt_asym(k[i], s[p]);
                    }
                }
            }
        } else {
            assert(s2[a] == s[a - 1]);
            assert(s2[b] == s[b - 1]);
        }
    }
}

/// The first position holding a key that repeats the previous one, in a
/// sorted list of keys.
pub fn first_adjacent_repeat(keys: &Vec<Vec<KeyAtom>>, order: &Vec<usize>) -> (r: Option<usize>)
    requires
        is_permutation(order@, keys@.len() as int),
    ensures
        r matches Some(p) ==> 0 < p < order@.len() && permuted(key_values(keys@), order@)[p as int]
            == permuted(key_values(keys@), order@)[p - 1] && forall|q: int|
            0 < q < p ==> #[trigger] permuted(key_values(keys@), order@)[q] != permuted(
                key_values(keys@),
                order@,
            )[q - 1],
        r is None ==> forall|q: int|
            0 < q < order@.len() ==> #[trigger] permuted(key_values(keys@), order@)[q] != permuted(
                key_values(keys@),
                order@,
            )[q - 1],
{
    let ghost s = permuted(key_values(keys@), order@);
    let mut p: usize = 1;
    while p < order.len()
        invariant
            1 <= p,
            order@.len() == keys@.len(),
            is_permutation(order@, keys@.len() as int),
            s == permuted(key_values(keys@), order@),
            forall|q: int| 0 < q < p && q < order@.len() ==> #[trigger] s[q] != s[q - 1],
        decreases order@.len() - p,
    {
        let same = key_eq(&keys[order[p]], &keys[order[p - 1]]);
        assert(s[p as int] == atoms(keys@[order@[p as int] as int]@));
        assert(s[p - 1] == atoms(keys@[order@[p - 1] as int]@));
        if same {
            return Some(p);
        }
        p += 1;
    }
    None
}

/// In a non-decreasing list, adjacent keys differ exactly when all keys
/// differ.
pub proof fn lemma_adjacent_distinct(s: Seq<Seq<(int, Seq<char>)>>)
    requires
        nondecreasing(s),
        forall|q: int| 0 < q < s.len() ==> #[trigger] s[q] != s[q - 1],
    ensures
        forall|a: int, b: int| 0 <= a < b < s.len() ==> key_lt(#[trigger] s[a], #[trigger] s[b]),
{
    assert forall|a: int, b: int| 0 <= a < b < s.len() implies key_lt(#[trigger] s[a], #[trigger] s[b]) by {
        lemma_strict_chain(s, a, b);
    }
}

proof fn lemma_strict_chain(s: Seq<Seq<(int, Seq<char>)>>, a: int, b: int)
    requires
        nondecreasing(s),
        forall|q: int| 0 < q < s.len() ==> #[trigger] s[q] != s[q - 1],
        0 <= a < b < s.len(),
    ensures
        key_lt(s[a], s[b]),
    decreases b - a,
{
    assert(s[b] != s[b - 1]);
    assert(!key_lt(s[b], s[b - 1]));
    lemma_key_lt_total(s[b], s[b - 1]);
    if b - 1 > a {
        lemma_strict_chain(s, a, b - 1);
        lemma_key_lt_trans(s[a], s[b - 1], s[b]);
    }
}


/// No two positions hold the same key.
pub open spec fn keys_distinct(k: Seq<Seq<(int, Seq<char>)>>) -> bool {
    forall|a: int, b: int| 0 <= a < b < k.len() ==> #[trigger] k[a] != #[trigger] k[b]
}

/// Taking positions by `first`, then by `second`.
pub open spec fn compose(first: Seq<usize>, second: Seq<usize>) -> Seq<usize> {
    Seq::new(second.len(), |p: int| first[second[p] as int])
}

/// Following one reordering by another is again a reordering.
pub proof fn lemma_compose_permutation(first: Seq<usize>, second: Seq<usize>, n: int)
    requires
        is_permutation(first, n),
        is_permutation(second, n),
    ensures
        is_permutation(compose(first, second), n),
{
    let c = compose(first, second);
    assert forall|p: int, q: int| 0 <= p < q < n implies #[trigger] c[p] != #[trigger] c[q] by {
        if second[p] < second[q] {
            assert(first[second[p] as int] != first[second[q] as int]);
        } else {
            assert(first[second[q] as int] != first[second[p] as int]);
        }
    }
    assert forall|i: int| 0 <= i < n implies #[trigger] covers(c, n, i) by {
        assert(covers(first, n, i));
        let a = choose|a: int| 0 <= a < n && #[trigger] first[a] == i;
        assert(covers(second, n, a));
        let b = choose|b: int| 0 <= b < n && #[trigger] second[b] == a;
        assert(c[b] == i);
    }
}

/// Where no two keys are equal, there is one stable sorting permutation
/// only: any two orders that both list the keys in non-decreasing order
/// are the same.
pub proof fn lemma_sorting_order_unique(
    k: Seq<Seq<(int, Seq<char>)>>,
    a: Seq<usize>,
    b: Seq<usize>,
)
    requires
        keys_distinct(k),
        is_permutation(a, k.len() as int),
        is_permutation(b, k.len() as int),
        nondecreasing(permuted(k, a)),
        nondecreasing(permuted(k, b)),
    ensures
        a == b,
{
    assert forall|i: int| 0 <= i < k.len() implies a[i] == b[i] by {
        lemma_sorting_order_agrees(k, a, b, i);
    }
    assert(a =~= b);
}

proof fn lemma_sorting_order_agrees(
    k: Seq<Seq<(int, Seq<char>)>>,
    a: Seq<usize>,
    b: Seq<usize>,
    i: int,
)
    requires
        keys_distinct(k),
        is_permutation(a, k.len() as int),
        is_permutation(b, k.len() as int),
        nondecreasing(permuted(k, a)),
        nondecreasing(permuted(k, b)),
        0 <= i < k.len(),
    ensures
        a[i] == b[i],
    decreases i,
{
    let n = k.len() as int;
    assert forall|j: int| 0 <= j < i implies a[j] == b[j] by {
        lemma_sorting_order_agrees(k, a, b, j);
    }
    let x = a[i] as int;
    let y = b[i] as int;
    if x != y {
        assert(k[x] != k[y]) by {
            if x < y {
                assert(k[x] != k[y]);
            } else {
                assert(k[y] != k[x]);
            }
        }
        lemma_key_lt_total(k[x], k[y]);
        lemma_key_lt_asym(k[x], k[y]);
        if key_lt(k[x], k[y]) {
            assert(covers(b, n, x));
            let j = choose|j: int| 0 <= j < n && #[trigger] b[j] == x;
            if j < i {
                assert(a[j] == b[j]);
                assert(a[j] != a[i]);
            } else {
                assert(j != i);
                assert(permuted(k, b)[i] == k[y] && permuted(k, b)[j] == k[x]);
                assert(!key_lt(permuted(k, b)[j], permuted(k, b)[i]));
            }
        } else {
            assert(covers(a, n, y));
            let j = choose|j: int| 0 <= j < n && #[trigger] a[j] == y;
            if j < i {
                assert(a[j] == b[j]);
                assert(b[j] != b[i]);
            } else {
                assert(j != i);
                assert(permuted(k, a)[i] == k[x] && permuted(k, a)[j] == k[y]);
                assert(!key_lt(permuted(k, a)[j], permuted(k, a)[i]));
            }
        }
    }
}

/// Keys `k`, sorted by `o`, repeat a key at adjacent positions `q - 1, q`.
pub open spec fn adjacent_repeat(k: Seq<Seq<(int, Seq<char>)>>, o: Seq<usize>, q: int) -> bool {
    0 < q < o.len() && permuted(k, o)[q] == permuted(k, o)[q - 1]
}

/// A sorted arrangement repeats a key at adjacent positions exactly when
/// the keys are not all distinct.
pub proof fn lemma_adjacent_repeat_iff_duplicate(k: Seq<Seq<(int, Seq<char>)>>, o: Seq<usize>)
    requires
        is_permutation(o, k.len() as int),
        nondecreasing(permuted(k, o)),
    ensures
        (exists|q: int| #[trigger] adjacent_repeat(k, o, q)) <==> !keys_distinct(k),
{
    let n = k.len() as int;
    let ks = permuted(k, o);
    if exists|q: int| #[trigger] adjacent_repeat(k, o, q) {
        let q = choose|q: int| #[trigger] adjacent_repeat(k, o, q);
        let (i, j) = if o[q - 1] < o[q] {
            (o[q - 1] as int, o[q] as int)
        } else {
            (o[q] as int, o[q - 1] as int)
        };
        assert(o[q - 1] != o[q]);
        assert(k[i] == k[j]);
    } else {
        assert forall|q: int| 0 < q < ks.len() implies #[trigger] ks[q] != ks[q - 1] by {
            assert(!adjacent_repeat(k, o, q));
        }
        lemma_adjacent_distinct(ks);
        assert forall|i: int, j: int| 0 <= i < j < k.len() implies #[trigger] k[i] != #[trigger] k[j] by {
            assert(covers(o, n, i));
            assert(covers(o, n, j));
            let x = choose|x: int| 0 <= x < n && #[trigger] o[x] == i;
            let y = choose|y: int| 0 <= y < n && #[trigger] o[y] == j;
            assert(ks[x] == k[i] && ks[y] == k[j]);
            lemma_key_lt_irreflexive(k[i]);
            if x < y {
                assert(key_lt(ks[x], ks[y]));
            } else {
                assert(key_lt(ks[y], ks[x]));
            }
        }
    }
}

/// The first adjacent repeat of a sorted arrangement is at the least key
/// that occurs twice: no repeated key orders before it.
pub proof fn lemma_first_repeat_least(k: Seq<Seq<(int, Seq<char>)>>, o: Seq<usize>, p: int)
    requires
        is_permutation(o, k.len() as int),
        nondecreasing(permuted(k, o)),
        adjacent_repeat(k, o, p),
        forall|q: int| 0 < q < p ==> !#[trigger] adjacent_repeat(k, o, q),
    ensures
        forall|i: int, j: int|
            0 <= i < j < k.len() && #[trigger] k[i] == #[trigger] k[j] ==> !key_lt(k[i], permuted(k, o)[p]),
{
    let n = k.len() as int;
    let ks = permuted(k, o);
    assert forall|i: int, j: int| 0 <= i < j < k.len() && #[trigger] k[i] == #[trigger] k[j] implies !key_lt(
        k[i],
        ks[p],
    ) by {
        assert(covers(o, n, i));
        assert(covers(o, n, j));
        let x0 = choose|x: int| 0 <= x < n && #[trigger] o[x] == i;
        let y0 = choose|y: int| 0 <= y < n && #[trigger] o[y] == j;
        let (x, y) = if x0 < y0 {
            (x0, y0)
        } else {
            (y0, x0)
        };
        assert(ks[x0] == k[i] && ks[y0] == k[j]);
        assert(x < y && ks[x] == ks[y]);
        if y < p {
            assert(!key_lt(ks[x + 1], ks[x]));
            if x + 1 < y {
                assert(!key_lt(ks[y], ks[x + 1]));
            }
            lemma_key_lt_total(ks[x], ks[x + 1]);
            assert(adjacent_repeat(k, o, x + 1));
        } else if y > p {
            assert(!key_lt(ks[y], ks[p]));
        }
    }
}

/// Order key of a digest: its bytes, as numeric atoms.
pub open spec fn id_key(d: Seq<u8>) -> Seq<(int, Seq<char>)> {
    d.map_values(|x: u8| (x as int, Seq::<char>::empty()))
}

/// Digests in strictly increasing byte order.
pub open spec fn ids_sorted(s: Seq<Seq<u8>>) -> bool {
    forall|a: int, b: int|
        0 <= a < b < s.len() ==> key_lt(id_key(#[trigger] s[a]), id_key(#[trigger] s[b]))
}

/// No digest occurs twice.
pub open spec fn ids_distinct(s: Seq<Seq<u8>>) -> bool {
    forall|a: int, b: int| 0 <= a < b < s.len() ==> #[trigger] s[a] != #[trigger] s[b]
}

proof fn lemma_id_key_injective(a: Seq<u8>, b: Seq<u8>)
    requires
        id_key(a) == id_key(b),
    ensures
        a == b,
{
    assert(id_key(a).len() == a.len() && id_key(b).len() == b.len());
    assert forall|i: int| 0 <= i < a.len() implies a[i] == b[i] by {
        assert(id_key(a)[i] == id_key(b)[i]);
    }
    assert(a =~= b);
}

/// Keys of equal length that agree before `i` and differ at `i` are
/// ordered by their atoms at `i`.
proof fn lemma_key_lt_at(a: Seq<(int, Seq<char>)>, b: Seq<(int, Seq<char>)>, i: int)
    requires
        a.len() == b.len(),
        0 <= i < a.len(),
        forall|j: int| 0 <= j < i ==> a[j] == b[j],
        a[i] != b[i],
    ensures
        key_lt(a, b) == crate::index::identity::atom_lt(a[i], b[i]),
    decreases i,
{
    if i > 0 {
        assert(a[0] == b[0]);
        lemma_key_lt_at(a.drop_first(), b.drop_first(), i - 1);
    }
}

/// Decides whether the first digest orders strictly before the second.
pub fn id_less<K: IdKind>(a: &SemanticId<K>, b: &SemanticId<K>) -> (r: bool)
    ensures
        r == key_lt(id_key(a@), id_key(b@)),
{
    let x = a.digest_bytes();
    let y = b.digest_bytes();
    let mut i: usize = 0;
    while i < 32
        invariant
            i <= 32,
            x@ == a@,
            y@ == b@,
            forall|j: int| 0 <= j < i ==> x@[j] == y@[j],
        decreases 32 - i,
    {
        if x[i] != y[i] {
            proof {
                assert(id_key(a@)[i as int] == (x@[i as int] as int, Seq::<char>::empty()));
                assert(id_key(b@)[i as int] == (y@[i as int] as int, Seq::<char>::empty()));
                assert forall|j: int| 0 <= j < i implies id_key(a@)[j] == id_key(b@)[j] by {
                    assert(x@[j] == y@[j]);
                }
                lemma_key_lt_at(id_key(a@), id_key(b@), i as int);
            }
            return x[i] < y[i];
        }
        i += 1;
    }
    assert(x@ =~= y@);
    proof {
        lemma_key_lt_irreflexive(id_key(a@));
    }
    false
}

/// Orders identities by their digest bytes, keeping one of each, and
/// reports whether the input had no repeated identity.
pub fn sort_ids<K: IdKind>(v: &Vec<SemanticId<K>>) -> (r: (Vec<SemanticId<K>>, bool))
    ensures
        ids_sorted(digests(r.0@)),
        forall|x: Seq<u8>| #[trigger] digests(r.0@).contains(x) <==> digests(v@).contains(x),
        r.1 == ids_distinct(digests(v@)),
{
    let mut out: Vec<SemanticId<K>> = Vec::new();
    let mut distinct = true;
    let mut i: usize = 0;
    while i < v.len()
        invariant
            i <= v@.len(),
            ids_sorted(digests(out@)),
            forall|x: Seq<u8>| #[trigger] digests(out@).contains(x) <==> digests(v@.take(i as int)).contains(x),
            distinct == ids_distinct(digests(v@.take(i as int))),
        decreases v@.len() - i,
    {
        let ghost before = digests(out@);
        let ghost seen = digests(v@.take(i as int));
        let ghost x = v@[i as int]@;
        let mut p: usize = 0;
        while p < out.len() && id_less(&out[p], &v[i])
            invariant
                p <= out@.len(),
                i < v@.len(),
                digests(out@) == before,
                x == v@[i as int]@,
                forall|q: int| 0 <= q < p ==> key_lt(id_key(#[trigger] before[q]), id_key(x)),
            decreases out@.len() - p,
        {
            p += 1;
        }
        assert(digests(v@.take(i + 1)) =~= seen.push(x));
        if p < out.len() && out[p].same(&v[i]) {
            proof {
                assert(before[p as int] == x);
                assert(before.contains(x));
                assert(seen.contains(x));
                let j = choose|j: int| 0 <= j < seen.len() && seen[j] == x;
                assert(digests(v@.take(i + 1))[j] == digests(v@.take(i + 1))[i as int]);
                assert forall|y: Seq<u8>| #[trigger] digests(out@).contains(y) <==> digests(v@.take(i + 1)).contains(y) by {
                    if digests(v@.take(i + 1)).contains(y) && y != x {
                        let t = digests(v@.take(i + 1));
                        let k = choose|k: int| 0 <= k < t.len() && t[k] == y;
                        assert(seen[k] == y);
                    }
                    if seen.contains(y) {
                        let k = choose|k: int| 0 <= k < seen.len() && seen[k] == y;
                        assert(digests(v@.take(i + 1))[k] == y);
                    }
                }
            }
            distinct = false;
        } else {
            proof {
                assert forall|q: int| 0 <= q < before.len() implies before[q] != x by {
                    if q < p {
                        lemma_key_lt_irreflexive(id_key(x));
                    } else {
                        assert(p < before.len());
                        assert(before[p as int] != x);
                        assert(!key_lt(id_key(before[p as int]), id_key(x)));
                        lemma_key_lt_total(id_key(before[p as int]), id_key(x));
                        if id_key(before[p as int]) == id_key(x) {
                            lemma_id_key_injective(before[p as int], x);
                        }
                        if q > p {
                            lemma_key_lt_trans(id_key(x), id_key(before[p as int]), id_key(before[q]));
                        }
                        lemma_key_lt_irreflexive(id_key(x));
                    }
                }
                assert(!seen.contains(x)) by {
                    if seen.contains(x) {
                        assert(before.contains(x));
                        let q = choose|q: int| 0 <= q < before.len() && before[q] == x;
                    }
                }
            }
            out.insert(p, v[i].copy());
            proof {
                let now = digests(out@);
                assert(now =~= before.insert(p as int, x));
                assert forall|a: int, b: int| 0 <= a < b < now.len() implies key_lt(id_key(#[trigger] now[a]), id_key(#[trigger] now[b])) by {
                    if p < before.len() {
                        assert(!key_lt(id_key(before[p as int]), id_key(x)));
                        lemma_key_lt_total(id_key(before[p as int]), id_key(x));
                        if id_key(before[p as int]) == id_key(x) {
                            lemma_id_key_injective(before[p as int], x);
                            assert(before[p as int] != x);
                        }
                    }
                    if a < p && b == p {
                    } else if a < p && b > p {
                        assert(now[b] == before[b - 1]);
                    } else if a == p {
                        assert(now[b] == before[b - 1]);
                        if b - 1 > p {
                            lemma_key_lt_trans(id_key(x), id_key(before[p as int]), id_key(before[b - 1]));
                        }
                    } else if a > p {
                        assert(now[a] == before[a - 1] && now[b] == before[b - 1]);
                    }
                }
                assert forall|y: Seq<u8>| #[trigger] digests(out@).contains(y) <==> digests(v@.take(i + 1)).contains(y) by {
                    if now.contains(y) && y != x {
                        let k = choose|k: int| 0 <= k < now.len() && now[k] == y;
                        if k < p {
                            assert(before[k] == y);
                        } else {
                            assert(before[k - 1] == y);
                        }
                        assert(before.contains(y));
                        let k2 = choose|k2: int| 0 <= k2 < seen.len() && seen[k2] == y;
                        assert(digests(v@.take(i + 1))[k2] == y);
                    }
                    if digests(v@.take(i + 1)).contains(y) && y != x {
                        let t = digests(v@.take(i + 1));
                        let k = choose|k: int| 0 <= k < t.len() && t[k] == y;
                        assert(seen[k] == y);
                        assert(before.contains(y));
                        let k2 = choose|k2: int| 0 <= k2 < before.len() && before[k2] == y;
                        if k2 < p {
                            assert(now[k2] == y);
                        } else {
                            assert(now[k2 + 1] == y);
                        }
                    }
                    if y == x {
                        assert(now[p as int] == x);
                        assert(digests(v@.take(i + 1))[i as int] == x);
                    }
                }
                assert(ids_distinct(digests(v@.take(i + 1))) == ids_distinct(seen)) by {
                    let t = digests(v@.take(i + 1));
                    if ids_distinct(seen) {
                        assert forall|a: int, b: int| 0 <= a < b < t.len() implies #[trigger] t[a] != #[trigger] t[b] by {
                            if b == i {
                                assert(seen[a] == t[a]);
                            } else {
                                assert(seen[a] == t[a] && seen[b] == t[b]);
                            }
                        }
                    } else {
                        let (a, b) = choose|a: int, b: int| 0 <= a < b < seen.len() && #[trigger] seen[a] == #[trigger] seen[b];
                        assert(t[a] == seen[a] && t[b] == seen[b]);
                    }
                }
            }
        }
        i += 1;
    }
    assert(v@.take(v@.len() as int) =~= v@);
    (out, distinct)
}

} // verus!
