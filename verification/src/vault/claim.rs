//! Exact claim certificates: the canonical rows and the rows that carry a
//! primary claim are the same set, and every derived claim refers to a
//! primary-claimed row. Rows are identified by their canonical key.

use vstd::prelude::*;

use crate::index::identity::{
    KeyAtom, atoms, key_eq, key_less, key_lt, lemma_key_lt_asym, lemma_key_lt_irreflexive,
    lemma_key_lt_total, lemma_key_lt_trans, row_key, row_key_of,
};
use crate::index::rows::IndexRow;
use crate::vault::model::{ProjectionError, VaultNoteId};

verus! {

/// The single primary placement of a canonical row.
#[derive(Clone, Debug, PartialEq, Eq, PartialOrd, Ord)]
pub struct ClaimSite {
    /// Owning note.
    pub note: VaultNoteId,
    /// Stable semantic section within the note.
    pub section: String,
}

impl ClaimSite {
    /// An exact copy.
    pub fn copy(&self) -> (r: ClaimSite)
        ensures
            r == *self,
    {
        ClaimSite { note: self.note.copy(), section: self.section.clone() }
    }
}

/// Navigation material derived from a canonically placed row.
#[derive(Clone, Debug, PartialEq, Eq)]
pub struct DerivedClaim {
    /// Canonical row being referenced.
    pub row: IndexRow,
    /// Derived placement.
    pub site: ClaimSite,
    /// Explicit derivation origin.
    pub origin: String,
}

/// A row key.
pub type Key = Seq<(int, Seq<char>)>;

/// Keys of a list of rows.
pub open spec fn keys_of(v: Seq<IndexRow>) -> Seq<Key> {
    v.map_values(|r: IndexRow| row_key(r))
}

/// Keys of the rows of a list of primary claims.
pub open spec fn claim_keys(v: Seq<(IndexRow, ClaimSite)>) -> Seq<Key> {
    v.map_values(|p: (IndexRow, ClaimSite)| row_key(p.0))
}

/// Keys of the rows of a list of derived claims.
pub open spec fn derived_keys(v: Seq<DerivedClaim>) -> Seq<Key> {
    v.map_values(|d: DerivedClaim| row_key(d.row))
}

/// Values of a list of computed keys.
pub open spec fn kseq(v: Seq<Vec<KeyAtom>>) -> Seq<Key> {
    v.map_values(|k: Vec<KeyAtom>| atoms(k@))
}

/// The first `n` keys are pairwise different.
pub open spec fn distinct_upto(k: Seq<Key>, n: int) -> bool {
    forall|a: int, b: int| 0 <= a < b < n ==> #[trigger] k[a] != #[trigger] k[b]
}

/// All keys are pairwise different.
pub open spec fn distinct(k: Seq<Key>) -> bool {
    distinct_upto(k, k.len() as int)
}

/// Position `j` holds the first key that repeats an earlier one.
pub open spec fn first_repeat(k: Seq<Key>, j: int) -> bool {
    &&& 0 <= j < k.len()
    &&& distinct_upto(k, j)
    &&& exists|i: int| 0 <= i < j && #[trigger] k[i] == k[j]
}

/// `x` is the least key (in key order) of `s` that `t` lacks.
pub open spec fn least_outside(s: Seq<Key>, t: Seq<Key>, x: Key) -> bool {
    &&& s.contains(x)
    &&& !t.contains(x)
    &&& forall|y: Key| #[trigger] s.contains(y) && !t.contains(y) ==> y == x || key_lt(x, y)
}

/// Every key of `s` is a key of `t`.
pub open spec fn covered(s: Seq<Key>, t: Seq<Key>) -> bool {
    forall|y: Key| #[trigger] s.contains(y) ==> t.contains(y)
}

/// Keys in strictly increasing key order.
pub open spec fn sorted_keys(k: Seq<Key>) -> bool {
    forall|a: int, b: int| 0 <= a < b < k.len() ==> key_lt(#[trigger] k[a], #[trigger] k[b])
}

/// Position `j` holds the first derived key without a primary claim.
pub open spec fn first_unbacked(d: Seq<Key>, p: Seq<Key>, j: int) -> bool {
    &&& 0 <= j < d.len()
    &&& !p.contains(d[j])
    &&& forall|i: int| 0 <= i < j ==> p.contains(#[trigger] d[i])
}

/// Every element of `out` is an element of `orig`.
pub open spec fn drawn_from<T>(out: Seq<T>, orig: Seq<T>) -> bool {
    forall|i: int| 0 <= i < out.len() ==> exists|j: int| 0 <= j < orig.len() && #[trigger] out[i] == orig[j]
}

/// The claim sets close: distinct canonical rows, distinct primary claims,
/// the same rows on both sides, and every derived claim backed by a primary
/// one.
pub open spec fn claims_close(ck: Seq<Key>, pk: Seq<Key>, dk: Seq<Key>) -> bool {
    &&& distinct(ck)
    &&& distinct(pk)
    &&& covered(pk, ck)
    &&& covered(ck, pk)
    &&& covered(dk, pk)
}

/// Exact proof that canonical rows and primary claim keys are the same set.
#[derive(Debug, PartialEq, Eq)]
pub struct ClaimCertificate {
    canonical: Vec<IndexRow>,
    primary: Vec<(IndexRow, ClaimSite)>,
    derived: Vec<DerivedClaim>,
}

impl ClaimCertificate {
    /// The canonical rows, in key order.
    pub closed spec fn rows(&self) -> Seq<IndexRow> {
        self.canonical@
    }

    /// The primary claims, in key order of their rows.
    pub closed spec fn claims(&self) -> Seq<(IndexRow, ClaimSite)> {
        self.primary@
    }

    /// The derived claims, in the order supplied.
    pub closed spec fn derivations(&self) -> Seq<DerivedClaim> {
        self.derived@
    }

    /// The rows are in strict key order, the primary claims name exactly
    /// those rows in the same order, and every derived claim names one.
    pub open spec fn closed_sets(&self) -> bool {
        &&& sorted_keys(keys_of(self.rows()))
        &&& claim_keys(self.claims()) == keys_of(self.rows())
        &&& covered(derived_keys(self.derivations()), keys_of(self.rows()))
    }

    #[verifier::type_invariant]
    spec fn inv(self) -> bool {
        self.closed_sets()
    }

    /// Closes an independently supplied claim set. In order, it reports the
    /// first canonical row that repeats an earlier one, the first primary
    /// claim that repeats an earlier one, the least claimed row that is not
    /// canonical, the least canonical row without a claim, and the first
    /// derived claim without a primary claim.
    pub fn close(
        canonical: Vec<IndexRow>,
        primary: Vec<(IndexRow, ClaimSite)>,
        derived: Vec<DerivedClaim>,
    ) -> (r: Result<ClaimCertificate, ProjectionError>)
        ensures
            r is Ok <==> claims_close(
                keys_of(canonical@),
                claim_keys(primary@),
                derived_keys(derived@),
            ),
            !distinct(keys_of(canonical@)) ==> (r matches Err(
                ProjectionError::DuplicateCanonicalRow(x),
            ) && exists|j: int|
                first_repeat(keys_of(canonical@), j) && row_key(*x) == keys_of(canonical@)[j]),
            distinct(keys_of(canonical@)) && !distinct(claim_keys(primary@)) ==> (r matches Err(
                ProjectionError::MultiplyClaimedRow(x),
            ) && exists|j: int|
                first_repeat(claim_keys(primary@), j) && row_key(*x) == claim_keys(primary@)[j]),
            distinct(keys_of(canonical@)) && distinct(claim_keys(primary@)) && !covered(
                claim_keys(primary@),
                keys_of(canonical@),
            ) ==> (r matches Err(ProjectionError::UnknownClaimedRow(x)) && least_outside(
                claim_keys(primary@),
                keys_of(canonical@),
                row_key(*x),
            )),
            distinct(keys_of(canonical@)) && distinct(claim_keys(primary@)) && covered(
                claim_keys(primary@),
                keys_of(canonical@),
            ) && !covered(keys_of(canonical@), claim_keys(primary@)) ==> (r matches Err(
                ProjectionError::UnclaimedRow(x),
            ) && least_outside(keys_of(canonical@), claim_keys(primary@), row_key(*x))),
            distinct(keys_of(canonical@)) && distinct(claim_keys(primary@)) && covered(
                claim_keys(primary@),
                keys_of(canonical@),
            ) && covered(keys_of(canonical@), claim_keys(primary@)) && !covered(
                derived_keys(derived@),
                claim_keys(primary@),
            ) ==> (r matches Err(ProjectionError::DerivedWithoutPrimary(x)) && exists|j: int|
                first_unbacked(derived_keys(derived@), claim_keys(primary@), j) && row_key(*x)
                    == derived_keys(derived@)[j]),
            r matches Ok(c) ==> {
                &&& c.closed_sets()
                &&& c.rows().len() == canonical@.len()
                &&& forall|y: Key| #[trigger]
                    keys_of(c.rows()).contains(y) <==> keys_of(canonical@).contains(y)
                &&& drawn_from(c.rows(), canonical@)
                &&& drawn_from(c.claims(), primary@)
                &&& c.derivations() == derived@
            },
    {
        let ck = row_keys(&canonical);
        let ghost ck0 = keys_of(canonical@);
        let ghost pk0 = claim_keys(primary@);
        let ghost dk0 = derived_keys(derived@);
        match first_repeat_index(&ck) {
            Some(j) => {
                let x = canonical[j].copy();
                return Err(ProjectionError::DuplicateCanonicalRow(Box::new(x)));
            },
            None => {},
        }
        let pk = claim_row_keys(&primary);
        match first_repeat_index(&pk) {
            Some(j) => {
                let x = primary[j].0.copy();
                return Err(ProjectionError::MultiplyClaimedRow(Box::new(x)));
            },
            None => {},
        }
        match least_outside_index(&pk, &ck) {
            Some(j) => {
                let x = primary[j].0.copy();
                return Err(ProjectionError::UnknownClaimedRow(Box::new(x)));
            },
            None => {},
        }
        match least_outside_index(&ck, &pk) {
            Some(j) => {
                let x = canonical[j].copy();
                return Err(ProjectionError::UnclaimedRow(Box::new(x)));
            },
            None => {},
        }
        let mut j: usize = 0;
        while j < derived.len()
            invariant
                j <= derived@.len(),
                kseq(pk@) == claim_keys(primary@),
                ck0 == keys_of(canonical@),
                pk0 == claim_keys(primary@),
                dk0 == derived_keys(derived@),
                distinct(ck0),
                distinct(pk0),
                covered(pk0, ck0),
                covered(ck0, pk0),
                forall|i: int| 0 <= i < j ==> claim_keys(primary@).contains(
                    #[trigger] derived_keys(derived@)[i],
                ),
            decreases derived@.len() - j,
        {
            let k = row_key_of(&derived[j].row);
            if !has_key(&pk, &k) {
                let x = derived[j].row.copy();
                proof {
                    assert(dk0[j as int] == row_key(derived@[j as int].row));
                    assert(first_unbacked(dk0, pk0, j as int));
                    assert(dk0.contains(dk0[j as int]));
                }
                return Err(ProjectionError::DerivedWithoutPrimary(Box::new(x)));
            }
            j += 1;
        }
        proof {
            assert forall|y: Key| #[trigger] derived_keys(derived@).contains(y) implies claim_keys(
                primary@,
            ).contains(y) by {
                let i = choose|i: int|
                    0 <= i < derived_keys(derived@).len() && derived_keys(derived@)[i] == y;
                assert(claim_keys(primary@).contains(derived_keys(derived@)[i]));
            }
        }
        let ghost orig_rows = canonical@;
        let ghost orig_claims = primary@;
        let (rows, rkeys) = sort_rows(canonical, ck);
        let (claims, qkeys) = sort_claims(primary, pk);
        proof {
            assert forall|y: Key| keys_of(rows@).contains(y) <==> claim_keys(claims@).contains(y) by {
                if keys_of(rows@).contains(y) {
                    assert(ck0.contains(y));
                    assert(pk0.contains(y));
                }
                if claim_keys(claims@).contains(y) {
                    assert(pk0.contains(y));
                    assert(ck0.contains(y));
                }
            }
            lemma_sorted_unique(keys_of(rows@), claim_keys(claims@));
            assert forall|y: Key| #[trigger] derived_keys(derived@).contains(y) implies keys_of(
                rows@,
            ).contains(y) by {
                assert(pk0.contains(y));
                assert(ck0.contains(y));
            }
        }
        let c = ClaimCertificate { canonical: rows, primary: claims, derived };
        proof {
            assert(c.closed_sets());
            assert(c.rows().len() == orig_rows.len());
            assert(forall|y: Key| #[trigger]
                keys_of(c.rows()).contains(y) <==> keys_of(orig_rows).contains(y));
            assert(c.derivations() == derived@);
        }
        Ok(c)
    }

    /// Whether exact set equality was proven; always true of a certificate.
    pub fn is_closed(&self) -> (b: bool)
        ensures
            b == (self.rows().len() == self.claims().len()),
            b,
    {
        proof {
            use_type_invariant(self);
            assert(keys_of(self.rows()).len() == claim_keys(self.claims()).len());
        }
        self.canonical.len() == self.primary.len()
    }

    /// The primary claims, in key order of their rows.
    pub fn primary(&self) -> (r: &[(IndexRow, ClaimSite)])
        ensures
            r@ == self.claims(),
            self.closed_sets(),
    {
        proof {
            use_type_invariant(self);
        }
        self.primary.as_slice()
    }

    /// The derived claims.
    pub fn derived(&self) -> (r: &[DerivedClaim])
        ensures
            r@ == self.derivations(),
            self.closed_sets(),
    {
        proof {
            use_type_invariant(self);
        }
        self.derived.as_slice()
    }

    /// The canonical rows, in key order.
    pub fn canonical(&self) -> (r: &[IndexRow])
        ensures
            r@ == self.rows(),
            self.closed_sets(),
    {
        proof {
            use_type_invariant(self);
        }
        self.canonical.as_slice()
    }
}

fn row_keys(v: &Vec<IndexRow>) -> (r: Vec<Vec<KeyAtom>>)
    ensures
        kseq(r@) == keys_of(v@),
{
    let mut r: Vec<Vec<KeyAtom>> = Vec::new();
    let mut i: usize = 0;
    while i < v.len()
        invariant
            i <= v@.len(),
            kseq(r@) == keys_of(v@.take(i as int)),
        decreases v@.len() - i,
    {
        let k = row_key_of(&v[i]);
        let ghost before = r@;
        r.push(k);
        assert(v@.take(i + 1) =~= v@.take(i as int).push(v@[i as int]));
        assert(kseq(r@) =~= kseq(before).push(atoms(k@)));
        assert(keys_of(v@.take(i + 1)) =~= keys_of(v@.take(i as int)).push(row_key(v@[i as int])));
        i += 1;
    }
    assert(v@.take(v@.len() as int) =~= v@);
    r
}

fn claim_row_keys(v: &Vec<(IndexRow, ClaimSite)>) -> (r: Vec<Vec<KeyAtom>>)
    ensures
        kseq(r@) == claim_keys(v@),
{
    let mut r: Vec<Vec<KeyAtom>> = Vec::new();
    let mut i: usize = 0;
    while i < v.len()
        invariant
            i <= v@.len(),
            kseq(r@) == claim_keys(v@.take(i as int)),
        decreases v@.len() - i,
    {
        let k = row_key_of(&v[i].0);
        let ghost before = r@;
        r.push(k);
        assert(v@.take(i + 1) =~= v@.take(i as int).push(v@[i as int]));
        assert(kseq(r@) =~= kseq(before).push(atoms(k@)));
        assert(claim_keys(v@.take(i + 1)) =~= claim_keys(v@.take(i as int)).push(
            row_key(v@[i as int].0),
        ));
        i += 1;
    }
    assert(v@.take(v@.len() as int) =~= v@);
    r
}

fn has_key(ks: &Vec<Vec<KeyAtom>>, k: &Vec<KeyAtom>) -> (r: bool)
    ensures
        r == kseq(ks@).contains(atoms(k@)),
{
    let mut i: usize = 0;
    while i < ks.len()
        invariant
            i <= ks@.len(),
            forall|j: int| 0 <= j < i ==> atoms(#[trigger] ks@[j]@) != atoms(k@),
        decreases ks@.len() - i,
    {
        if key_eq(&ks[i], k) {
            assert(kseq(ks@)[i as int] == atoms(k@));
            return true;
        }
        i += 1;
    }
    assert(!kseq(ks@).contains(atoms(k@))) by {
        if kseq(ks@).contains(atoms(k@)) {
            let j = choose|j: int| 0 <= j < kseq(ks@).len() && kseq(ks@)[j] == atoms(k@);
            assert(atoms(ks@[j]@) != atoms(k@));
        }
    }
    false
}

fn first_repeat_index(ks: &Vec<Vec<KeyAtom>>) -> (r: Option<usize>)
    ensures
        r matches Some(j) ==> first_repeat(kseq(ks@), j as int),
        r is None ==> distinct(kseq(ks@)),
{
    let ghost k = kseq(ks@);
    let mut j: usize = 0;
    while j < ks.len()
        invariant
            j <= ks@.len(),
            k == kseq(ks@),
            distinct_upto(k, j as int),
        decreases ks@.len() - j,
    {
        let mut i: usize = 0;
        while i < j
            invariant
                i <= j < ks@.len(),
                k == kseq(ks@),
                distinct_upto(k, j as int),
                forall|a: int| 0 <= a < i ==> k[a] != k[j as int],
            decreases j - i,
        {
            if key_eq(&ks[i], &ks[j]) {
                assert(k[i as int] == atoms(ks@[i as int]@));
                assert(k[j as int] == atoms(ks@[j as int]@));
                assert(k[i as int] == k[j as int]);
                return Some(j);
            }
            assert(k[i as int] == atoms(ks@[i as int]@));
            assert(k[j as int] == atoms(ks@[j as int]@));
            i += 1;
        }
        assert(distinct_upto(k, j + 1)) by {
            assert forall|a: int, b: int| 0 <= a < b < j + 1 implies #[trigger] k[a] != #[trigger] k[b] by {
                if b < j {
                    assert(distinct_upto(k, j as int));
                }
            }
        }
        j += 1;
    }
    None
}

fn least_outside_index(s: &Vec<Vec<KeyAtom>>, t: &Vec<Vec<KeyAtom>>) -> (r: Option<usize>)
    ensures
        r matches Some(i) ==> i < s@.len() && least_outside(kseq(s@), kseq(t@), kseq(s@)[i as int]),
        r is None ==> covered(kseq(s@), kseq(t@)),
{
    let ghost ks = kseq(s@);
    let ghost kt = kseq(t@);
    let mut best: Option<usize> = None;
    let mut i: usize = 0;
    while i < s.len()
        invariant
            i <= s@.len(),
            ks == kseq(s@),
            kt == kseq(t@),
            best matches Some(b) ==> b < i && !kt.contains(ks[b as int]),
            best is None ==> forall|j: int| 0 <= j < i ==> kt.contains(#[trigger] ks[j]),
            best matches Some(b) ==> forall|j: int|
                0 <= j < i && !kt.contains(#[trigger] ks[j]) ==> ks[j] == ks[b as int] || key_lt(
                    ks[b as int],
                    ks[j],
                ),
        decreases s@.len() - i,
    {
        if !has_key(t, &s[i]) {
            match best {
                None => {
                    best = Some(i);
                },
                Some(b) => {
                    if key_less(&s[i], &s[b]) {
                        proof {
                            assert forall|j: int|
                                0 <= j < i + 1 && !kt.contains(#[trigger] ks[j]) implies ks[j]
                                == ks[i as int] || key_lt(ks[i as int], ks[j]) by {
                                if j < i && ks[j] != ks[b as int] {
                                    lemma_key_lt_trans(ks[i as int], ks[b as int], ks[j]);
                                }
                            }
                        }
                        best = Some(i);
                    } else {
                        proof {
                            lemma_key_lt_total(ks[i as int], ks[b as int]);
                        }
                    }
                },
            }
        }
        i += 1;
    }
    proof {
        assert forall|y: Key| #[trigger] ks.contains(y) && !kt.contains(y) implies (best matches Some(
            b,
        ) && (y == ks[b as int] || key_lt(ks[b as int], y))) by {
            let j = choose|j: int| 0 <= j < ks.len() && ks[j] == y;
        }
    }
    best
}

proof fn lemma_kseq_insert(v: Seq<Vec<KeyAtom>>, p: int, k: Vec<KeyAtom>)
    requires
        0 <= p <= v.len(),
    ensures
        kseq(v.insert(p, k)) == kseq(v).insert(p, atoms(k@)),
{
    assert(kseq(v.insert(p, k)) =~= kseq(v).insert(p, atoms(k@)));
}

/// Inserts a key (and its value, at the same place) into a strictly sorted
/// list of keys that lacks it.
fn insert_sorted<T>(
    sk: &mut Vec<Vec<KeyAtom>>,
    vals: &mut Vec<T>,
    k: Vec<KeyAtom>,
    v: T,
) -> (p: usize)
    requires
        sorted_keys(kseq(old(sk)@)),
        !kseq(old(sk)@).contains(atoms(k@)),
        old(sk)@.len() == old(vals)@.len(),
    ensures
        p <= old(sk)@.len(),
        final(sk)@ == old(sk)@.insert(p as int, k),
        final(vals)@ == old(vals)@.insert(p as int, v),
        sorted_keys(kseq(final(sk)@)),
{
    let ghost s = kseq(sk@);
    let ghost y = atoms(k@);
    let mut p: usize = 0;
    while p < sk.len() && key_less(&sk[p], &k)
        invariant
            p <= sk@.len(),
            s == kseq(sk@),
            y == atoms(k@),
            forall|q: int| 0 <= q < p ==> key_lt(#[trigger] s[q], y),
        decreases sk@.len() - p,
    {
        assert(s[p as int] == atoms(sk@[p as int]@));
        p += 1;
    }
    proof {
        if p < s.len() {
            assert(s[p as int] != y) by {
                assert(s.contains(s[p as int]));
            }
            lemma_key_lt_total(s[p as int], y);
        }
        let t = s.insert(p as int, y);
        assert forall|a: int, b: int| 0 <= a < b < t.len() implies key_lt(
            #[trigger] t[a],
            #[trigger] t[b],
        ) by {
            if a < p && b == p {
            } else if a < p && b > p {
                if b - 1 > p {
                    assert(key_lt(s[p as int], s[b - 1]));
                    lemma_key_lt_trans(y, s[p as int], s[b - 1]);
                }
                lemma_key_lt_trans(s[a], y, s[b - 1]);
            } else if a == p {
                if b - 1 > p {
                    lemma_key_lt_trans(y, s[p as int], s[b - 1]);
                }
            } else if a < p && b < p {
            } else {
                assert(key_lt(s[a - 1], s[b - 1]));
            }
        }
        lemma_kseq_insert(sk@, p as int, k);
    }
    sk.insert(p, k);
    vals.insert(p, v);
    p
}

proof fn lemma_insert_keys(old_k: Seq<Key>, p: int, ok: Seq<Key>, n: int)
    requires
        0 <= p <= old_k.len(),
        1 <= n <= ok.len(),
        forall|z: Key| #[trigger] old_k.contains(z) <==> ok.skip(n).contains(z),
    ensures
        forall|z: Key| #[trigger]
            old_k.insert(p, ok[n - 1]).contains(z) <==> ok.skip(n - 1).contains(z),
{
    let t = old_k.insert(p, ok[n - 1]);
    let s1 = ok.skip(n - 1);
    assert(s1 =~= seq![ok[n - 1]] + ok.skip(n));
    assert forall|z: Key| #[trigger] t.contains(z) <==> s1.contains(z) by {
        if t.contains(z) {
            let m = choose|m: int| 0 <= m < t.len() && #[trigger] t[m] == z;
            if m < p {
                assert(old_k[m] == z);
                assert(old_k.contains(z));
                let q = choose|q: int| 0 <= q < ok.skip(n).len() && #[trigger] ok.skip(n)[q] == z;
                assert(s1[q + 1] == z);
            } else if m > p {
                assert(old_k[m - 1] == z);
                assert(old_k.contains(z));
                let q = choose|q: int| 0 <= q < ok.skip(n).len() && #[trigger] ok.skip(n)[q] == z;
                assert(s1[q + 1] == z);
            } else {
                assert(s1[0] == z);
            }
        }
        if s1.contains(z) {
            let m = choose|m: int| 0 <= m < s1.len() && #[trigger] s1[m] == z;
            if m == 0 {
                assert(t[p] == z);
            } else {
                assert(ok.skip(n)[m - 1] == z);
                assert(ok.skip(n).contains(z));
                assert(old_k.contains(z));
                let q = choose|q: int| 0 <= q < old_k.len() && #[trigger] old_k[q] == z;
                if q < p {
                    assert(t[q] == z);
                } else {
                    assert(t[q + 1] == z);
                }
            }
        }
    }
}

proof fn lemma_insert_from<T>(old_out: Seq<T>, p: int, orig: Seq<T>, n: int)
    requires
        0 <= p <= old_out.len(),
        1 <= n <= orig.len(),
        drawn_from(old_out, orig),
    ensures
        drawn_from(old_out.insert(p, orig[n - 1]), orig),
{
    let t = old_out.insert(p, orig[n - 1]);
    assert forall|i: int| 0 <= i < t.len() implies exists|j: int|
        0 <= j < orig.len() && #[trigger] t[i] == orig[j] by {
        if i < p {
            assert(t[i] == old_out[i]);
        } else if i == p {
            assert(t[i] == orig[n - 1]);
        } else {
            assert(t[i] == old_out[i - 1]);
        }
    }
}

/// Two strictly sorted key lists with the same keys are equal.
proof fn lemma_sorted_unique(a: Seq<Key>, b: Seq<Key>)
    requires
        sorted_keys(a),
        sorted_keys(b),
        forall|y: Key| a.contains(y) <==> b.contains(y),
    ensures
        a == b,
    decreases a.len(),
{
    if a.len() == 0 {
        if b.len() > 0 {
            assert(b.contains(b[0]));
        }
        assert(a =~= b);
    } else {
        assert(a.contains(a[0]));
        assert(b.len() > 0);
        assert(b.contains(b[0]));
        let i = choose|i: int| 0 <= i < b.len() && b[i] == a[0];
        let j = choose|j: int| 0 <= j < a.len() && a[j] == b[0];
        if a[0] != b[0] {
            assert(i > 0 && j > 0);
            assert(key_lt(b[0], b[i]));
            assert(key_lt(a[0], a[j]));
            lemma_key_lt_asym(a[0], b[0]);
        }
        let a1 = a.drop_first();
        let b1 = b.drop_first();
        assert forall|y: Key| a1.contains(y) <==> b1.contains(y) by {
            if a1.contains(y) {
                let k = choose|k: int| 0 <= k < a1.len() && a1[k] == y;
                assert(a[k + 1] == y);
                assert(key_lt(a[0], a[k + 1]));
                assert(b.contains(y));
                let m = choose|m: int| 0 <= m < b.len() && b[m] == y;
                if m == 0 {
                    lemma_key_lt_irreflexive(y);
                }
                assert(b1[m - 1] == y);
            }
            if b1.contains(y) {
                let k = choose|k: int| 0 <= k < b1.len() && b1[k] == y;
                assert(b[k + 1] == y);
                assert(key_lt(b[0], b[k + 1]));
                assert(a.contains(y));
                let m = choose|m: int| 0 <= m < a.len() && a[m] == y;
                if m == 0 {
                    lemma_key_lt_irreflexive(y);
                }
                assert(a1[m - 1] == y);
            }
        }
        lemma_sorted_unique(a1, b1);
        assert(a =~= seq![a[0]] + a1);
        assert(b =~= seq![b[0]] + b1);
    }
}

/// Sorts distinct rows by key, moving each row.
fn sort_rows(rows: Vec<IndexRow>, ks: Vec<Vec<KeyAtom>>) -> (r: (Vec<IndexRow>, Vec<Vec<KeyAtom>>))
    requires
        kseq(ks@) == keys_of(rows@),
        distinct(keys_of(rows@)),
    ensures
        r.0@.len() == rows@.len(),
        kseq(r.1@) == keys_of(r.0@),
        sorted_keys(keys_of(r.0@)),
        forall|y: Key| #[trigger] keys_of(r.0@).contains(y) <==> keys_of(rows@).contains(y),
        drawn_from(r.0@, rows@),
{
    let ghost orig = rows@;
    let ghost ok = keys_of(rows@);
    let mut rest = rows;
    let mut rest_k = ks;
    let mut out: Vec<IndexRow> = Vec::new();
    let mut out_k: Vec<Vec<KeyAtom>> = Vec::new();
    while rest.len() > 0
        invariant
            rest@ == orig.take(rest@.len() as int),
            kseq(rest_k@) == ok.take(rest@.len() as int),
            ok == keys_of(orig),
            distinct(ok),
            rest@.len() <= orig.len(),
            out@.len() + rest@.len() == orig.len(),
            kseq(out_k@) == keys_of(out@),
            sorted_keys(kseq(out_k@)),
            forall|y: Key| #[trigger]
                kseq(out_k@).contains(y) <==> ok.skip(rest@.len() as int).contains(y),
            drawn_from(out@, orig),
        decreases rest@.len(),
    {
        let n = rest.len();
        assert(kseq(rest_k@).len() == rest_k@.len());
        let ghost rk_old = rest_k@;
        let row = rest.pop().unwrap();
        let k = rest_k.pop().unwrap();
        assert(row == orig[n - 1]);
        assert(atoms(k@) == ok[n - 1]) by {
            assert(kseq(rk_old)[n - 1] == atoms(k@));
        }
        assert(!kseq(out_k@).contains(atoms(k@))) by {
            if kseq(out_k@).contains(atoms(k@)) {
                let s0 = ok.skip(n as int);
                let m = choose|m: int| 0 <= m < s0.len() && #[trigger] s0[m] == atoms(k@);
                assert(ok[m + n] == ok[n - 1]);
            }
        }
        let ghost old_out = out@;
        let ghost old_out_k = out_k@;
        let p = insert_sorted(&mut out_k, &mut out, k, row);
        proof {
            lemma_kseq_insert(old_out_k, p as int, k);
            assert(keys_of(out@) =~= keys_of(old_out).insert(p as int, row_key(row)));
            assert(rest@ =~= orig.take(n - 1));
            assert(kseq(rest_k@) =~= ok.take(n - 1));
            lemma_insert_keys(kseq(old_out_k), p as int, ok, n as int);
            lemma_insert_from(old_out, p as int, orig, n as int);
        }
    }
    proof {
        assert(ok.skip(0) =~= ok);
    }
    (out, out_k)
}

/// Sorts primary claims with distinct rows by the key of their row, moving
/// each claim.
fn sort_claims(
    claims: Vec<(IndexRow, ClaimSite)>,
    ks: Vec<Vec<KeyAtom>>,
) -> (r: (Vec<(IndexRow, ClaimSite)>, Vec<Vec<KeyAtom>>))
    requires
        kseq(ks@) == claim_keys(claims@),
        distinct(claim_keys(claims@)),
    ensures
        r.0@.len() == claims@.len(),
        kseq(r.1@) == claim_keys(r.0@),
        sorted_keys(claim_keys(r.0@)),
        forall|y: Key| #[trigger] claim_keys(r.0@).contains(y) <==> claim_keys(claims@).contains(y),
        drawn_from(r.0@, claims@),
{
    let ghost orig = claims@;
    let ghost ok = claim_keys(claims@);
    let mut rest = claims;
    let mut rest_k = ks;
    let mut out: Vec<(IndexRow, ClaimSite)> = Vec::new();
    let mut out_k: Vec<Vec<KeyAtom>> = Vec::new();
    while rest.len() > 0
        invariant
            rest@ == orig.take(rest@.len() as int),
            kseq(rest_k@) == ok.take(rest@.len() as int),
            ok == claim_keys(orig),
            distinct(ok),
            rest@.len() <= orig.len(),
            out@.len() + rest@.len() == orig.len(),
            kseq(out_k@) == claim_keys(out@),
            sorted_keys(kseq(out_k@)),
            forall|y: Key| #[trigger]
                kseq(out_k@).contains(y) <==> ok.skip(rest@.len() as int).contains(y),
            drawn_from(out@, orig),
        decreases rest@.len(),
    {
        let n = rest.len();
        assert(kseq(rest_k@).len() == rest_k@.len());
        let ghost rk_old = rest_k@;
        let item = rest.pop().unwrap();
        let k = rest_k.pop().unwrap();
        assert(item == orig[n - 1]);
        assert(atoms(k@) == ok[n - 1]) by {
            assert(kseq(rk_old)[n - 1] == atoms(k@));
        }
        assert(!kseq(out_k@).contains(atoms(k@))) by {
            if kseq(out_k@).contains(atoms(k@)) {
                let s0 = ok.skip(n as int);
                let m = choose|m: int| 0 <= m < s0.len() && #[trigger] s0[m] == atoms(k@);
                assert(ok[m + n] == ok[n - 1]);
            }
        }
        let ghost old_out = out@;
        let ghost old_out_k = out_k@;
        let p = insert_sorted(&mut out_k, &mut out, k, item);
        proof {
            lemma_kseq_insert(old_out_k, p as int, k);
            assert(claim_keys(out@) =~= claim_keys(old_out).insert(p as int, row_key(item.0)));
            assert(rest@ =~= orig.take(n - 1));
            assert(kseq(rest_k@) =~= ok.take(n - 1));
            lemma_insert_keys(kseq(old_out_k), p as int, ok, n as int);
            lemma_insert_from(old_out, p as int, orig, n as int);
        }
    }
    proof {
        assert(ok.skip(0) =~= ok);
    }
    (out, out_k)
}

} // verus!
