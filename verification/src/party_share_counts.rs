//! Party/share accounting: one entry per party giving the number of shares
//! that party controls, with derived totals and bidirectional party/share
//! index conversions.

use vstd::prelude::*;

verus! {

use core::marker::PhantomData;
use crate::TofnFatal;
use crate::TofnResult;
use crate::MAX_TOTAL_SHARE_COUNT;
use crate::MAX_PARTY_SHARE_COUNT;
use crate::collections::TypedUsize;
use crate::collections::Subset;

/// Sum of a sequence of share counts.
pub open spec fn sum_counts(s: Seq<usize>) -> int
    decreases s.len(),
{
    if s.len() == 0 {
        0
    } else {
        sum_counts(s.drop_last()) + s.last()
    }
}

/// Sum of the counts of the parties before `p`: the first global share index
/// belonging to party `p`.
pub open spec fn prefix_sum(s: Seq<usize>, p: int) -> int {
    sum_counts(s.take(p))
}

/// The party that global share index `t` belongs to, for `0 <= t < sum_counts(s)`.
pub open spec fn party_of_share(s: Seq<usize>, t: int) -> int
    decreases s.len(),
{
    if s.len() == 0 {
        0
    } else if t < s[0] {
        0
    } else {
        1 + party_of_share(s.drop_first(), t - s[0])
    }
}

pub proof fn lemma_sum_counts_nonneg(s: Seq<usize>)
    ensures
        sum_counts(s) >= 0,
    decreases s.len(),
{
    if s.len() > 0 {
        lemma_sum_counts_nonneg(s.drop_last());
    }
}

pub proof fn lemma_sum_take_succ(s: Seq<usize>, p: int)
    requires
        0 <= p < s.len(),
    ensures
        sum_counts(s.take(p + 1)) == sum_counts(s.take(p)) + s[p],
{
    assert(s.take(p + 1).drop_last() =~= s.take(p));
    assert(s.take(p + 1).last() == s[p]);
}

pub proof fn lemma_sum_take_le(s: Seq<usize>, p: int)
    requires
        0 <= p <= s.len(),
    ensures
        sum_counts(s.take(p)) <= sum_counts(s),
    decreases s.len() - p,
{
    if p == s.len() {
        assert(s.take(p) =~= s);
    } else {
        lemma_sum_take_succ(s, p);
        lemma_sum_take_le(s, p + 1);
    }
}

pub proof fn lemma_sum_drop_first(s: Seq<usize>)
    requires
        s.len() > 0,
    ensures
        sum_counts(s) == s[0] + sum_counts(s.drop_first()),
    decreases s.len(),
{
    if s.len() == 1 {
        assert(s.drop_first() =~= Seq::<usize>::empty());
        assert(s.drop_last() =~= Seq::<usize>::empty());
    } else {
        assert(s.drop_last().len() > 0);
        lemma_sum_drop_first(s.drop_last());
        assert(s.drop_last().drop_first() =~= s.drop_first().drop_last());
        assert(s.drop_first().last() == s.last());
    }
}

proof fn lemma_prefix_shift(s: Seq<usize>, p: int)
    requires
        s.len() > 0,
        1 <= p <= s.len(),
    ensures
        prefix_sum(s, p) == s[0] + prefix_sum(s.drop_first(), p - 1),
{
    assert(s.take(p).len() > 0);
    lemma_sum_drop_first(s.take(p));
    assert(s.take(p).drop_first() =~= s.drop_first().take(p - 1));
    assert(s.take(p)[0] == s[0]);
}

proof fn lemma_prefix_mono(s: Seq<usize>, p: int, q: int)
    requires
        0 <= p <= q <= s.len(),
    ensures
        prefix_sum(s, p) <= prefix_sum(s, q),
    decreases q - p,
{
    if p < q {
        lemma_sum_take_succ(s, p);
        lemma_prefix_mono(s, p + 1, q);
    }
}

/// Party/share index conversions are mutually inverse: the share index that
/// party `p` obtains for its sub-share `k` maps back to party `p`.
pub proof fn lemma_party_share_round_trip(s: Seq<usize>, p: int, k: int)
    requires
        0 <= p < s.len(),
        0 <= k < s[p],
    ensures
        party_of_share(s, prefix_sum(s, p) + k) == p,
    decreases p,
{
    if p == 0 {
        assert(s.take(0) =~= Seq::<usize>::empty());
        assert(prefix_sum(s, 0) == 0);
    } else {
        lemma_prefix_shift(s, p);
        lemma_party_share_round_trip(s.drop_first(), p - 1, k);
        lemma_prefix_mono(s.drop_first(), 0, p - 1);
        assert(s.drop_first().take(0) =~= Seq::<usize>::empty());
        assert(prefix_sum(s, p) + k - s[0] == prefix_sum(s.drop_first(), p - 1) + k);
        assert(prefix_sum(s, p) + k >= s[0]);
    }
}

/// The range of share indices of the party owning share `t` contains `t`.
pub proof fn lemma_share_in_party_range(s: Seq<usize>, t: int)
    requires
        0 <= t < sum_counts(s),
    ensures
        0 <= party_of_share(s, t) < s.len(),
        prefix_sum(s, party_of_share(s, t)) <= t,
        t < prefix_sum(s, party_of_share(s, t)) + s[party_of_share(s, t)],
    decreases s.len(),
{
    assert(s.len() > 0);
    if t < s[0] {
        assert(s.take(0) =~= Seq::<usize>::empty());
    } else {
        lemma_sum_drop_first(s);
        lemma_share_in_party_range(s.drop_first(), t - s[0]);
        let p = party_of_share(s, t);
        assert(p == 1 + party_of_share(s.drop_first(), t - s[0]));
        lemma_prefix_shift(s, p);
    }
}

/// The global share indices belonging to the selected parties among the
/// first `p` parties, in ascending order.
pub open spec fn selected_shares(s: Seq<usize>, flags: Seq<bool>, p: int) -> Seq<int>
    decreases p,
{
    if p <= 0 {
        Seq::empty()
    } else {
        selected_shares(s, flags, p - 1) + if flags[p - 1] {
            Seq::new(s[p - 1] as nat, |k: int| prefix_sum(s, p - 1) + k)
        } else {
            Seq::empty()
        }
    }
}

/// The combined share count of the selected parties among the first `p`.
pub open spec fn selected_weight(s: Seq<usize>, flags: Seq<bool>, p: int) -> int
    decreases p,
{
    if p <= 0 {
        0
    } else {
        selected_weight(s, flags, p - 1) + if flags[p - 1] {
            s[p - 1] as int
        } else {
            0
        }
    }
}

/// The subset's combined share weight equals the number of share indices
/// it selects.
pub proof fn lemma_selected_weight_len(s: Seq<usize>, flags: Seq<bool>, p: int)
    ensures
        selected_shares(s, flags, p).len() == if selected_weight(s, flags, p) >= 0 {
            selected_weight(s, flags, p)
        } else {
            0
        },
    decreases p,
{
    if p > 0 {
        lemma_selected_weight_len(s, flags, p - 1);
        lemma_selected_weight_nonneg(s, flags, p - 1);
    }
}

/// Every selected share index lies below the sum of the counts considered.
pub proof fn lemma_selected_shares_in_range(s: Seq<usize>, flags: Seq<bool>, p: int)
    requires
        0 <= p <= s.len(),
    ensures
        forall|q: int| 0 <= q < selected_shares(s, flags, p).len()
            ==> 0 <= #[trigger] selected_shares(s, flags, p)[q] < sum_counts(s.take(p)),
    decreases p,
{
    if p > 0 {
        lemma_selected_shares_in_range(s, flags, p - 1);
        lemma_sum_take_succ(s, p - 1);
        lemma_sum_counts_nonneg(s.take(p - 1));
        let prev = selected_shares(s, flags, p - 1);
        let cur = selected_shares(s, flags, p);
        assert forall|q: int| 0 <= q < cur.len() implies 0 <= #[trigger] cur[q] < sum_counts(
            s.take(p),
        ) by {
            if q < prev.len() {
                assert(cur[q] == prev[q]);
            } else {
                assert(flags[p - 1]);
                assert(cur[q] == prefix_sum(s, p - 1) + (q - prev.len()));
                assert(q - prev.len() < s[p - 1]);
            }
        };
    }
}

pub proof fn lemma_selected_weight_nonneg(s: Seq<usize>, flags: Seq<bool>, p: int)
    ensures
        selected_weight(s, flags, p) >= 0,
    decreases p,
{
    if p > 0 {
        lemma_selected_weight_nonneg(s, flags, p - 1);
    }
}

pub proof fn lemma_selected_weight_le_sum(s: Seq<usize>, flags: Seq<bool>, p: int)
    requires
        0 <= p <= s.len(),
    ensures
        selected_weight(s, flags, p) <= sum_counts(s.take(p)),
    decreases p,
{
    if p > 0 {
        lemma_selected_weight_le_sum(s, flags, p - 1);
        lemma_sum_take_succ(s, p - 1);
    }
}

/// With every party owning at least one share, there are no more parties
/// than shares.
pub proof fn lemma_len_le_sum(s: Seq<usize>)
    requires
        forall|i: int| 0 <= i < s.len() ==> 1 <= #[trigger] s[i],
    ensures
        s.len() <= sum_counts(s),
    decreases s.len(),
{
    if s.len() > 0 {
        lemma_len_le_sum(s.drop_last());
    }
}

/// An ordered sequence, one entry per party, of the share count owned by
/// that party. Immutable once constructed at keygen time.
pub struct PartyShareCounts<P> {
    counts: Vec<usize>,
    total: usize,
    marker: PhantomData<P>,
}

impl<P> PartyShareCounts<P> {
    pub closed spec fn view(&self) -> Seq<usize> {
        self.counts@
    }

    pub closed spec fn spec_total(&self) -> usize {
        self.total
    }

    /// Every party owns at least one share and at most the per-party cap,
    /// and the total respects the global cap.
    pub open spec fn counts_ok(s: Seq<usize>) -> bool {
        (forall|i: int| 0 <= i < s.len() ==> 1 <= #[trigger] s[i] <= MAX_PARTY_SHARE_COUNT)
        && sum_counts(s) <= MAX_TOTAL_SHARE_COUNT
    }

    #[verifier::type_invariant]
    spec fn type_inv(self) -> bool {
        Self::counts_ok(self.counts@) && self.total == sum_counts(self.counts@)
    }

    /// Construction validates the caps: it fails exactly when some party has
    /// zero shares, some party exceeds the per-party cap, or the total
    /// exceeds the global cap.
    pub fn from_vec(counts: Vec<usize>) -> (r: TofnResult<Self>)
        ensures
            match r {
                Ok(c) => Self::counts_ok(counts@) && c@ == counts@
                    && c.spec_total() == sum_counts(counts@),
                Err(e) => !Self::counts_ok(counts@) && e == TofnFatal,
            },
    {
        let mut total: usize = 0;
        let mut i: usize = 0;
        while i < counts.len()
            invariant
                0 <= i <= counts@.len(),
                total == sum_counts(counts@.take(i as int)),
                total <= MAX_TOTAL_SHARE_COUNT,
                forall|j: int| 0 <= j < i ==> 1 <= #[trigger] counts@[j] <= MAX_PARTY_SHARE_COUNT,
            decreases counts@.len() - i,
        {
            let c = counts[i];
            if c == 0 || c > MAX_PARTY_SHARE_COUNT {
                return Err(TofnFatal);
            }
            proof {
                lemma_sum_take_succ(counts@, i as int);
                lemma_sum_take_le(counts@, i as int + 1);
            }
            if c > MAX_TOTAL_SHARE_COUNT - total {
                proof {
                    lemma_sum_take_le(counts@, i as int + 1);
                }
                return Err(TofnFatal);
            }
            total = total + c;
            i = i + 1;
        }
        proof {
            assert(counts@.take(counts@.len() as int) =~= counts@);
        }
        Ok(PartyShareCounts { counts, total, marker: PhantomData })
    }

    /// A copy sharing nothing with the original: the counts are plain
    /// integers.
    pub fn clone_counts(&self) -> (r: Self)
        ensures
            r@ == self@,
            r.spec_total() == self.spec_total(),
    {
        proof {
            use_type_invariant(self);
        }
        let mut counts: Vec<usize> = Vec::new();
        let mut i: usize = 0;
        while i < self.counts.len()
            invariant
                i <= self.counts@.len(),
                counts@ == self.counts@.take(i as int),
            decreases self.counts@.len() - i,
        {
            proof {
                assert(self.counts@.take(i as int).push(self.counts@[i as int]) =~= self.counts@
                    .take(i as int + 1));
            }
            counts.push(self.counts[i]);
            i += 1;
        }
        proof {
            assert(self.counts@.take(self.counts@.len() as int) =~= self.counts@);
        }
        PartyShareCounts { counts, total: self.total, marker: PhantomData }
    }

    pub fn party_count(&self) -> (r: usize)
        ensures
            r == self@.len(),
    {
        self.counts.len()
    }

    pub fn total_share_count(&self) -> (r: usize)
        ensures
            r == sum_counts(self@),
            r <= MAX_TOTAL_SHARE_COUNT,
    {
        proof {
            use_type_invariant(self);
        }
        self.total
    }

    pub fn party_share_count(&self, party: TypedUsize<P>) -> (r: TofnResult<usize>)
        ensures
            match r {
                Ok(c) => party.spec_as_usize() < self@.len()
                    && c == self@[party.spec_as_usize() as int]
                    && 1 <= c <= MAX_PARTY_SHARE_COUNT,
                Err(e) => party.spec_as_usize() >= self@.len() && e == TofnFatal,
            },
    {
        proof {
            use_type_invariant(self);
        }
        let p = party.as_usize();
        if p < self.counts.len() {
            Ok(self.counts[p])
        } else {
            Err(TofnFatal)
        }
    }

    /// Converts a party index plus a local sub-share offset into the global
    /// share index; fails exactly when the party is out of range or the
    /// offset is not below that party's share count.
    pub fn party_to_share_id<K>(&self, party: TypedUsize<P>, subshare: usize) -> (r: TofnResult<
        TypedUsize<K>,
    >)
        ensures
            match r {
                Ok(t) => party.spec_as_usize() < self@.len()
                    && subshare < self@[party.spec_as_usize() as int]
                    && t.spec_as_usize() == prefix_sum(self@, party.spec_as_usize() as int)
                        + subshare,
                Err(e) => (party.spec_as_usize() >= self@.len()
                    || subshare >= self@[party.spec_as_usize() as int]) && e == TofnFatal,
            },
    {
        proof {
            use_type_invariant(self);
        }
        let p = party.as_usize();
        if p >= self.counts.len() {
            return Err(TofnFatal);
        }
        if subshare >= self.counts[p] {
            return Err(TofnFatal);
        }
        let mut base: usize = 0;
        let mut i: usize = 0;
        while i < p
            invariant
                0 <= i <= p < self@.len(),
                base == prefix_sum(self@, i as int),
                self.type_inv(),
            decreases p - i,
        {
            proof {
                lemma_sum_take_succ(self@, i as int);
                lemma_sum_take_le(self@, i as int + 1);
                lemma_sum_counts_nonneg(self@.take(i as int));
            }
            base = base + self.counts[i];
            i = i + 1;
        }
        proof {
            lemma_sum_take_le(self@, p as int);
            lemma_sum_counts_nonneg(self@.take(p as int));
            lemma_sum_take_succ(self@, p as int);
            lemma_sum_take_le(self@, p as int + 1);
        }
        Ok(TypedUsize::from_usize(base + subshare))
    }

    /// Converts a global share index back to the party that owns it; fails
    /// exactly when the share index is out of range.
    pub fn share_to_party_id<K>(&self, share: TypedUsize<K>) -> (r: TofnResult<TypedUsize<P>>)
        ensures
            match r {
                Ok(p) => share.spec_as_usize() < sum_counts(self@)
                    && p.spec_as_usize() == party_of_share(self@, share.spec_as_usize() as int),
                Err(e) => share.spec_as_usize() >= sum_counts(self@) && e == TofnFatal,
            },
    {
        proof {
            use_type_invariant(self);
        }
        let t = share.as_usize();
        if t >= self.total {
            return Err(TofnFatal);
        }
        proof {
            lemma_share_in_party_range(self@, t as int);
        }
        let mut base: usize = 0;
        let mut p: usize = 0;
        loop
            invariant_except_break
                0 <= p < self@.len(),
                base == prefix_sum(self@, p as int),
                base <= t < sum_counts(self@),
                t < MAX_TOTAL_SHARE_COUNT,
                party_of_share(self@, t as int) >= p,
                self.type_inv(),
            ensures
                p == party_of_share(self@, t as int),
            decreases self@.len() - p,
        {
            proof {
                lemma_share_in_party_range(self@, t as int);
                lemma_len_le_sum(self@);
                lemma_sum_take_succ(self@, p as int);
                lemma_sum_take_le(self@, p as int + 1);
                lemma_sum_counts_nonneg(self@.take(p as int));
            }
            if t < base + self.counts[p] {
                proof {
                    if party_of_share(self@, t as int) > p {
                        lemma_prefix_mono(self@, p as int + 1, party_of_share(self@, t as int));
                    }
                }
                break;
            }
            base = base + self.counts[p];
            p = p + 1;
        }
        Ok(TypedUsize::from_usize(p))
    }

    /// The combined share count of the parties in the selection; fails
    /// exactly when the selection was built for a different party count.
    pub fn subset_weight(&self, parties: &Subset<P>) -> (r: TofnResult<usize>)
        ensures
            match r {
                Ok(w) => parties@.len() == self@.len()
                    && w == selected_weight(self@, parties@, self@.len() as int),
                Err(e) => parties@.len() != self@.len() && e == TofnFatal,
            },
    {
        proof {
            use_type_invariant(self);
        }
        if parties.max_size() != self.counts.len() {
            return Err(TofnFatal);
        }
        let mut w: usize = 0;
        let mut p: usize = 0;
        while p < self.counts.len()
            invariant
                0 <= p <= self@.len(),
                parties@.len() == self@.len(),
                w == selected_weight(self@, parties@, p as int),
                self.type_inv(),
            decreases self@.len() - p,
        {
            proof {
                lemma_selected_weight_le_sum(self@, parties@, p as int + 1);
                lemma_sum_take_le(self@, p as int + 1);
                lemma_selected_weight_nonneg(self@, parties@, p as int);
            }
            if parties.is_member(TypedUsize::from_usize(p)) {
                w = w + self.counts[p];
            }
            p = p + 1;
        }
        Ok(w)
    }

    /// Returns, in ascending share-index order, every global share index
    /// belonging to a party in the selection; fails exactly when the
    /// selection was built for a different party count.
    pub fn share_id_subset<K>(&self, parties: &Subset<P>) -> (r: TofnResult<Vec<TypedUsize<K>>>)
        ensures
            match r {
                Ok(v) => parties@.len() == self@.len()
                    && v@.map_values(|t: TypedUsize<K>| t.spec_as_usize() as int)
                        == selected_shares(self@, parties@, self@.len() as int),
                Err(e) => parties@.len() != self@.len() && e == TofnFatal,
            },
    {
        proof {
            use_type_invariant(self);
        }
        if parties.max_size() != self.counts.len() {
            return Err(TofnFatal);
        }
        let ghost f = |t: TypedUsize<K>| t.spec_as_usize() as int;
        let mut out: Vec<TypedUsize<K>> = Vec::new();
        let mut base: usize = 0;
        let mut p: usize = 0;
        while p < self.counts.len()
            invariant
                0 <= p <= self@.len(),
                parties@.len() == self@.len(),
                base == prefix_sum(self@, p as int),
                out@.map_values(f) == selected_shares(self@, parties@, p as int),
                f == (|t: TypedUsize<K>| t.spec_as_usize() as int),
                self.type_inv(),
            decreases self@.len() - p,
        {
            proof {
                lemma_sum_take_succ(self@, p as int);
                lemma_sum_take_le(self@, p as int + 1);
                lemma_sum_counts_nonneg(self@.take(p as int));
            }
            if parties.is_member(TypedUsize::from_usize(p)) {
                let c = self.counts[p];
                let mut k: usize = 0;
                while k < c
                    invariant
                        0 <= k <= c,
                        p < self@.len(),
                        c == self@[p as int],
                        base == prefix_sum(self@, p as int),
                        base + c <= MAX_TOTAL_SHARE_COUNT,
                        out@.map_values(f) == selected_shares(self@, parties@, p as int)
                            + Seq::new(k as nat, |j: int| prefix_sum(self@, p as int) + j),
                        f == (|t: TypedUsize<K>| t.spec_as_usize() as int),
                    decreases c - k,
                {
                    let id = TypedUsize::<K>::from_usize(base + k);
                    proof {
                        let prev = out@.map_values(f);
                        assert(out@.push(id).map_values(f) =~= prev.push(f(id)));
                        assert(prev.push(f(id)) =~= selected_shares(self@, parties@, p as int)
                            + Seq::new((k + 1) as nat, |j: int| prefix_sum(self@, p as int) + j));
                    }
                    out.push(id);
                    k = k + 1;
                }
                proof {
                    assert(selected_shares(self@, parties@, p as int)
                        + Seq::new(c as nat, |j: int| prefix_sum(self@, p as int) + j)
                        =~= selected_shares(self@, parties@, p as int + 1));
                }
                base = base + c;
            } else {
                proof {
                    assert(selected_shares(self@, parties@, p as int)
                        + Seq::<int>::empty()
                        =~= selected_shares(self@, parties@, p as int + 1));
                    assert(out@.map_values(f) =~= out@.map_values(f) + Seq::<int>::empty());
                }
                base = base + self.counts[p];
            }
            p = p + 1;
        }
        Ok(out)
    }
}

} // verus!
