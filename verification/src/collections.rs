//! Type-tagged indices and the dense ordered maps keyed by them.
//!
//! An index is an integer identifier carrying a phantom marker naming its
//! index space (party space vs. share space, keygen vs. sign), so that
//! indices from different spaces can never be confused.

use vstd::prelude::*;

verus! {

use core::marker::PhantomData;
use crate::TofnFatal;
use crate::TofnResult;

/// A `usize` tagged with the index space it belongs to.
pub struct TypedUsize<K> {
    value: usize,
    marker: PhantomData<K>,
}

impl<K> TypedUsize<K> {
    /// The underlying integer, for use in specifications.
    pub closed spec fn spec_as_usize(self) -> usize {
        self.value
    }

    /// Wraps any `usize`; never fails.
    pub fn from_usize(value: usize) -> (r: Self)
        ensures
            r.spec_as_usize() == value,
    {
        TypedUsize { value, marker: PhantomData }
    }

    pub fn as_usize(&self) -> (r: usize)
        ensures
            r == self.spec_as_usize(),
    {
        self.value
    }
}

impl<K> Clone for TypedUsize<K> {
    fn clone(&self) -> (r: Self)
        ensures
            r.spec_as_usize() == self.spec_as_usize(),
    {
        TypedUsize { value: self.value, marker: PhantomData }
    }
}

impl<K> Copy for TypedUsize<K> {}

/// A dense ordered map: values addressable by a type-tagged index,
/// insertion order = index order, no gaps.
pub struct VecMap<K, V> {
    vec: Vec<V>,
    marker: PhantomData<K>,
}

impl<K, V> VecMap<K, V> {
    pub closed spec fn view(&self) -> Seq<V> {
        self.vec@
    }

    pub fn from_vec(vec: Vec<V>) -> (r: Self)
        ensures
            r@ == vec@,
    {
        VecMap { vec, marker: PhantomData }
    }

    pub fn into_vec(self) -> (r: Vec<V>)
        ensures
            r@ == self@,
    {
        self.vec
    }

    pub fn len(&self) -> (r: usize)
        ensures
            r == self@.len(),
    {
        self.vec.len()
    }

    pub fn get(&self, index: TypedUsize<K>) -> (r: TofnResult<&V>)
        ensures
            match r {
                Ok(v) => index.spec_as_usize() < self@.len() && *v == self@[index.spec_as_usize() as int],
                Err(e) => index.spec_as_usize() >= self@.len() && e == TofnFatal,
            },
    {
        let i = index.as_usize();
        if i < self.vec.len() {
            Ok(&self.vec[i])
        } else {
            Err(TofnFatal)
        }
    }

    /// Direct access for an index known to be in range.
    pub fn get_at(&self, i: usize) -> (r: &V)
        requires
            i < self@.len(),
        ensures
            *r == self@[i as int],
    {
        &self.vec[i]
    }

    pub fn set(&mut self, index: TypedUsize<K>, value: V) -> (r: TofnResult<()>)
        ensures
            match r {
                Ok(()) =>
                    index.spec_as_usize() < old(self)@.len()
                    && final(self)@ == old(self)@.update(index.spec_as_usize() as int, value),
                Err(e) =>
                    index.spec_as_usize() >= old(self)@.len()
                    && final(self)@ == old(self)@
                    && e == TofnFatal,
            },
    {
        let i = index.as_usize();
        if i < self.vec.len() {
            self.vec.set(i, value);
            Ok(())
        } else {
            Err(TofnFatal)
        }
    }

    pub fn push(&mut self, value: V)
        ensures
            final(self)@ == old(self)@.push(value),
    {
        self.vec.push(value);
    }
}

impl<K, V> VecMap<K, V> {
    pub fn new_empty() -> (r: Self)
        ensures
            r@ == Seq::<V>::empty(),
    {
        VecMap { vec: Vec::new(), marker: PhantomData }
    }
}

/// A dense ordered map that excludes exactly one index (typically "self"),
/// used for per-recipient messages to all *other* participants.
///
/// Logical indices run over `0 ..= vec.len()` with `hole` missing.
pub struct HoleVecMap<K, V> {
    hole: usize,
    vec: Vec<V>,
    marker: PhantomData<K>,
}

impl<K, V> HoleVecMap<K, V> {
    pub closed spec fn spec_hole(&self) -> usize {
        self.hole
    }

    pub closed spec fn view(&self) -> Seq<V> {
        self.vec@
    }

    /// Well-formed when the hole lies within the logical index range.
    pub open spec fn wf(&self) -> bool {
        self.spec_hole() <= self@.len()
    }

    /// The value stored for logical index `i`, which must differ from the hole.
    pub open spec fn spec_at(&self, i: int) -> V {
        if i < self.spec_hole() {
            self@[i]
        } else {
            self@[i - 1]
        }
    }

    /// `vec[j]` holds the value for logical index `j` adjusted past `hole`;
    /// the logical index range is `0 ..= vec.len()` minus `hole`.
    pub fn from_vecmap(vec: VecMap<K, V>, hole: TypedUsize<K>) -> (r: TofnResult<Self>)
        ensures
            match r {
                Ok(h) =>
                    hole.spec_as_usize() <= vec@.len()
                    && h@ == vec@
                    && h.spec_hole() == hole.spec_as_usize()
                    && h.wf(),
                Err(e) => hole.spec_as_usize() > vec@.len() && e == TofnFatal,
            },
    {
        let h = hole.as_usize();
        let v = vec.into_vec();
        if h <= v.len() {
            Ok(HoleVecMap { hole: h, vec: v, marker: PhantomData })
        } else {
            Err(TofnFatal)
        }
    }

    pub fn len(&self) -> (r: usize)
        ensures
            r == self@.len(),
    {
        self.vec.len()
    }

    pub fn hole_index(&self) -> (r: usize)
        ensures
            r == self.spec_hole(),
    {
        self.hole
    }

    pub fn get(&self, index: TypedUsize<K>) -> (r: TofnResult<&V>)
        requires
            self.wf(),
        ensures
            match r {
                Ok(v) =>
                    index.spec_as_usize() <= self@.len()
                    && index.spec_as_usize() != self.spec_hole()
                    && *v == self.spec_at(index.spec_as_usize() as int),
                Err(e) =>
                    (index.spec_as_usize() > self@.len() || index.spec_as_usize() == self.spec_hole())
                    && e == TofnFatal,
            },
    {
        let i = index.as_usize();
        if i == self.hole || i > self.vec.len() {
            Err(TofnFatal)
        } else if i < self.hole {
            Ok(&self.vec[i])
        } else {
            Ok(&self.vec[i - 1])
        }
    }
}

impl<K, V: Clone> HoleVecMap<K, V> {
    pub fn clone_vec(&self) -> (r: Vec<V>)
        ensures
            r@.len() == self@.len(),
    {
        let mut out: Vec<V> = Vec::new();
        let mut i: usize = 0;
        while i < self.vec.len()
            invariant
                out@.len() == i,
                i <= self.vec@.len(),
            decreases self.vec@.len() - i,
        {
            out.push(self.vec[i].clone());
            i += 1;
        }
        out
    }
}

/// A per-round buffer: one optional slot per sender, filled as messages
/// arrive, with the count of filled slots maintained alongside.
pub struct FillVecMap<K, V> {
    vec: Vec<Option<V>>,
    some_count: usize,
    marker: PhantomData<K>,
}

impl<K, V> FillVecMap<K, V> {
    pub closed spec fn view(&self) -> Seq<Option<V>> {
        self.vec@
    }

    /// How many slots of `s` are filled.
    pub open spec fn count_some(s: Seq<Option<V>>) -> int
        decreases s.len(),
    {
        if s.len() == 0 {
            0
        } else {
            Self::count_some(s.drop_last()) + if s.last() is Some { 1int } else { 0int }
        }
    }

    pub closed spec fn spec_some_count(&self) -> usize {
        self.some_count
    }

    pub open spec fn wf(&self) -> bool {
        self.spec_some_count() == Self::count_some(self@)
    }

    pub open spec fn is_full(&self) -> bool {
        forall|i: int| 0 <= i < self@.len() ==> self@[i] is Some
    }

    pub open spec fn is_empty_spec(&self) -> bool {
        forall|i: int| 0 <= i < self@.len() ==> self@[i] is None
    }

    proof fn lemma_count_some_bounds(s: Seq<Option<V>>)
        ensures
            0 <= Self::count_some(s) <= s.len(),
        decreases s.len(),
    {
        if s.len() > 0 {
            Self::lemma_count_some_bounds(s.drop_last());
        }
    }

    proof fn lemma_count_full(s: Seq<Option<V>>)
        ensures
            (Self::count_some(s) == s.len()) == (forall|i: int| 0 <= i < s.len() ==> s[i] is Some),
        decreases s.len(),
    {
        if s.len() > 0 {
            Self::lemma_count_full(s.drop_last());
            Self::lemma_count_some_bounds(s.drop_last());
            if Self::count_some(s) == s.len() {
                assert(forall|i: int| 0 <= i < s.len() - 1 ==> s[i] == s.drop_last()[i]);
            } else if forall|i: int| 0 <= i < s.len() ==> s[i] is Some {
                assert(forall|i: int| 0 <= i < s.drop_last().len() ==> s.drop_last()[i] == s[i]);
            }
        }
    }

    proof fn lemma_count_empty(s: Seq<Option<V>>)
        ensures
            (Self::count_some(s) == 0) == (forall|i: int| 0 <= i < s.len() ==> s[i] is None),
        decreases s.len(),
    {
        if s.len() > 0 {
            Self::lemma_count_empty(s.drop_last());
            Self::lemma_count_some_bounds(s.drop_last());
            if Self::count_some(s) == 0 {
                assert(forall|i: int| 0 <= i < s.len() - 1 ==> s[i] == s.drop_last()[i]);
            } else if forall|i: int| 0 <= i < s.len() ==> s[i] is None {
                assert(forall|i: int| 0 <= i < s.drop_last().len() ==> s.drop_last()[i] == s[i]);
            }
        }
    }

    pub proof fn lemma_count_pos(s: Seq<Option<V>>, i: int)
        requires
            0 <= i < s.len(),
            s[i] is Some,
        ensures
            Self::count_some(s) >= 1,
        decreases s.len(),
    {
        if i == s.len() - 1 {
            Self::lemma_count_some_bounds(s.drop_last());
        } else {
            Self::lemma_count_pos(s.drop_last(), i);
            Self::lemma_count_some_bounds(s.drop_last());
        }
    }

    proof fn lemma_count_update(s: Seq<Option<V>>, i: int, v: V)
        requires
            0 <= i < s.len(),
        ensures
            Self::count_some(s.update(i, Some(v)))
                == Self::count_some(s) + if s[i] is Some { 0int } else { 1int },
        decreases s.len(),
    {
        let t = s.update(i, Some(v));
        if i == s.len() - 1 {
            assert(t.drop_last() =~= s.drop_last());
        } else {
            assert(t.drop_last() =~= s.drop_last().update(i, Some(v)));
            Self::lemma_count_update(s.drop_last(), i, v);
        }
    }

    pub fn with_size(len: usize) -> (r: Self)
        ensures
            r@.len() == len,
            r.wf(),
            r.is_empty_spec(),
            r.spec_some_count() == 0,
    {
        let mut vec: Vec<Option<V>> = Vec::new();
        let mut i: usize = 0;
        while i < len
            invariant
                vec@.len() == i,
                i <= len,
                forall|j: int| 0 <= j < i ==> vec@[j] is None,
                Self::count_some(vec@) == 0,
            decreases len - i,
        {
            proof {
                let old_v = vec@;
                assert(old_v.push(None).drop_last() =~= old_v);
            }
            vec.push(None);
            i += 1;
        }
        FillVecMap { vec, some_count: 0, marker: PhantomData }
    }

    pub fn size(&self) -> (r: usize)
        ensures
            r == self@.len(),
    {
        self.vec.len()
    }

    pub fn some_count(&self) -> (r: usize)
        ensures
            r == self.spec_some_count(),
    {
        self.some_count
    }

    pub fn get(&self, index: TypedUsize<K>) -> (r: TofnResult<&Option<V>>)
        ensures
            match r {
                Ok(v) => index.spec_as_usize() < self@.len() && *v == self@[index.spec_as_usize() as int],
                Err(e) => index.spec_as_usize() >= self@.len() && e == TofnFatal,
            },
    {
        let i = index.as_usize();
        if i < self.vec.len() {
            Ok(&self.vec[i])
        } else {
            Err(TofnFatal)
        }
    }

    pub fn is_none(&self, index: TypedUsize<K>) -> (r: TofnResult<bool>)
        ensures
            match r {
                Ok(b) => index.spec_as_usize() < self@.len()
                    && b == (self@[index.spec_as_usize() as int] is None),
                Err(e) => index.spec_as_usize() >= self@.len() && e == TofnFatal,
            },
    {
        let i = index.as_usize();
        if i < self.vec.len() {
            Ok(self.vec[i].is_none())
        } else {
            Err(TofnFatal)
        }
    }

    /// Fills slot `index`; overwriting an already-filled slot is allowed and
    /// leaves the count unchanged.
    pub fn set(&mut self, index: TypedUsize<K>, value: V) -> (r: TofnResult<()>)
        requires
            old(self).wf(),
        ensures
            final(self).wf(),
            final(self).spec_some_count() >= old(self).spec_some_count(),
            match r {
                Ok(()) =>
                    index.spec_as_usize() < old(self)@.len()
                    && final(self)@ == old(self)@.update(index.spec_as_usize() as int, Some(value))
                    && final(self).spec_some_count() > 0,
                Err(e) =>
                    index.spec_as_usize() >= old(self)@.len()
                    && final(self)@ == old(self)@
                    && e == TofnFatal,
            },
    {
        let i = index.as_usize();
        if i < self.vec.len() {
            proof {
                Self::lemma_count_update(self.vec@, i as int, value);
                Self::lemma_count_some_bounds(self.vec@.update(i as int, Some(value)));
                if self.vec@[i as int] is Some {
                    Self::lemma_count_pos(self.vec@, i as int);
                }
            }
            let was_none = self.vec[i].is_none();
            self.vec.set(i, Some(value));
            if was_none {
                self.some_count = self.some_count + 1;
            }
            Ok(())
        } else {
            Err(TofnFatal)
        }
    }

    pub fn is_full_exec(&self) -> (r: bool)
        requires
            self.wf(),
        ensures
            r == self.is_full(),
    {
        proof {
            Self::lemma_count_full(self@);
        }
        self.some_count == self.vec.len()
    }

    pub fn is_empty_exec(&self) -> (r: bool)
        requires
            self.wf(),
        ensures
            r == self.is_empty_spec(),
    {
        proof {
            Self::lemma_count_empty(self@);
        }
        self.some_count == 0
    }
}

/// A subset of the indices `0 .. max_size` of a tagged index space,
/// used to pick the parties that take part in signing.
pub struct Subset<K> {
    flags: Vec<bool>,
    marker: PhantomData<K>,
}

impl<K> Subset<K> {
    pub closed spec fn view(&self) -> Seq<bool> {
        self.flags@
    }

    pub open spec fn spec_is_member(&self, i: int) -> bool {
        0 <= i < self@.len() && self@[i]
    }

    pub fn with_max_size(max_size: usize) -> (r: Self)
        ensures
            r@.len() == max_size,
            forall|i: int| 0 <= i < max_size ==> !r@[i],
    {
        let mut flags: Vec<bool> = Vec::new();
        let mut i: usize = 0;
        while i < max_size
            invariant
                flags@.len() == i,
                i <= max_size,
                forall|j: int| 0 <= j < i ==> !flags@[j],
            decreases max_size - i,
        {
            flags.push(false);
            i += 1;
        }
        Subset { flags, marker: PhantomData }
    }

    pub fn max_size(&self) -> (r: usize)
        ensures
            r == self@.len(),
    {
        self.flags.len()
    }

    /// Adds a member; fails on an out-of-range index and on a duplicate.
    pub fn add(&mut self, index: TypedUsize<K>) -> (r: TofnResult<()>)
        ensures
            match r {
                Ok(()) =>
                    index.spec_as_usize() < old(self)@.len()
                    && !old(self)@[index.spec_as_usize() as int]
                    && final(self)@ == old(self)@.update(index.spec_as_usize() as int, true),
                Err(e) =>
                    (index.spec_as_usize() >= old(self)@.len()
                        || old(self)@[index.spec_as_usize() as int])
                    && final(self)@ == old(self)@
                    && e == TofnFatal,
            },
    {
        let i = index.as_usize();
        if i >= self.flags.len() {
            Err(TofnFatal)
        } else if self.flags[i] {
            Err(TofnFatal)
        } else {
            self.flags.set(i, true);
            Ok(())
        }
    }

    pub fn is_member(&self, index: TypedUsize<K>) -> (r: bool)
        ensures
            r == self.spec_is_member(index.spec_as_usize() as int),
    {
        let i = index.as_usize();
        i < self.flags.len() && self.flags[i]
    }
}

} // verus!
