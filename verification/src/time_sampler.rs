//! A ring of the last `N` samples that a sampler took.

use vstd::prelude::*;
use core::cmp::Ordering;
use vstd::std_specs::cmp::OrdSpec;

verus! {

/// Something that measures one sample between a start and a stop; a stop
/// without a start gives nothing.
pub trait Sampler: Default {
    type Output;

    fn start(&mut self);

    fn stop(&mut self) -> Option<Self::Output>;
}

/// The last `N` samples of a sampler, in a ring.
pub struct SampleHolder<const N: usize, S: Sampler> {
    sampler: S,
    samples: Vec<S::Output>,
    next_index: usize,
    are_all_valid: bool,
}

impl<const N: usize, S: Sampler> SampleHolder<N, S> {
    /// The ring holds `N` samples and the next place to write is in it.
    pub open spec fn inv(&self) -> bool {
        &&& self.spec_samples().len() == N
        &&& (self.spec_next_index() < N || (N == 0 && self.spec_next_index() == 0
            && !self.spec_all_valid()))
    }

    /// The samples, by place in the ring.
    pub closed spec fn spec_samples(&self) -> Seq<S::Output> {
        self.samples@
    }

    /// Where the next sample goes.
    pub closed spec fn spec_next_index(&self) -> usize {
        self.next_index
    }

    /// The sampler the ring is kept for.
    pub closed spec fn spec_sampler(&self) -> S {
        self.sampler
    }

    /// Whether the ring has been filled once.
    pub closed spec fn spec_all_valid(&self) -> bool {
        self.are_all_valid
    }

    /// How many samples count: `N - 1` once the ring is full, else those written.
    pub open spec fn spec_end(&self) -> int {
        if self.spec_all_valid() {
            N - 1
        } else {
            self.spec_next_index() as int
        }
    }

    /// A ring of `N` samples made by `f` from their places, around `sampler`.
    pub fn new_from_fn(f: impl Fn(usize) -> S::Output, sampler: S) -> (r: Self)
        requires
            forall|i: usize| i < N ==> call_requires(f, (i,)),
        ensures
            r.inv(),
            forall|i: int| 0 <= i < N ==> call_ensures(f, (i as usize,), #[trigger] r.spec_samples()[i]),
            r.spec_sampler() == sampler,
            r.spec_next_index() == 0,
            !r.spec_all_valid(),
    {
        let mut samples: Vec<S::Output> = Vec::new();
        let mut i: usize = 0;
        while i < N
            invariant
                i <= N,
                samples@.len() == i,
                forall|i: usize| i < N ==> call_requires(f, (i,)),
                forall|j: int| 0 <= j < i ==> call_ensures(f, (j as usize,), #[trigger] samples@[j]),
            decreases N - i,
        {
            let v = f(i);
            samples.push(v);
            i = i + 1;
        }
        Self { sampler, samples, next_index: 0, are_all_valid: false }
    }

    /// Starts the sampler.
    pub fn start(&mut self)
        requires
            old(self).inv(),
        ensures
            final(self).inv(),
            final(self).spec_samples() == old(self).spec_samples(),
            final(self).spec_next_index() == old(self).spec_next_index(),
            final(self).spec_all_valid() == old(self).spec_all_valid(),
    {
        self.sampler.start();
    }

    /// `after` is `before` with `sample` recorded: nothing changes for no
    /// sample; a sample goes at the next place of the ring, which then moves
    /// on, wrapping to place 0 (and marking the ring full) after the last.
    pub open spec fn records(before: Self, after: Self, sample: Option<S::Output>) -> bool {
        match sample {
            None => {
                &&& after.spec_samples() == before.spec_samples()
                &&& after.spec_next_index() == before.spec_next_index()
                &&& after.spec_all_valid() == before.spec_all_valid()
            },
            Some(v) => {
                &&& after.spec_samples() == before.spec_samples().update(
                    before.spec_next_index() as int,
                    v,
                )
                &&& if before.spec_next_index() == N - 1 {
                    after.spec_next_index() == 0 && after.spec_all_valid()
                } else {
                    after.spec_next_index() == before.spec_next_index() + 1
                        && after.spec_all_valid() == before.spec_all_valid()
                }
            },
        }
    }

    /// Records `sample` in the ring, as `records` says.
    pub fn record_sample(&mut self, sample: Option<S::Output>)
        requires
            old(self).inv(),
            N >= 1,
        ensures
            final(self).inv(),
            Self::records(*old(self), *final(self), sample),
            final(self).spec_sampler() == old(self).spec_sampler(),
    {
        if let Some(v) = sample {
            self.samples.set(self.next_index, v);
            if self.next_index == N - 1 {
                self.are_all_valid = true;
                self.next_index = 0;
            } else {
                self.next_index = self.next_index + 1;
            }
        }
    }

    /// Stops the sampler and records what it gives, as `record_sample` does.
    /// What the sampler gives is its own affair (the trait is for users to
    /// implement), so the sample itself is not stated: the ring records
    /// either nothing or one sample.
    pub fn stop(&mut self)
        requires
            old(self).inv(),
            N >= 1,
        ensures
            final(self).inv(),
            exists|sample: Option<S::Output>| Self::records(*old(self), *final(self), sample),
    {
        let sample = self.sampler.stop();
        self.record_sample(sample);
        assert(Self::records(*old(self), *self, sample));
    }

    /// How many samples count, from place 0: `N - 1` once the ring is full,
    /// else those written.
    pub fn end(&self) -> (r: usize)
        requires
            self.inv(),
        ensures
            r == self.spec_end(),
    {
        if self.are_all_valid {
            N - 1
        } else {
            self.next_index
        }
    }

    /// Whether any sample has been taken: the ring is not empty once a
    /// sample was written or it has wrapped around.
    pub fn has_samples(&self) -> (r: bool)
        ensures
            r == !(self.spec_next_index() == 0 && !self.spec_all_valid()),
    {
        !(self.next_index == 0 && !self.are_all_valid)
    }

    /// The sample at place `i` of the ring.
    pub fn sample(&self, i: usize) -> (r: &S::Output)
        requires
            self.inv(),
            i < N,
        ensures
            *r == self.spec_samples()[i as int],
    {
        &self.samples[i]
    }
}

impl<const N: usize, S: Sampler> SampleHolder<N, S> where S::Output: Default + Copy {
    /// A ring of `N` default samples around a default sampler.
    pub fn new_default_copy() -> (r: Self)
        ensures
            r.inv(),
            r.spec_next_index() == 0,
            !r.spec_all_valid(),
    {
        let sampler = S::default();
        let value = S::Output::default();
        let mut samples: Vec<S::Output> = Vec::new();
        let mut i: usize = 0;
        while i < N
            invariant
                i <= N,
                samples@.len() == i,
                forall|j: int| 0 <= j < i ==> #[trigger] samples@[j] == value,
            decreases N - i,
        {
            samples.push(value);
            i = i + 1;
        }
        Self { sampler, samples, next_index: 0, are_all_valid: false }
    }
}

impl<const N: usize, S: Sampler> SampleHolder<N, S> where S::Output: Clone {
    /// A ring of `N` clones of `sample_default` around `sampler`.
    pub fn new_clone(sample_default: S::Output, sampler: S) -> (r: Self)
        ensures
            r.inv(),
            forall|i: int| 0 <= i < N ==> cloned(sample_default, #[trigger] r.spec_samples()[i]),
            r.spec_sampler() == sampler,
            r.spec_next_index() == 0,
            !r.spec_all_valid(),
    {
        let mut samples: Vec<S::Output> = Vec::new();
        let mut i: usize = 0;
        while i < N
            invariant
                i <= N,
                samples@.len() == i,
                forall|j: int| 0 <= j < i ==> cloned(sample_default, #[trigger] samples@[j]),
            decreases N - i,
        {
            samples.push(sample_default.clone());
            i = i + 1;
        }
        Self { sampler, samples, next_index: 0, are_all_valid: false }
    }
}


/// The place of the largest of the first `n` samples as `Iterator::max`
/// finds it: each sample in turn replaces the best so far unless the best
/// compares greater, so the last of equally large ones wins.
pub open spec fn max_place<T: Ord>(s: Seq<T>, n: int) -> int
    decreases n,
{
    if n <= 1 {
        0
    } else {
        let k = max_place(s, n - 1);
        match s[k].cmp_spec(&s[n - 1]) {
            Ordering::Greater => k,
            _ => n - 1,
        }
    }
}

/// The place of the smallest of the first `n` samples as `Iterator::min`
/// finds it: a sample replaces the best so far only when the best compares
/// greater, so the first of equally small ones wins.
pub open spec fn min_place<T: Ord>(s: Seq<T>, n: int) -> int
    decreases n,
{
    if n <= 1 {
        0
    } else {
        let k = min_place(s, n - 1);
        match s[k].cmp_spec(&s[n - 1]) {
            Ordering::Greater => n - 1,
            _ => k,
        }
    }
}

/// `cmp_spec` orders values of `T` totally: every value compares equal to
/// itself, `x` is greater than `y` exactly when `y` is less than `x`, and
/// "not greater" is transitive.
pub open spec fn total_order<T: Ord>() -> bool {
    &&& forall|x: T| #[trigger] x.cmp_spec(&x) == Ordering::Equal
    &&& forall|x: T, y: T| #[trigger] x.cmp_spec(&y) == Ordering::Greater <==> y.cmp_spec(&x) == Ordering::Less
    &&& forall|x: T, y: T, z: T|
        #![trigger x.cmp_spec(&y), y.cmp_spec(&z)]
        x.cmp_spec(&y) != Ordering::Greater && y.cmp_spec(&z) != Ordering::Greater ==> x.cmp_spec(&z)
            != Ordering::Greater
}

/// Under a total order, the sample `Iterator::max` picks among the first `n`
/// is one of them and no smaller than any of them.
pub proof fn law_max_place_is_largest<T: Ord>(s: Seq<T>, n: int)
    requires
        total_order::<T>(),
        1 <= n <= s.len(),
    ensures
        0 <= max_place(s, n) < n,
        forall|i: int| 0 <= i < n ==> (#[trigger] s[i]).cmp_spec(&s[max_place(s, n)]) != Ordering::Greater,
    decreases n,
{
    if n > 1 {
        law_max_place_is_largest(s, n - 1);
        let k = max_place(s, n - 1);
        let last = s[n - 1];
        assert(last.cmp_spec(&last) == Ordering::Equal);
        match s[k].cmp_spec(&last) {
            Ordering::Greater => {
                assert(last.cmp_spec(&s[k]) == Ordering::Less);
            },
            _ => {
                assert forall|i: int| 0 <= i < n implies (#[trigger] s[i]).cmp_spec(&last) != Ordering::Greater by {
                    if i < n - 1 {
                        assert(s[i].cmp_spec(&s[k]) != Ordering::Greater);
                    }
                }
            },
        }
    } else {
        assert(s[0].cmp_spec(&s[0]) == Ordering::Equal);
    }
}

/// Under a total order, the sample `Iterator::min` picks among the first `n`
/// is one of them and no larger than any of them.
pub proof fn law_min_place_is_smallest<T: Ord>(s: Seq<T>, n: int)
    requires
        total_order::<T>(),
        1 <= n <= s.len(),
    ensures
        0 <= min_place(s, n) < n,
        forall|i: int| 0 <= i < n ==> s[min_place(s, n)].cmp_spec(&#[trigger] s[i]) != Ordering::Greater,
    decreases n,
{
    if n > 1 {
        law_min_place_is_smallest(s, n - 1);
        let k = min_place(s, n - 1);
        let last = s[n - 1];
        assert(last.cmp_spec(&last) == Ordering::Equal);
        match s[k].cmp_spec(&last) {
            Ordering::Greater => {
                assert(last.cmp_spec(&s[k]) == Ordering::Less);
                assert forall|i: int| 0 <= i < n implies last.cmp_spec(&#[trigger] s[i]) != Ordering::Greater by {
                    if i < n - 1 {
                        assert(s[k].cmp_spec(&s[i]) != Ordering::Greater);
                    }
                }
            },
            _ => {
            },
        }
    } else {
        assert(s[0].cmp_spec(&s[0]) == Ordering::Equal);
    }
}

impl<const N: usize, S: Sampler> SampleHolder<N, S> where S::Output: Ord {
    /// The largest of the samples that count, or `None` when none does. It is
    /// always one of them; when the samples' order follows its specification,
    /// it is the last of the largest.
    pub fn get_max(&self) -> (r: Option<&S::Output>)
        requires
            self.inv(),
        ensures
            r is None <==> self.spec_end() == 0,
            r matches Some(x) ==> exists|i: int|
                0 <= i < self.spec_end() && *x == #[trigger] self.spec_samples()[i],
            r matches Some(x) ==> (S::Output::obeys_cmp_spec() ==> *x == self.spec_samples()[max_place(
                self.spec_samples(),
                self.spec_end(),
            )]),
            r matches Some(x) ==> ((S::Output::obeys_cmp_spec() && total_order::<S::Output>()) ==> forall|i: int|
                0 <= i < self.spec_end() ==> (#[trigger] self.spec_samples()[i]).cmp_spec(x) != Ordering::Greater),
    {
        proof {
            if S::Output::obeys_cmp_spec() && total_order::<S::Output>() && self.spec_end() >= 1 {
                law_max_place_is_largest(self.spec_samples(), self.spec_end());
            }
        }
        let end = self.end();
        if end == 0 {
            return None;
        }
        let mut best: usize = 0;
        let mut i: usize = 1;
        let ghost mut seen: int = 1;
        let ghost mut at: int = 0;
        while i < end
            invariant
                self.inv(),
                end == self.spec_end(),
                1 <= i <= end,
                end <= N,
                best < i,
                seen == i,
                at == best,
                S::Output::obeys_cmp_spec() ==> best == max_place(self.spec_samples(), seen),
            decreases end - i,
        {
            let c = self.samples[best].cmp(&self.samples[i]);
            match c {
                Ordering::Greater => {},
                _ => {
                    best = i;
                    proof {
                        at = seen;
                    }
                },
            }
            i = i + 1;
            proof {
                seen = seen + 1;
            }
        }
        assert(self.spec_samples()[at] == self.samples@[at]);
        Some(&self.samples[best])
    }

    /// The smallest of the samples that count, or `None` when none does. It is
    /// always one of them; when the samples' order follows its specification,
    /// it is the first of the smallest.
    pub fn get_min(&self) -> (r: Option<&S::Output>)
        requires
            self.inv(),
        ensures
            r is None <==> self.spec_end() == 0,
            r matches Some(x) ==> exists|i: int|
                0 <= i < self.spec_end() && *x == #[trigger] self.spec_samples()[i],
            r matches Some(x) ==> (S::Output::obeys_cmp_spec() ==> *x == self.spec_samples()[min_place(
                self.spec_samples(),
                self.spec_end(),
            )]),
            r matches Some(x) ==> ((S::Output::obeys_cmp_spec() && total_order::<S::Output>()) ==> forall|i: int|
                0 <= i < self.spec_end() ==> x.cmp_spec(&#[trigger] self.spec_samples()[i]) != Ordering::Greater),
    {
        proof {
            if S::Output::obeys_cmp_spec() && total_order::<S::Output>() && self.spec_end() >= 1 {
                law_min_place_is_smallest(self.spec_samples(), self.spec_end());
            }
        }
        let end = self.end();
        if end == 0 {
            return None;
        }
        let mut best: usize = 0;
        let mut i: usize = 1;
        let ghost mut seen: int = 1;
        let ghost mut at: int = 0;
        while i < end
            invariant
                self.inv(),
                end == self.spec_end(),
                1 <= i <= end,
                end <= N,
                best < i,
                seen == i,
                at == best,
                S::Output::obeys_cmp_spec() ==> best == min_place(self.spec_samples(), seen),
            decreases end - i,
        {
            let c = self.samples[best].cmp(&self.samples[i]);
            match c {
                Ordering::Greater => {
                    best = i;
                    proof {
                        at = seen;
                    }
                },
                _ => {},
            }
            i = i + 1;
            proof {
                seen = seen + 1;
            }
        }
        assert(self.spec_samples()[at] == self.samples@[at]);
        Some(&self.samples[best])
    }
}

} // verus!
