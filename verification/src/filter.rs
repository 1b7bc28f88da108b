//! Bounded window of the most recent face samples, and the choice of the
//! smoothing filter that turns the window into one sample.
//!
//! Samples and the low-pass parameter are generic: the numeric filters
//! themselves run on floating-point data and are handed in by the caller.
use vstd::prelude::*;

verus! {

/// Which smoothing the window applies when a sample is requested.
#[derive(Clone, Copy)]
pub enum SmoothingFilterType<A> {
    /// Average of every sample in the window.
    MeanMedian,
    /// Exponential low-pass over the window, with the given weight.
    LowPass(A),
    /// The most recent sample, unchanged.
    NoFilter,
}

/// The last `n` elements of `s` (all of `s` when it is shorter).
pub open spec fn keep_last<T>(s: Seq<T>, n: nat) -> Seq<T> {
    if s.len() <= n {
        s
    } else {
        s.subrange(s.len() - n, s.len() as int)
    }
}

/// The window contents after pushing each element of `xs`, in order, into a
/// window holding `s` with room for `n` samples.
pub open spec fn push_all<T>(s: Seq<T>, xs: Seq<T>, n: nat) -> Seq<T>
    decreases xs.len(),
{
    if xs.len() == 0 {
        s
    } else {
        keep_last(push_all(s, xs.drop_last(), n).push(xs.last()), n)
    }
}

/// The window that smoothing works on: a window holding `s`, or, when it is
/// empty, one holding only the seed sample `d`.
pub open spec fn seeded<T>(s: Seq<T>, d: T) -> Seq<T> {
    if s.len() == 0 {
        seq![d]
    } else {
        s
    }
}

/// `r` is a sample that smoothing the window `w` with `filter` can give:
/// what `mean_median` gives for the whole window, what `low_pass` gives for
/// the whole window and the weight, or the newest sample.
pub open spec fn smoothed<T, A, M, L>(
    filter: SmoothingFilterType<A>,
    mean_median: M,
    low_pass: L,
    w: Seq<T>,
    r: T,
) -> bool where M: Fn(&[T]) -> T, L: Fn(&[T], A) -> T {
    match filter {
        SmoothingFilterType::MeanMedian => exists|s: &[T]|
            s@ == w && #[trigger] call_ensures(mean_median, (s,), r),
        SmoothingFilterType::LowPass(alpha) => exists|s: &[T]|
            s@ == w && #[trigger] call_ensures(low_pass, (s, alpha), r),
        SmoothingFilterType::NoFilter => r == w.last(),
    }
}

/// `mean_median` gives one result for each window: equal windows give equal
/// samples.
pub open spec fn mean_is_function<T, M>(mean_median: M) -> bool where M: Fn(&[T]) -> T {
    forall|s1: &[T], s2: &[T], r1: T, r2: T|
        s1@ == s2@ && #[trigger] call_ensures(mean_median, (s1,), r1) && #[trigger] call_ensures(
            mean_median,
            (s2,),
            r2,
        ) ==> r1 == r2
}

/// `low_pass` gives one result for each window and weight.
pub open spec fn low_pass_is_function<T, A, L>(low_pass: L) -> bool where L: Fn(&[T], A) -> T {
    forall|s1: &[T], s2: &[T], a: A, r1: T, r2: T|
        s1@ == s2@ && #[trigger] call_ensures(low_pass, (s1, a), r1) && #[trigger] call_ensures(
            low_pass,
            (s2, a),
            r2,
        ) ==> r1 == r2
}

/// A window of at most `length` samples, oldest first, with its filter.
pub struct WebcamFacialDataFiltered<T, A>(Vec<T>, u32, SmoothingFilterType<A>);

impl<T, A> View for WebcamFacialDataFiltered<T, A> {
    type V = Seq<T>;

    closed spec fn view(&self) -> Seq<T> {
        self.0@
    }
}

impl<T, A> WebcamFacialDataFiltered<T, A> {
    #[verifier::type_invariant]
    closed spec fn within_length(self) -> bool {
        self.0.len() <= self.1
    }

    /// How many samples the window keeps.
    pub closed spec fn capacity(self) -> nat {
        self.1 as nat
    }

    /// The filter chosen at construction.
    pub closed spec fn filter(self) -> SmoothingFilterType<A> {
        self.2
    }

    /// An empty window that keeps the last `length` samples and smooths them
    /// with `filter_type`.
    pub fn new(length: u32, filter_type: SmoothingFilterType<A>) -> (w: Self)
        ensures
            w@ == Seq::<T>::empty(),
            w@.len() <= w.capacity(),
            w.capacity() == length,
            w.filter() == filter_type,
    {
        WebcamFacialDataFiltered(Vec::new(), length, filter_type)
    }

    /// Appends `data`; when the window is full, the oldest sample leaves
    /// first.
    pub fn push(&mut self, data: T)
        requires
            old(self).capacity() > 0,
        ensures
            final(self)@ == keep_last(old(self)@.push(data), old(self).capacity()),
            old(self)@.len() < old(self).capacity() ==> final(self)@ == old(self)@.push(data),
            old(self)@.len() >= old(self).capacity() ==> final(self)@ == old(self)@.drop_first().push(
                data,
            ),
            final(self)@.len() == (if old(self)@.len() < old(self).capacity() {
                old(self)@.len() + 1
            } else {
                old(self).capacity()
            }),
            final(self)@.last() == data,
            final(self)@.len() <= final(self).capacity(),
            final(self).capacity() == old(self).capacity(),
            final(self).filter() == old(self).filter(),
    {
        proof {
            use_type_invariant(&*self);
        }
        let mut samples = Vec::new();
        std::mem::swap(&mut samples, &mut self.0);
        let ghost before = samples@;
        if samples.len() >= self.1 as usize {
            samples.remove(0);
        }
        samples.push(data);
        proof {
            let n = self.1 as nat;
            if before.len() >= n {
                assert(samples@ =~= keep_last(before.push(data), n));
                assert(samples@ =~= before.drop_first().push(data));
            } else {
                assert(samples@ =~= before.push(data));
            }
        }
        self.0 = samples;
    }

    /// Number of samples in the window; never more than its capacity.
    pub fn len(&self) -> (n: usize)
        ensures
            n == self@.len(),
            n <= self.capacity(),
    {
        proof {
            use_type_invariant(self);
        }
        self.0.len()
    }

    /// The smoothed sample of the window. An empty window first receives
    /// one default sample. `MeanMedian` and `LowPass(alpha)` hand the whole
    /// window, oldest first, to `mean_median` and to `low_pass` (with
    /// `alpha`), and return what they give; `NoFilter` returns the newest
    /// sample.
    pub fn get<M, L>(&mut self, mean_median: M, low_pass: L) -> (r: T) where
        T: Copy + Default,
        A: Copy,
        M: Fn(&[T]) -> T,
        L: Fn(&[T], A) -> T,

        requires
            old(self).capacity() > 0,
            forall|s: &[T]| call_requires(mean_median, (s,)),
            forall|s: &[T], alpha: A| call_requires(low_pass, (s, alpha)),
        ensures
            final(self)@ == seeded(old(self)@, final(self)@[0]),
            old(self)@.len() == 0 ==> call_ensures(T::default, (), final(self)@[0]),
            final(self)@.len() <= final(self).capacity(),
            final(self).capacity() == old(self).capacity(),
            final(self).filter() == old(self).filter(),
            smoothed(final(self).filter(), mean_median, low_pass, final(self)@, r),
            old(self)@.len() > 0 ==> final(self)@ == old(self)@,
            old(self)@.len() == 0 ==> final(self)@.len() == 1,
            (match final(self).filter() {
                SmoothingFilterType::MeanMedian => exists|sl: &[T]|
                    sl@ == final(self)@ && #[trigger] call_ensures(mean_median, (sl,), r),
                SmoothingFilterType::LowPass(alpha) => exists|sl: &[T]|
                    sl@ == final(self)@ && #[trigger] call_ensures(low_pass, (sl, alpha), r),
                SmoothingFilterType::NoFilter => r == final(self)@[final(self)@.len() - 1],
            }),
    {
        if self.0.len() == 0 {
            self.push(T::default());
        }
        proof {
            use_type_invariant(&*self);
            assert(self@ =~= seeded(old(self)@, self@[0]));
        }
        let samples = self.0.as_slice();
        match self.2 {
            SmoothingFilterType::MeanMedian => {
                let r = mean_median(samples);
                assert(samples@ == self@ && call_ensures(mean_median, (samples,), r));
                r
            },
            SmoothingFilterType::LowPass(alpha) => {
                let r = low_pass(samples, alpha);
                assert(samples@ == self@ && call_ensures(low_pass, (samples, alpha), r));
                r
            },
            SmoothingFilterType::NoFilter => self.0[self.0.len() - 1],
        }
    }
}


/// Trimming a window before a push changes nothing: the last `n` elements of
/// (the last `n` of `a`) followed by `x` are the last `n` of `a` followed by
/// `x`.
pub proof fn lemma_keep_last_push<T>(a: Seq<T>, x: T, n: nat)
    ensures
        keep_last(keep_last(a, n).push(x), n) == keep_last(a.push(x), n),
{
    if a.len() > n {
        assert(keep_last(keep_last(a, n).push(x), n) =~= keep_last(a.push(x), n));
    }
}

/// The window holds the most recent samples: starting from a window that
/// holds `s` with room for `n` samples, pushing the samples of `xs` one at a
/// time leaves exactly the last `n` of `s` followed by `xs`, oldest first.
pub proof fn lemma_window_keeps_latest<T>(s: Seq<T>, xs: Seq<T>, n: nat)
    requires
        s.len() <= n,
    ensures
        push_all(s, xs, n) == keep_last(s + xs, n),
    decreases xs.len(),
{
    if xs.len() == 0 {
        assert(s + xs =~= s);
    } else {
        lemma_window_keeps_latest(s, xs.drop_last(), n);
        lemma_keep_last_push(s + xs.drop_last(), xs.last(), n);
        assert((s + xs.drop_last()).push(xs.last()) =~= s + xs);
    }
}


/// Asking twice settles: the window a request leaves is the one the next
/// request works on, unchanged, so both requests hand their filter the same
/// window.
pub proof fn lemma_get_settles<T>(s: Seq<T>, d1: T, d2: T)
    ensures
        seeded(seeded(s, d1), d2) == seeded(s, d1),
{
}

/// Asking twice gives the same sample, whenever the filters give one result
/// for each window (as any filter of the window's contents alone does).
pub proof fn lemma_get_twice_same_sample<T, A, M, L>(
    filter: SmoothingFilterType<A>,
    mean_median: M,
    low_pass: L,
    s: Seq<T>,
    d1: T,
    d2: T,
    r1: T,
    r2: T,
) where M: Fn(&[T]) -> T, L: Fn(&[T], A) -> T
    requires
        mean_is_function::<T, M>(mean_median),
        low_pass_is_function::<T, A, L>(low_pass),
        smoothed(filter, mean_median, low_pass, seeded(s, d1), r1),
        smoothed(filter, mean_median, low_pass, seeded(seeded(s, d1), d2), r2),
    ensures
        r1 == r2,
{
    lemma_get_settles(s, d1, d2);
    let w = seeded(s, d1);
    match filter {
        SmoothingFilterType::MeanMedian => {
            let s1 = choose|x: &[T]| x@ == w && call_ensures(mean_median, (x,), r1);
            let s2 = choose|x: &[T]| x@ == w && call_ensures(mean_median, (x,), r2);
            assert(call_ensures(mean_median, (s1,), r1) && call_ensures(mean_median, (s2,), r2));
        },
        SmoothingFilterType::LowPass(alpha) => {
            let s1 = choose|x: &[T]| x@ == w && call_ensures(low_pass, (x, alpha), r1);
            let s2 = choose|x: &[T]| x@ == w && call_ensures(low_pass, (x, alpha), r2);
            assert(call_ensures(low_pass, (s1, alpha), r1) && call_ensures(
                low_pass,
                (s2, alpha),
                r2,
            ));
        },
        SmoothingFilterType::NoFilter => {},
    }
}

/// With no filter, a request right after a push gives the pushed sample,
/// whatever the window held before.
pub proof fn lemma_push_then_get_latest<T, A, M, L>(
    mean_median: M,
    low_pass: L,
    s: Seq<T>,
    x: T,
    n: nat,
    d: T,
    r: T,
) where M: Fn(&[T]) -> T, L: Fn(&[T], A) -> T
    requires
        n >= 1,
        smoothed(
            SmoothingFilterType::<A>::NoFilter,
            mean_median,
            low_pass,
            seeded(keep_last(s.push(x), n), d),
            r,
        ),
    ensures
        r == x,
{
}


/// What a window keeps: the last `n` elements of `s` are `min(|s|, n)`
/// elements long and are the elements of `s` from position
/// `|s| - min(|s|, n)` on, in their order.
pub proof fn lemma_keep_last_is_suffix<T>(s: Seq<T>, n: nat)
    ensures
        keep_last(s, n).len() == (if s.len() <= n {
            s.len()
        } else {
            n
        }),
        forall|i: int|
            0 <= i < keep_last(s, n).len() ==> #[trigger] keep_last(s, n)[i] == s[s.len()
                - keep_last(s, n).len() + i],
{
}

/// Pushing into a window of capacity `n >= 1`: when it holds fewer than `n`
/// samples the new one is appended; when it is full, only the oldest sample
/// leaves and the new one is appended, so it stays `n` samples long.
pub proof fn lemma_push_drops_only_oldest<T>(s: Seq<T>, x: T, n: nat)
    requires
        n >= 1,
        s.len() <= n,
    ensures
        s.len() < n ==> keep_last(s.push(x), n) == s.push(x),
        s.len() == n ==> keep_last(s.push(x), n) == s.drop_first().push(x),
        s.len() == n ==> keep_last(s.push(x), n).len() == n,
        keep_last(s.push(x), n).last() == x,
{
    if s.len() == n {
        assert(keep_last(s.push(x), n) =~= s.drop_first().push(x));
    }
}

/// A request works on the window as it is when the window holds samples,
/// and on a window of the single seed sample when it is empty.
pub proof fn lemma_seeded_keeps_window<T>(s: Seq<T>, d: T)
    ensures
        s.len() > 0 ==> seeded(s, d) == s,
        s.len() == 0 ==> seeded(s, d).len() == 1 && seeded(s, d)[0] == d,
{
}

/// The filters see the whole window: a mean (or low-pass) result is what
/// the filter gives for a slice holding exactly the window, and with no
/// filter the result is the window's last element.
pub proof fn lemma_smoothed_uses_whole_window<T, A, M, L>(
    filter: SmoothingFilterType<A>,
    mean_median: M,
    low_pass: L,
    w: Seq<T>,
    r: T,
) where M: Fn(&[T]) -> T, L: Fn(&[T], A) -> T
    requires
        smoothed(filter, mean_median, low_pass, w, r),
    ensures
        filter is MeanMedian ==> exists|sl: &[T]|
            sl@ == w && #[trigger] call_ensures(mean_median, (sl,), r),
        filter is LowPass ==> exists|sl: &[T]|
            sl@ == w && #[trigger] call_ensures(low_pass, (sl, filter->0), r),
        filter is NoFilter ==> r == w[w.len() - 1],
{
}

} // verus!
