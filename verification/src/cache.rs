//! Rendered weights kept for reuse, one vector for each half-width and
//! moment order that has been asked for.

use crate::coeffs::solved;
use crate::engine::{convolve, par_convolve};
use crate::error::FilterError;
use crate::filter::{filter_outcome, prepare, refusal, rendered, smoothed_with};
use vstd::prelude::*;

verus! {

/// The weights for one half-width and moment order, in the sample type,
/// with the value that a sum starts from.
pub struct CachedWeights<T> {
    pub half_window: usize,
    pub moment_order: usize,
    pub weights: Vec<T>,
    pub zero: T,
}

/// A store of rendered weights. An entry is computed when its half-width and
/// moment order are first asked for, and is neither changed nor dropped
/// while the store lives.
pub struct CoefficientCache<T, R> {
    ratio: R,
    entries: Vec<CachedWeights<T>>,
}

/// `entry` holds the weights that `ratio` renders for its half-width and
/// moment order.
pub open spec fn entry_valid<T, R: Fn(i64, i64) -> T>(ratio: R, entry: CachedWeights<T>) -> bool {
    &&& entry.moment_order <= 2 * entry.half_window
    &&& entry.weights@.len() == 2 * entry.half_window + 1
    &&& solved(entry.half_window as int, entry.moment_order as int) matches Some((nums, den))
        && rendered(ratio, nums, den, entry.weights@)
    &&& call_ensures(ratio, (0i64, 1i64), entry.zero)
}

impl<T: Copy, R: Fn(i64, i64) -> T> CoefficientCache<T, R> {
    /// The rendering that the store was made with.
    pub closed spec fn rendering(&self) -> R {
        self.ratio
    }

    /// The entries in the order in which they were computed.
    pub closed spec fn stored(&self) -> Seq<CachedWeights<T>> {
        self.entries@
    }

    /// The rendering can take any fraction, every entry is valid, and no
    /// half-width and moment order has two entries.
    pub open spec fn wf(&self) -> bool {
        &&& forall|n: i64, d: i64| call_requires(self.rendering(), (n, d))
        &&& forall|i: int|
            0 <= i < self.stored().len() ==> entry_valid(self.rendering(), #[trigger] self.stored()[i])
        &&& forall|i: int, j: int|
            0 <= i < j < self.stored().len() ==> !(#[trigger] self.stored()[i].half_window
                == #[trigger] self.stored()[j].half_window && self.stored()[i].moment_order
                == self.stored()[j].moment_order)
    }

    /// An empty store for the rendering `ratio`.
    pub fn new(ratio: R) -> (cache: Self)
        requires
            forall|n: i64, d: i64| call_requires(ratio, (n, d)),
        ensures
            cache.wf(),
            cache.rendering() == ratio,
            cache.stored().len() == 0,
    {
        CoefficientCache { ratio, entries: Vec::new() }
    }

    /// Number of entries.
    pub fn len(&self) -> (n: usize)
        ensures
            n == self.stored().len(),
    {
        self.entries.len()
    }

    /// The weights of the entry at position `at`.
    pub fn weights(&self, at: usize) -> (out: &[T])
        requires
            at < self.stored().len(),
        ensures
            out@ == self.stored()[at as int].weights@,
    {
        self.entries[at].weights.as_slice()
    }

    /// Where the entry for `half` and `order` stands, if there is one.
    fn find(&self, half: usize, order: usize) -> (res: Option<usize>)
        ensures
            match res {
                Some(i) => i < self.stored().len() && self.stored()[i as int].half_window == half
                    && self.stored()[i as int].moment_order == order,
                None => forall|i: int|
                    0 <= i < self.stored().len() ==> !(#[trigger] self.stored()[i].half_window
                        == half && self.stored()[i].moment_order == order),
            },
    {
        let mut i: usize = 0;
        while i < self.entries.len()
            invariant
                i <= self.entries@.len(),
                forall|k: int|
                    0 <= k < i ==> !(#[trigger] self.entries@[k].half_window == half
                        && self.entries@[k].moment_order == order),
            decreases self.entries@.len() - i,
        {
            if self.entries[i].half_window == half && self.entries[i].moment_order == order {
                return Some(i);
            }
            i = i + 1;
        }
        None
    }

    /// Where the entry for `half` and `order` stands, after computing it
    /// where it was not there yet. The entries that were there stay where
    /// they were.
    pub fn lookup(&mut self, half: usize, order: usize) -> (res: Result<usize, FilterError>)
        requires
            old(self).wf(),
        ensures
            final(self).wf(),
            final(self).rendering() == old(self).rendering(),
            old(self).stored().is_prefix_of(final(self).stored()),
            match res {
                Ok(i) => {
                    &&& refusal(0, 0, half as int, order as int) is None
                    &&& i < final(self).stored().len()
                    &&& final(self).stored()[i as int].half_window == half
                    &&& final(self).stored()[i as int].moment_order == order
                    &&& final(self).stored().len() <= old(self).stored().len() + 1
                },
                Err(e) => {
                    &&& refusal(0, 0, half as int, order as int) == Some(e)
                    &&& final(self).stored() == old(self).stored()
                },
            },
    {
        match self.find(half, order) {
            Some(i) => Ok(i),
            None => {
                assert(self.rendering() == self.ratio);
                assert(forall|n: i64, d: i64| call_requires(self.ratio, (n, d)));
                match prepare(half, order, &self.ratio) {
                    Ok((weights, zero)) => {
                        let at: usize = self.entries.len();
                        let entry = CachedWeights {
                            half_window: half,
                            moment_order: order,
                            weights,
                            zero,
                        };
                        assert(entry_valid(self.ratio, entry));
                        self.entries.push(entry);
                        assert(self.stored() == old(self).stored().push(entry));
                        assert forall|i: int| 0 <= i < self.stored().len() implies entry_valid(
                            self.rendering(),
                            #[trigger] self.stored()[i],
                        ) by {
                            if i < at {
                                assert(self.stored()[i] == old(self).stored()[i]);
                            }
                        }
                        Ok(at)
                    },
                    Err(e) => Err(e),
                }
            },
        }
    }

    /// Smooths `data` into `buf` with the weights for `half_window` and
    /// `moment_order`, which are computed where the store does not hold
    /// them yet. The first and last `half_window` entries of `buf` are not
    /// written. On an error nothing is.
    pub fn apply_filter<F: Fn(T, T, T) -> T>(
        &mut self,
        buf: &mut [T],
        data: &[T],
        half_window: usize,
        moment_order: usize,
        step: &F,
    ) -> (res: Result<(), FilterError>)
        requires
            old(self).wf(),
            forall|acc: T, a: T, b: T| call_requires(*step, (acc, a, b)),
        ensures
            final(self).wf(),
            final(self).rendering() == old(self).rendering(),
            old(self).stored().is_prefix_of(final(self).stored()),
            filter_outcome(
                old(self).rendering(),
                *step,
                half_window as int,
                moment_order as int,
                data@,
                old(buf)@,
                res,
                final(buf)@,
            ),
    {
        if buf.len() != data.len() {
            return Err(FilterError::LengthMismatch);
        }
        let at: usize = match self.lookup(half_window, moment_order) {
            Ok(i) => i,
            Err(e) => {
                return Err(e);
            },
        };
        assert(entry_valid(self.rendering(), self.stored()[at as int]));
        let done = convolve(
            buf,
            data,
            self.entries[at].weights.as_slice(),
            half_window,
            self.entries[at].zero,
            step,
        );
        proof {
            assert(smoothed_with(
                self.rendering(),
                *step,
                half_window as int,
                moment_order as int,
                data@,
                old(buf)@,
                buf@,
                self.entries@[at as int].weights@,
                self.entries@[at as int].zero,
            ));
        }
        done
    }

    /// Does what `apply_filter` does, with the interior positions shared out
    /// among the threads of rayon's pool.
    pub fn apply_filter_parallel<F: Fn(T, T, T) -> T + Sync>(
        &mut self,
        buf: &mut [T],
        data: &[T],
        half_window: usize,
        moment_order: usize,
        step: &F,
    ) -> (res: Result<(), FilterError>) where T: Send + Sync
        requires
            old(self).wf(),
            forall|acc: T, a: T, b: T| call_requires(*step, (acc, a, b)),
        ensures
            final(self).wf(),
            final(self).rendering() == old(self).rendering(),
            old(self).stored().is_prefix_of(final(self).stored()),
            filter_outcome(
                old(self).rendering(),
                *step,
                half_window as int,
                moment_order as int,
                data@,
                old(buf)@,
                res,
                final(buf)@,
            ),
    {
        if buf.len() != data.len() {
            return Err(FilterError::LengthMismatch);
        }
        let at: usize = match self.lookup(half_window, moment_order) {
            Ok(i) => i,
            Err(e) => {
                return Err(e);
            },
        };
        assert(entry_valid(self.rendering(), self.stored()[at as int]));
        let done = par_convolve(
            buf,
            data,
            self.entries[at].weights.as_slice(),
            half_window,
            self.entries[at].zero,
            step,
        );
        proof {
            assert(smoothed_with(
                self.rendering(),
                *step,
                half_window as int,
                moment_order as int,
                data@,
                old(buf)@,
                buf@,
                self.entries@[at as int].weights@,
                self.entries@[at as int].zero,
            ));
        }
        done
    }
}

} // verus!
