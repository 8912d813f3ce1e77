//! Rolling statistics over the stream of ticks: a simple or weighted moving
//! average over a bounded window, cumulative volume, and running high/low.
use vstd::prelude::*;
use crate::arith::{
    last_n, lemma_max_min_push, lemma_prefix_sum_bound, lemma_prefix_sum_mono, lemma_sum_push, prefix_sum,
    seq_max, seq_min, seq_sum,
};
use crate::parser::Tick;

verus! {

/// Number of fixed-point units in a weight of one.
pub const WEIGHT_SCALE: u64 = 10000;

/// Why an aggregator could not be built.
#[derive(Debug, Clone, Copy, PartialEq, Eq, Structural)]
pub enum ConfigError {
    /// The weight vector does not have one weight per window slot.
    WeightCountMismatch,
    /// The weights add up to more than `u64::MAX`.
    WeightsTooLarge,
}

/// The window as the weights see it: slots not yet filled take the newest
/// price, so that a single price averages to itself when the weights add up
/// to one.
pub open spec fn padded_window(w: Seq<u64>, k: nat) -> Seq<u64>
    recommends
        0 < w.len() <= k,
{
    Seq::new(k, |i: int| if i < k - w.len() { w.last() } else { w[i - (k - w.len())] })
}

/// Sum over the first `i` slots of `a[j] * b[j]`.
pub open spec fn dot_prefix(a: Seq<u64>, b: Seq<u64>, i: int) -> int
    decreases i,
{
    if i <= 0 {
        0
    } else {
        dot_prefix(a, b, i - 1) + a[i - 1] * b[i - 1]
    }
}

/// Average of a window: `None` for an empty window; otherwise the floor of
/// the plain mean, or of the weighted sum divided by `WEIGHT_SCALE`.
pub open spec fn window_average(w: Seq<u64>, weights: Option<Seq<u64>>) -> Option<u128> {
    if w.len() == 0 {
        None
    } else {
        match weights {
            None => Some((seq_sum(w) / (w.len() as int)) as u128),
            Some(ws) => Some(
                (dot_prefix(padded_window(w, ws.len()), ws, ws.len() as int)
                    / (WEIGHT_SCALE as int)) as u128,
            ),
        }
    }
}

proof fn lemma_dot_prefix_bound(a: Seq<u64>, b: Seq<u64>, i: int)
    requires
        0 <= i <= a.len(),
        i <= b.len(),
    ensures
        0 <= dot_prefix(a, b, i) <= (u64::MAX as int) * prefix_sum(b, i),
    decreases i,
{
    if i > 0 {
        lemma_dot_prefix_bound(a, b, i - 1);
        let x = a[i - 1] as int;
        let y = b[i - 1] as int;
        assert(0 <= x * y <= (u64::MAX as int) * y) by (nonlinear_arith)
            requires
                0 <= x <= u64::MAX,
                0 <= y,
        ;
        assert((u64::MAX as int) * prefix_sum(b, i) == (u64::MAX as int) * prefix_sum(b, i - 1)
            + (u64::MAX as int) * y) by (nonlinear_arith)
            requires
                prefix_sum(b, i) == prefix_sum(b, i - 1) + y,
        ;
    }
}

pub struct MarketDataAggregator {
    price_window: Vec<u64>,
    window_size: usize,
    sma: Option<u128>,
    total_volume: u64,
    high_price: Option<u64>,
    low_price: Option<u64>,
    weights: Option<Vec<u64>>,
    prices_seen: Ghost<Seq<u64>>,
    volumes_seen: Ghost<Seq<u64>>,
}

impl MarketDataAggregator {
    /// Every price given to `update` so far, oldest first.
    pub closed spec fn prices(&self) -> Seq<u64> {
        self.prices_seen@
    }

    /// Every volume given to `update` so far, oldest first.
    pub closed spec fn volumes(&self) -> Seq<u64> {
        self.volumes_seen@
    }

    pub closed spec fn spec_window_size(&self) -> nat {
        self.window_size as nat
    }

    /// The configured weights, if the average is weighted.
    pub closed spec fn spec_weights(&self) -> Option<Seq<u64>> {
        match self.weights {
            Some(w) => Some(w@),
            None => None,
        }
    }

    pub closed spec fn spec_average(&self) -> Option<u128> {
        self.sma
    }

    pub closed spec fn spec_total_volume(&self) -> u64 {
        self.total_volume
    }

    pub closed spec fn spec_high(&self) -> Option<u64> {
        self.high_price
    }

    pub closed spec fn spec_low(&self) -> Option<u64> {
        self.low_price
    }

    /// The window holds the last prices seen, the statistics describe the
    /// prices and volumes seen, and the weights fit the window.
    pub closed spec fn wf(&self) -> bool {
        &&& self.price_window@ == last_n(self.prices_seen@, self.window_size as nat)
        &&& self.sma == window_average(self.price_window@, self.spec_weights())
        &&& self.total_volume == seq_sum(self.volumes_seen@)
        &&& self.prices_seen@.len() == self.volumes_seen@.len()
        &&& (self.prices_seen@.len() == 0 ==> self.high_price is None && self.low_price is None)
        &&& (self.prices_seen@.len() > 0 ==> self.high_price == Some(seq_max(self.prices_seen@))
            && self.low_price == Some(seq_min(self.prices_seen@)))
        &&& match self.weights {
            Some(w) => w@.len() == self.window_size && seq_sum(w@) <= u64::MAX,
            None => true,
        }
    }

    /// Builds an aggregator over a window of `window_size` prices. With
    /// weights, their count must equal `window_size` and their total must fit
    /// in a `u64`.
    pub fn new(window_size: usize, weights: Option<Vec<u64>>) -> (r: Result<Self, ConfigError>)
        ensures
            match weights {
                Some(w) => {
                    if w@.len() != window_size {
                        r == Err::<Self, ConfigError>(ConfigError::WeightCountMismatch)
                    } else if seq_sum(w@) > u64::MAX {
                        r == Err::<Self, ConfigError>(ConfigError::WeightsTooLarge)
                    } else {
                        r is Ok
                    }
                },
                None => r is Ok,
            },
            r matches Ok(a) ==> {
                &&& a.wf()
                &&& a.prices() == Seq::<u64>::empty()
                &&& a.volumes() == Seq::<u64>::empty()
                &&& a.spec_total_volume() == 0
                &&& a.spec_average() is None
                &&& a.spec_high() is None
                &&& a.spec_low() is None
                &&& a.spec_window_size() == window_size
                &&& a.spec_weights() == match weights {
                    Some(w) => Some(w@),
                    None => None::<Seq<u64>>,
                }
            },
    {
        if let Some(ref w) = weights {
            if w.len() != window_size {
                return Err(ConfigError::WeightCountMismatch);
            }
            let mut total: u64 = 0;
            let mut i: usize = 0;
            while i < w.len()
                invariant
                    weights matches Some(v) && v@ == w@,
                    w@.len() == window_size,
                    i <= w@.len(),
                    total == prefix_sum(w@, i as int),
                decreases w@.len() - i,
            {
                if total > u64::MAX - w[i] {
                    proof {
                        assert(prefix_sum(w@, i as int + 1) == total + w@[i as int]);
                        lemma_prefix_sum_mono(w@, i as int + 1, w@.len() as int);
                    }
                    return Err(ConfigError::WeightsTooLarge);
                }
                total = total + w[i];
                i = i + 1;
            }
        }
        let a = MarketDataAggregator {
            price_window: Vec::new(),
            window_size,
            sma: None,
            total_volume: 0,
            high_price: None,
            low_price: None,
            weights,
            prices_seen: Ghost(Seq::empty()),
            volumes_seen: Ghost(Seq::empty()),
        };
        proof {
            assert(last_n(Seq::<u64>::empty(), window_size as nat) =~= a.price_window@);
        }
        Ok(a)
    }

    fn calculate_sma(&self) -> (r: Option<u128>)
        requires
            self.price_window@.len() <= self.window_size,
            match self.weights {
                Some(w) => w@.len() == self.window_size && seq_sum(w@) <= u64::MAX,
                None => true,
            },
        ensures
            r == window_average(self.price_window@, self.spec_weights()),
    {
        let n = self.price_window.len();
        if n == 0 {
            return None;
        }
        match &self.weights {
            Some(weights) => {
                let k = weights.len();
                let pad = k - n;
                let newest = self.price_window[n - 1];
                let ghost padded = padded_window(self.price_window@, k as nat);
                let mut acc: u128 = 0;
                let mut i: usize = 0;
                while i < k
                    invariant
                        k == weights@.len(),
                        n == self.price_window@.len(),
                        0 < n <= k,
                        pad == k - n,
                        newest == self.price_window@[n - 1],
                        padded == padded_window(self.price_window@, k as nat),
                        seq_sum(weights@) <= u64::MAX,
                        i <= k,
                        acc == dot_prefix(padded, weights@, i as int),
                    decreases k - i,
                {
                    let p: u64 = if i < pad {
                        newest
                    } else {
                        self.price_window[i - pad]
                    };
                    assert(p == padded[i as int]);
                    proof {
                        lemma_dot_prefix_bound(padded, weights@, i as int + 1);
                        lemma_prefix_sum_mono(weights@, i as int + 1, k as int);
                        assert((u64::MAX as int) * prefix_sum(weights@, i as int + 1) <= (
                        u64::MAX as int) * (u64::MAX as int)) by (nonlinear_arith)
                            requires
                                prefix_sum(weights@, i as int + 1) <= u64::MAX,
                        ;
                    }
                    acc = acc + (p as u128) * (weights[i] as u128);
                    i = i + 1;
                }
                Some(acc / (WEIGHT_SCALE as u128))
            },
            None => {
                let mut acc: u128 = 0;
                let mut i: usize = 0;
                while i < n
                    invariant
                        n == self.price_window@.len(),
                        i <= n,
                        acc == prefix_sum(self.price_window@, i as int),
                    decreases n - i,
                {
                    proof {
                        lemma_prefix_sum_bound(self.price_window@, i as int + 1);
                        assert((i as int + 1) * (u64::MAX as int) <= (usize::MAX as int) * (
                        u64::MAX as int)) by (nonlinear_arith)
                            requires
                                i as int + 1 <= usize::MAX,
                        ;
                    }
                    acc = acc + self.price_window[i] as u128;
                    i = i + 1;
                }
                Some(acc / (n as u128))
            },
        }
    }

    /// Takes in one tick: its price enters the window (the oldest price leaves
    /// when the window is over its size), the average is recomputed, and the
    /// volume, high and low are brought up to date.
    pub fn update(&mut self, tick: &Tick)
        requires
            old(self).wf(),
            old(self).spec_total_volume() + tick.volume <= u64::MAX,
        ensures
            final(self).wf(),
            final(self).prices() == old(self).prices().push(tick.price),
            final(self).volumes() == old(self).volumes().push(tick.volume),
            final(self).spec_window_size() == old(self).spec_window_size(),
            final(self).spec_weights() == old(self).spec_weights(),
            final(self).spec_average() == window_average(
                last_n(final(self).prices(), final(self).spec_window_size()),
                final(self).spec_weights(),
            ),
            final(self).spec_total_volume() == seq_sum(final(self).volumes()),
            final(self).spec_high() == Some(seq_max(final(self).prices())),
            final(self).spec_low() == Some(seq_min(final(self).prices())),
    {
        let ghost old_prices = self.prices_seen@;
        let ghost new_prices = old_prices.push(tick.price);
        self.price_window.push(tick.price);
        if self.price_window.len() > self.window_size {
            self.price_window.remove(0);
        }
        proof {
            assert(self.price_window@ =~= last_n(new_prices, self.window_size as nat));
            self.prices_seen = Ghost(new_prices);
        }
        self.sma = self.calculate_sma();
        proof {
            lemma_sum_push(self.volumes_seen@, tick.volume);
            self.volumes_seen = Ghost(self.volumes_seen@.push(tick.volume));
        }
        self.total_volume = self.total_volume + tick.volume;
        proof {
            if old_prices.len() > 0 {
                lemma_max_min_push(old_prices, tick.price);
            }
        }
        self.high_price = match self.high_price {
            Some(high) => Some(if tick.price > high { tick.price } else { high }),
            None => Some(tick.price),
        };
        self.low_price = match self.low_price {
            Some(low) => Some(if tick.price < low { tick.price } else { low }),
            None => Some(tick.price),
        };
    }

    /// The current average: `None` until a price has been seen. In fixed-point
    /// units the mean is rounded down (the floor of the exact mean, or of the
    /// weighted sum divided by `WEIGHT_SCALE`).
    pub fn get_sma(&self) -> (r: Option<u128>)
        requires
            self.wf(),
        ensures
            r == self.spec_average(),
            r == window_average(last_n(self.prices(), self.spec_window_size()), self.spec_weights()),
    {
        self.sma
    }

    pub fn get_total_volume(&self) -> (r: u64)
        requires
            self.wf(),
        ensures
            r == self.spec_total_volume(),
            r == seq_sum(self.volumes()),
    {
        self.total_volume
    }

    pub fn get_high_price(&self) -> (r: Option<u64>)
        requires
            self.wf(),
        ensures
            self.prices().len() == 0 ==> r is None,
            self.prices().len() > 0 ==> r == Some(seq_max(self.prices())),
    {
        self.high_price
    }

    pub fn get_low_price(&self) -> (r: Option<u64>)
        requires
            self.wf(),
        ensures
            self.prices().len() == 0 ==> r is None,
            self.prices().len() > 0 ==> r == Some(seq_min(self.prices())),
    {
        self.low_price
    }
}

} // verus!
