//! Weight grids for spatially weighted colour averages.

use crate::fixed::ONE;
use vstd::prelude::*;

verus! {

/// Sum of a sequence of weights.
pub open spec fn sum_weights(weights: Seq<u32>) -> nat
    decreases weights.len(),
{
    if weights.len() == 0 {
        0
    } else {
        sum_weights(weights.drop_last()) + weights.last() as nat
    }
}

/// Every weight lies in `(0, 1]`, in fixed point.
pub open spec fn weights_in_range(weights: Seq<u32>) -> bool {
    forall|i: int| 0 <= i < weights.len() ==> 1 <= #[trigger] weights[i] <= ONE
}

/// Every weight is exactly `1`, in fixed point.
pub open spec fn weights_all_one(weights: Seq<u32>) -> bool {
    forall|i: int| 0 <= i < weights.len() ==> #[trigger] weights[i] == ONE
}

/// Weights in `(0, 1]` sum to at least their number and at most their number of ones.
pub proof fn lemma_sum_weights_bounds(weights: Seq<u32>)
    requires
        weights_in_range(weights),
    ensures
        weights.len() <= sum_weights(weights) <= weights.len() * ONE,
    decreases weights.len(),
{
    if weights.len() > 0 {
        let front = weights.drop_last();
        assert forall|i: int| 0 <= i < front.len() implies 1 <= #[trigger] front[i] <= ONE by {
        }
        lemma_sum_weights_bounds(front);
    }
}

/// Weights that are all `1` sum to their number of ones.
pub proof fn lemma_sum_weights_uniform(weights: Seq<u32>)
    requires
        weights_all_one(weights),
    ensures
        sum_weights(weights) == weights.len() * ONE,
    decreases weights.len(),
{
    if weights.len() > 0 {
        let front = weights.drop_last();
        assert forall|i: int| 0 <= i < front.len() implies #[trigger] front[i] == ONE by {
        }
        lemma_sum_weights_uniform(front);
    }
}

/// What a mask is: its side and its weights, row after row.
pub struct MaskView {
    pub size: nat,
    pub weights: Seq<u32>,
    pub total_weight: nat,
}

impl MaskView {
    /// A mask has a positive side, one weight in `(0, 1]` for each cell of its square
    /// grid, and their sum as its total.
    pub open spec fn wf(self) -> bool {
        &&& 0 < self.size <= u32::MAX
        &&& self.weights.len() == self.size * self.size
        &&& weights_in_range(self.weights)
        &&& self.total_weight == sum_weights(self.weights)
    }

    /// Whether the mask is the plain average: every weight is `1`.
    pub open spec fn is_uniform(self) -> bool {
        weights_all_one(self.weights)
    }
}

/// A square grid of weights with its precomputed sum.
pub struct WeightingMask {
    size: u32,
    weights: Vec<u32>,
    total_weight: u128,
}

impl View for WeightingMask {
    type V = MaskView;

    closed spec fn view(&self) -> MaskView {
        MaskView {
            size: self.size as nat,
            weights: self.weights@,
            total_weight: self.total_weight as nat,
        }
    }
}

impl WeightingMask {
    #[verifier::type_invariant]
    spec fn inv(self) -> bool {
        self@.wf()
    }

    /// The mask of side `size` for the divisor `sigma_divisor`, a fixed-point number.
    /// For a divisor of zero or less it is the plain average, and `bell` is not looked
    /// at. For a positive divisor the weights fall off from the centre like a bell
    /// whose width is `size` over the divisor; such weights need the exponential
    /// function, so they are handed in as `bell`, row after row, and must be
    /// `size * size` weights in `(0, 1]`. `None` where the mask cannot be made.
    pub fn new(size: u32, sigma_divisor: i64, bell: Vec<u32>) -> (res: Option<WeightingMask>)
        ensures
            sigma_divisor <= 0 ==> (res is Some <==> 0 < size && 8 * (size * size) <= usize::MAX),
            sigma_divisor <= 0 ==> (res matches Some(m) ==> m@.is_uniform() && m@.total_weight
                == size * size * ONE),
            sigma_divisor > 0 ==> (res is Some <==> 0 < size && bell@.len() == size * size
                && weights_in_range(bell@)),
            sigma_divisor > 0 ==> (res matches Some(m) ==> m@.weights == bell@),
            res matches Some(m) ==> m@.wf() && m@.size == size,
    {
        if sigma_divisor <= 0 {
            WeightingMask::uniform(size)
        } else {
            WeightingMask::from_weights(size, bell)
        }
    }

    /// The plain-average mask of side `size`: every weight is `1`. `None` when `size`
    /// is zero or the weights would take more than half of the address space.
    pub fn uniform(size: u32) -> (res: Option<WeightingMask>)
        ensures
            res is Some <==> 0 < size && 8 * (size * size) <= usize::MAX,
            res matches Some(m) ==> m@.wf() && m@.size == size && m@.is_uniform()
                && m@.total_weight == size * size * ONE,
    {
        assert(size * size <= 0xFFFF_FFFF * 0xFFFF_FFFF) by (nonlinear_arith)
            requires
                size <= 0xFFFF_FFFF,
        ;
        let cells: u64 = size as u64 * size as u64;
        if size == 0 || 8 * (cells as u128) > usize::MAX as u128 {
            return None;
        }
        let weights = vec![ONE; cells as usize];
        proof {
            lemma_sum_weights_uniform(weights@);
        }
        let total_weight: u128 = cells as u128 * ONE as u128;
        Some(WeightingMask { size, weights, total_weight })
    }

    /// The mask of side `size` with the given weights, row after row. `None` unless
    /// `size` is positive, there are `size * size` weights, and each lies in `(0, 1]`.
    pub fn from_weights(size: u32, weights: Vec<u32>) -> (res: Option<WeightingMask>)
        ensures
            res is Some <==> 0 < size && weights@.len() == size * size && weights_in_range(
                weights@,
            ),
            res matches Some(m) ==> m@.wf() && m@.size == size && m@.weights == weights@,
    {
        assert(size * size <= 0xFFFF_FFFF * 0xFFFF_FFFF) by (nonlinear_arith)
            requires
                size <= 0xFFFF_FFFF,
        ;
        let cells: u64 = size as u64 * size as u64;
        if size == 0 || weights.len() as u128 != cells as u128 {
            return None;
        }
        let mut total_weight: u128 = 0;
        let mut i: usize = 0;
        while i < weights.len()
            invariant
                i <= weights.len(),
                weights_in_range(weights@.subrange(0, i as int)),
                total_weight == sum_weights(weights@.subrange(0, i as int)),
            decreases weights.len() - i,
        {
            let w = weights[i];
            if w == 0 || w > ONE {
                return None;
            }
            proof {
                let upto = weights@.subrange(0, i as int);
                let next = weights@.subrange(0, i + 1);
                assert(next.drop_last() == upto);
                assert forall|k: int| 0 <= k < next.len() implies 1 <= #[trigger] next[k]
                    <= ONE by {
                }
                lemma_sum_weights_bounds(upto);
                assert(upto.len() * ONE <= usize::MAX * ONE) by (nonlinear_arith)
                    requires
                        upto.len() <= usize::MAX,
                ;
            }
            total_weight = total_weight + w as u128;
            i += 1;
        }
        assert(weights@.subrange(0, i as int) == weights@);
        Some(WeightingMask { size, weights, total_weight })
    }

    /// Whether the mask is the plain average.
    pub fn is_uniform(&self) -> (res: bool)
        ensures
            res == self@.is_uniform(),
    {
        let mut i: usize = 0;
        while i < self.weights.len()
            invariant
                i <= self.weights@.len(),
                forall|k: int| 0 <= k < i ==> #[trigger] self.weights@[k] == ONE,
            decreases self.weights@.len() - i,
        {
            if self.weights[i] != ONE {
                return false;
            }
            i += 1;
        }
        true
    }

    /// Side of the grid.
    pub fn size(&self) -> (size: u32)
        ensures
            size == self@.size,
            self@.wf(),
    {
        proof {
            use_type_invariant(self);
        }
        self.size
    }

    /// The weights, row after row.
    pub fn weights(&self) -> (weights: &Vec<u32>)
        ensures
            weights@ == self@.weights,
            self@.wf(),
    {
        proof {
            use_type_invariant(self);
        }
        &self.weights
    }

    /// Sum of all weights.
    pub fn total_weight(&self) -> (total: u128)
        ensures
            total == self@.total_weight,
            total == sum_weights(self@.weights),
            total > 0,
            self@.wf(),
    {
        proof {
            use_type_invariant(self);
            lemma_sum_weights_bounds(self@.weights);
            assert(self@.size * self@.size > 0) by (nonlinear_arith)
                requires
                    self@.size > 0,
            ;
        }
        self.total_weight
    }
}

} // verus!
