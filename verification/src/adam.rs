//! The Adam optimizer over fixed-point values.
//!
//! One `AdamState` manages the first and second raw-gradient moment
//! estimates for one parameter vector. Every step of the update recurrence
//! is specified exactly by the spec functions below, and `update` is proved
//! to compute them coordinate by coordinate.

use crate::error::TrainError;
use crate::fixed::{fx_mul, fx_sqrt, fx_sqrt_spec, fx_div, fx_mul_exec, tdiv, tdiv_i128, SCALE};
use crate::fixed::{lemma_isqrt_bounds, lemma_tdiv_bounds, lemma_tdiv_denominator,
    lemma_tdiv_mul_cancel};
use vstd::arithmetic::div_mod::{lemma_div_is_ordered, lemma_div_nonincreasing,
    lemma_div_pos_is_pos};
use vstd::prelude::*;

verus! {

/// Largest admitted learning rate: one.
pub const LR_MAX: i64 = 1_000_000;

/// Largest admitted decay rate for either moment: 0.999, the customary
/// second-moment decay. Larger rates would let the bias-correction divisor
/// come arbitrarily close to zero, which the fixed-width arithmetic here
/// cannot accommodate.
pub const DECAY_MAX: i64 = 999_000;

/// Largest admitted damping constant: one thousand.
pub const EPS_MAX: i64 = 1_000_000_000;

/// Largest gradient magnitude accepted by `update`: five hundred.
pub const GRAD_LIMIT: i64 = 500_000_000;

/// Largest parameter magnitude accepted by `update`: five hundred.
pub const PARAM_LIMIT: i64 = 500_000_000;

/// Bound kept on each first-moment coordinate: one thousand. A moment is a
/// convex combination of earlier (weight-decayed) gradients, so it stays
/// within the combined gradient and decay budget.
pub const MOMENT_LIMIT: i64 = 1_000_000_000;

/// Bound kept on each second-moment coordinate: one million, which is
/// `MOMENT_LIMIT` squared as a fixed-point product.
pub const SECOND_MOMENT_LIMIT: i64 = 1_000_000_000_000;

/// The hyperparameters of one optimizer instance.
#[derive(Clone, Copy, Debug, PartialEq, Eq, Structural)]
pub struct AdamParams {
    /// Learning rate, customarily written alpha.
    pub alpha: i64,
    /// Decay rate of the first moment, customarily written beta one.
    pub beta1: i64,
    /// Decay rate of the second moment, customarily written beta two.
    pub beta2: i64,
    /// Damping constant added to the square root of the second moment.
    pub eps: i64,
    /// Decoupled penalty added to the gradient as `weight_decay * param`.
    pub weight_decay: i64,
}

impl AdamParams {
    /// The ranges within which the fixed-width update arithmetic is proved
    /// free of overflow.
    pub open spec fn valid(self) -> bool {
        &&& 0 <= self.alpha <= LR_MAX
        &&& 0 <= self.beta1 <= DECAY_MAX
        &&& 0 <= self.beta2 <= DECAY_MAX
        &&& 1 <= self.eps <= EPS_MAX
        &&& 0 <= self.weight_decay <= SCALE
    }

    /// Runtime check of `valid`, for callers outside the proved world.
    pub fn is_valid(&self) -> (r: bool)
        ensures
            r == self.valid(),
    {
        0 <= self.alpha && self.alpha <= LR_MAX && 0 <= self.beta1 && self.beta1 <= DECAY_MAX
            && 0 <= self.beta2 && self.beta2 <= DECAY_MAX && 1 <= self.eps && self.eps <= EPS_MAX
            && 0 <= self.weight_decay && self.weight_decay <= SCALE
    }
}

impl Default for AdamParams {
    /// The customary defaults: learning rate 0.001, decays 0.9 and 0.999,
    /// damping 0.1, no weight decay.
    fn default() -> (r: AdamParams)
        ensures
            r.valid(),
            r == (AdamParams {
                alpha: 1000,
                beta1: 900_000,
                beta2: 999_000,
                eps: 100_000,
                weight_decay: 0,
            }),
    {
        AdamParams { alpha: 1000, beta1: 900_000, beta2: 999_000, eps: 100_000, weight_decay: 0 }
    }
}

/// The gradient actually fed into the moment recurrences: the raw gradient
/// plus the weight-decay penalty.
pub open spec fn effective_grad(hp: AdamParams, p: int, g: int) -> int {
    g + fx_mul(hp.weight_decay as int, p)
}

/// Numerator, at twice the fixed-point scale, of the exponential moving
/// average `decay * prev + (1 - decay) * sample`.
pub open spec fn moment_num(decay: int, prev: int, sample: int) -> int {
    decay * prev + (SCALE - decay) * sample
}

/// The first moment after one update step.
pub open spec fn new_first_moment(hp: AdamParams, m: int, g: int) -> int {
    tdiv(moment_num(hp.beta1 as int, m, g), SCALE as int)
}

/// The second moment after one update step.
pub open spec fn new_second_moment(hp: AdamParams, v: int, g: int) -> int {
    tdiv(moment_num(hp.beta2 as int, v, fx_mul(g, g)), SCALE as int)
}

/// The bias-corrected first moment: the updated moment divided by
/// `1 - beta1^step`, with the whole numerator kept at full precision.
pub open spec fn corrected_first(hp: AdamParams, m: int, g: int, beta1_pow: int) -> int {
    tdiv(moment_num(hp.beta1 as int, m, g), SCALE - beta1_pow)
}

/// The bias-corrected second moment: the updated moment divided by
/// `1 - beta2^step`, with the whole numerator kept at full precision.
pub open spec fn corrected_second(hp: AdamParams, v: int, g: int, beta2_pow: int) -> int {
    tdiv(moment_num(hp.beta2 as int, v, fx_mul(g, g)), SCALE - beta2_pow)
}

/// The amount subtracted from the parameter:
/// `alpha * mhat / (sqrt(vhat) + eps)`.
pub open spec fn param_step(hp: AdamParams, mhat: int, vhat: int) -> int {
    fx_div(fx_mul(hp.alpha as int, mhat), fx_sqrt_spec(vhat) + hp.eps)
}

/// The parameter after one update step, given the moments before the step
/// and the decay powers after it.
pub open spec fn new_param(
    hp: AdamParams,
    p: int,
    m: int,
    v: int,
    g: int,
    beta1_pow: int,
    beta2_pow: int,
) -> int {
    p - param_step(hp, corrected_first(hp, m, g, beta1_pow), corrected_second(hp, v, g, beta2_pow))
}

/// The fixed-point power `decay^n`, computed by repeated fixed-point
/// multiplication exactly as the optimizer maintains it.
pub open spec fn decay_pow(decay: int, n: nat) -> int
    decreases n,
{
    if n == 0 {
        SCALE as int
    } else {
        fx_mul(decay, decay_pow(decay, (n - 1) as nat))
    }
}

/// A bounded product of bounded factors.
pub proof fn lemma_mul_bounds(a: int, b: int, ab: int, bb: int)
    by (nonlinear_arith)
    requires
        0 <= ab,
        0 <= bb,
        -ab <= a <= ab,
        -bb <= b <= bb,
    ensures
        -(ab * bb) <= a * b <= ab * bb,
{
}

/// A product of nonnegative factors is nonnegative.
pub proof fn lemma_mul_nonneg(a: int, b: int)
    by (nonlinear_arith)
    requires
        0 <= a,
        0 <= b,
    ensures
        0 <= a * b,
{
}

/// The moving-average numerator is a convex combination: it stays within
/// `SCALE` times the shared bound of its two inputs.
pub proof fn lemma_moment_num_bound(decay: int, prev: int, sample: int, bound: int)
    by (nonlinear_arith)
    requires
        0 <= decay <= 1_000_000,
        0 <= bound,
        -bound <= prev <= bound,
        -bound <= sample <= bound,
    ensures
        -(1_000_000 * bound) <= decay * prev + (1_000_000 - decay) * sample <= 1_000_000 * bound,
{
}

/// Rounding toward zero negates cleanly.
pub proof fn lemma_tdiv_neg(a: int, b: int)
    requires
        b > 0,
    ensures
        tdiv(-a, b) == -tdiv(a, b),
{
}

/// Multiplying by a decay factor of at most one shrinks a fixed-point value
/// toward zero.
pub proof fn lemma_decay_mul_contract(decay: int, x: int)
    requires
        0 <= decay <= SCALE as int,
    ensures
        x >= 0 ==> 0 <= fx_mul(decay, x) <= x,
        x < 0 ==> x <= fx_mul(decay, x) <= 0,
{
    if x >= 0 {
        assert(0 <= decay * x <= 1_000_000 * x) by (nonlinear_arith)
            requires
                0 <= decay <= 1_000_000,
                0 <= x,
        ;
        lemma_div_pos_is_pos(decay * x, SCALE as int);
        lemma_div_is_ordered(decay * x, (SCALE as int) * x, SCALE as int);
        lemma_tdiv_mul_cancel(x, SCALE as int);
    } else {
        assert(0 <= decay * (-x) <= 1_000_000 * (-x) && decay * (-x) == -(decay * x))
            by (nonlinear_arith)
            requires
                0 <= decay <= 1_000_000,
                x < 0,
        ;
        lemma_div_pos_is_pos(decay * (-x), SCALE as int);
        lemma_div_is_ordered(decay * (-x), (SCALE as int) * (-x), SCALE as int);
        lemma_tdiv_mul_cancel(-x, SCALE as int);
        lemma_tdiv_neg(decay * x, SCALE as int);
    }
}

/// The maintained decay powers stay between zero and one, and from the
/// first step on they never exceed the decay rate itself.
pub proof fn lemma_decay_pow_bounds(decay: int, n: nat)
    requires
        0 <= decay <= DECAY_MAX as int,
    ensures
        0 <= decay_pow(decay, n) <= SCALE as int,
        n >= 1 ==> decay_pow(decay, n) <= decay,
    decreases n,
{
    if n != 0 {
        lemma_decay_pow_bounds(decay, (n - 1) as nat);
        let prev = decay_pow(decay, (n - 1) as nat);
        assert(0 <= decay * prev <= decay * 1_000_000) by (nonlinear_arith)
            requires
                0 <= decay,
                0 <= prev <= 1_000_000,
        ;
        lemma_div_pos_is_pos(decay * prev, SCALE as int);
        lemma_div_is_ordered(decay * prev, decay * 1_000_000, SCALE as int);
        lemma_tdiv_mul_cancel(decay, SCALE as int);
        assert(decay * 1_000_000 == 1_000_000 * decay);
        lemma_decay_mul_contract(decay, prev);
    }
}

/// One coordinate of the Adam recurrence, with every intermediate value
/// computed at full `i128` precision before it is rounded.
fn scalar_step(hp: &AdamParams, b1_new: i64, b2_new: i64, m: i64, v: i64, p: i64, g: i64) -> (r:
    (i64, i64, i64))
    requires
        hp.valid(),
        0 <= b1_new <= DECAY_MAX,
        0 <= b2_new <= DECAY_MAX,
        -MOMENT_LIMIT <= m <= MOMENT_LIMIT,
        0 <= v <= SECOND_MOMENT_LIMIT,
        -MOMENT_LIMIT <= g <= MOMENT_LIMIT,
        -PARAM_LIMIT <= p <= PARAM_LIMIT,
    ensures
        r.0 == new_first_moment(*hp, m as int, g as int),
        r.1 == new_second_moment(*hp, v as int, g as int),
        r.2 == new_param(*hp, p as int, m as int, v as int, g as int, b1_new as int, b2_new as int),
        -MOMENT_LIMIT <= r.0 <= MOMENT_LIMIT,
        0 <= r.1 <= SECOND_MOMENT_LIMIT,
{
    let beta1: i64 = hp.beta1;
    let beta2: i64 = hp.beta2;

    // First moment and its bias correction.
    proof {
        lemma_mul_bounds(beta1 as int, m as int, 1_000_000, MOMENT_LIMIT as int);
        lemma_mul_bounds((SCALE - beta1) as int, g as int, 1_000_000, MOMENT_LIMIT as int);
        lemma_moment_num_bound(beta1 as int, m as int, g as int, MOMENT_LIMIT as int);
    }
    let mnum: i128 = (beta1 as i128) * (m as i128) + ((SCALE - beta1) as i128) * (g as i128);
    proof {
        lemma_tdiv_bounds(mnum as int, SCALE as int, 1_000_000_000_000_000);
    }
    let new_m128: i128 = tdiv_i128(mnum, SCALE as i128);
    let d1: i128 = (SCALE - b1_new) as i128;
    proof {
        lemma_tdiv_bounds(mnum as int, d1 as int, 1_000_000_000_000_000);
        lemma_tdiv_denominator(1_000_000_000_000_000, d1 as int, 1000);
    }
    let mhat: i128 = tdiv_i128(mnum, d1);

    // Second moment and its bias correction.
    proof {
        lemma_mul_bounds(g as int, g as int, MOMENT_LIMIT as int, MOMENT_LIMIT as int);
        assert(0 <= (g as int) * (g as int)) by (nonlinear_arith);
    }
    let gsq: i128 = (g as i128) * (g as i128);
    proof {
        lemma_tdiv_bounds(gsq as int, SCALE as int, 1_000_000_000_000_000_000);
    }
    let gsqf: i128 = tdiv_i128(gsq, SCALE as i128);
    proof {
        lemma_mul_bounds(beta2 as int, v as int, 1_000_000, SECOND_MOMENT_LIMIT as int);
        lemma_mul_nonneg(beta2 as int, v as int);
        lemma_mul_bounds((SCALE - beta2) as int, gsqf as int, 1_000_000, SECOND_MOMENT_LIMIT as int);
        lemma_mul_nonneg((SCALE - beta2) as int, gsqf as int);
        lemma_moment_num_bound(beta2 as int, v as int, gsqf as int, SECOND_MOMENT_LIMIT as int);
    }
    let vnum: i128 = (beta2 as i128) * (v as i128) + ((SCALE - beta2) as i128) * gsqf;
    proof {
        lemma_tdiv_bounds(vnum as int, SCALE as int, 1_000_000_000_000_000_000);
    }
    let new_v128: i128 = tdiv_i128(vnum, SCALE as i128);
    let d2: i128 = (SCALE - b2_new) as i128;
    proof {
        lemma_tdiv_bounds(vnum as int, d2 as int, 1_000_000_000_000_000_000);
        lemma_tdiv_denominator(1_000_000_000_000_000_000, d2 as int, 1000);
    }
    let vhat128: i128 = tdiv_i128(vnum, d2);
    let vhat: i64 = vhat128 as i64;

    // Parameter step.
    let root: i64 = fx_sqrt(vhat);
    let denom: i128 = (root as i128) + (hp.eps as i128);
    proof {
        lemma_mul_bounds(hp.alpha as int, mhat as int, 1_000_000, 1_000_000_000_000);
    }
    let anum_wide: i128 = (hp.alpha as i128) * mhat;
    proof {
        lemma_tdiv_bounds(anum_wide as int, SCALE as int, 1_000_000_000_000_000_000);
    }
    let anum: i128 = tdiv_i128(anum_wide, SCALE as i128);
    let dnum: i128 = anum * (SCALE as i128);
    proof {
        lemma_tdiv_bounds(dnum as int, denom as int, 1_000_000_000_000_000_000);
        lemma_tdiv_denominator(1_000_000_000_000_000_000, denom as int, 1);
    }
    let delta: i128 = tdiv_i128(dnum, denom);
    let new_p128: i128 = (p as i128) - delta;

    proof {
        assert(mnum == moment_num(beta1 as int, m as int, g as int));
        assert(gsqf == fx_mul(g as int, g as int));
        assert(vnum == moment_num(beta2 as int, v as int, fx_mul(g as int, g as int)));
        assert(mhat == corrected_first(*hp, m as int, g as int, b1_new as int));
        assert(vhat128 == corrected_second(*hp, v as int, g as int, b2_new as int));
        assert(root == fx_sqrt_spec(vhat as int));
        assert(anum == fx_mul(hp.alpha as int, mhat as int));
        assert(delta == fx_div(anum as int, (root + hp.eps) as int));
        assert(delta == param_step(*hp, mhat as int, vhat as int));
    }
    (new_m128 as i64, new_v128 as i64, new_p128 as i64)
}

/// The per-parameter persistent state of the optimizer: the step counter,
/// both moment vectors, and the running decay powers used for bias
/// correction.
#[derive(Clone, Debug)]
pub struct AdamState {
    /// The hyperparameters this state was created with.
    pub hp: AdamParams,
    /// Number of completed update calls.
    pub step: u64,
    /// Exponential moving average of the gradient, one entry per coordinate.
    pub first_moment: Vec<i64>,
    /// Exponential moving average of the squared gradient.
    pub second_moment: Vec<i64>,
    /// `beta1^step` as a fixed-point value.
    pub beta1_pow: i64,
    /// `beta2^step` as a fixed-point value.
    pub beta2_pow: i64,
}

impl AdamState {
    /// Well-formedness: the moment buffers agree in shape, stay within
    /// their proved bounds, and the cached decay powers are exactly the
    /// fixed-point powers of the decay rates.
    pub open spec fn wf(self) -> bool {
        &&& self.hp.valid()
        &&& self.first_moment@.len() == self.second_moment@.len()
        &&& forall|i: int|
            0 <= i < self.first_moment@.len() ==> -MOMENT_LIMIT
                <= #[trigger] self.first_moment@[i] <= MOMENT_LIMIT
        &&& forall|i: int|
            0 <= i < self.second_moment@.len() ==> 0 <= #[trigger] self.second_moment@[i]
                <= SECOND_MOMENT_LIMIT
        &&& self.beta1_pow == decay_pow(self.hp.beta1 as int, self.step as nat)
        &&& self.beta2_pow == decay_pow(self.hp.beta2 as int, self.step as nat)
    }

    /// A fresh optimizer state: step zero, zero moments, decay powers one.
    pub fn new(hp: AdamParams, dim: usize) -> (s: AdamState)
        requires
            hp.valid(),
        ensures
            s.wf(),
            s.hp == hp,
            s.step == 0,
            s.first_moment@.len() == dim,
            s.second_moment@.len() == dim,
            forall|i: int| 0 <= i < dim ==> #[trigger] s.first_moment@[i] == 0,
            forall|i: int| 0 <= i < dim ==> #[trigger] s.second_moment@[i] == 0,
            s.beta1_pow == SCALE,
            s.beta2_pow == SCALE,
    {
        let mut m: Vec<i64> = Vec::new();
        let mut v: Vec<i64> = Vec::new();
        while m.len() < dim
            invariant
                m@.len() == v@.len(),
                m@.len() <= dim,
                forall|j: int| 0 <= j < m@.len() ==> #[trigger] m@[j] == 0,
                forall|j: int| 0 <= j < v@.len() ==> #[trigger] v@[j] == 0,
            decreases dim - m@.len(),
        {
            m.push(0);
            v.push(0);
        }
        AdamState {
            hp,
            step: 0,
            first_moment: m,
            second_moment: v,
            beta1_pow: SCALE,
            beta2_pow: SCALE,
        }
    }

    /// One Adam step over a whole parameter vector.
    ///
    /// Shapes are checked first: on any disagreement between the parameter,
    /// the gradient and the moment buffers the call returns `ShapeMismatch`
    /// and touches nothing. Otherwise every coordinate is advanced by
    /// exactly the specified recurrence.
    pub fn update(&mut self, param: &mut Vec<i64>, grad: &Vec<i64>) -> (r: Result<(), TrainError>)
        requires
            old(self).wf(),
            old(self).step < u64::MAX,
            forall|i: int|
                0 <= i < old(param)@.len() ==> -PARAM_LIMIT <= #[trigger] old(param)@[i]
                    <= PARAM_LIMIT,
            forall|i: int| 0 <= i < grad@.len() ==> -GRAD_LIMIT <= #[trigger] grad@[i] <= GRAD_LIMIT,
        ensures
            final(self).hp == old(self).hp,
            r is Err <==> !(grad@.len() == old(param)@.len() && old(param)@.len() == old(
                self,
            ).first_moment@.len()),
            grad@.len() != old(param)@.len() ==> r == Err::<(), TrainError>(
                TrainError::ShapeMismatch { expected: old(param).len(), found: grad.len() },
            ),
            grad@.len() == old(param)@.len() && old(param)@.len() != old(self).first_moment@.len()
                ==> r == Err::<(), TrainError>(
                TrainError::ShapeMismatch {
                    expected: old(self).first_moment.len(),
                    found: old(param).len(),
                },
            ),
            r is Err ==> *final(self) == *old(self) && final(param)@ == old(param)@,
            r is Ok ==> {
                &&& final(self).wf()
                &&& final(self).step == old(self).step + 1
                &&& final(self).beta1_pow == fx_mul(
                    old(self).hp.beta1 as int,
                    old(self).beta1_pow as int,
                )
                &&& final(self).beta2_pow == fx_mul(
                    old(self).hp.beta2 as int,
                    old(self).beta2_pow as int,
                )
                &&& final(self).first_moment@.len() == old(self).first_moment@.len()
                &&& final(self).second_moment@.len() == old(self).second_moment@.len()
                &&& final(param)@.len() == old(param)@.len()
                &&& forall|i: int|
                    0 <= i < old(param)@.len() ==> #[trigger] final(self).first_moment@[i]
                        == new_first_moment(
                        old(self).hp,
                        old(self).first_moment@[i] as int,
                        effective_grad(old(self).hp, old(param)@[i] as int, grad@[i] as int),
                    )
                &&& forall|i: int|
                    0 <= i < old(param)@.len() ==> #[trigger] final(self).second_moment@[i]
                        == new_second_moment(
                        old(self).hp,
                        old(self).second_moment@[i] as int,
                        effective_grad(old(self).hp, old(param)@[i] as int, grad@[i] as int),
                    )
                &&& forall|i: int|
                    0 <= i < old(param)@.len() ==> #[trigger] final(param)@[i] == new_param(
                        old(self).hp,
                        old(param)@[i] as int,
                        old(self).first_moment@[i] as int,
                        old(self).second_moment@[i] as int,
                        effective_grad(old(self).hp, old(param)@[i] as int, grad@[i] as int),
                        final(self).beta1_pow as int,
                        final(self).beta2_pow as int,
                    )
            },
    {
        let dim: usize = param.len();
        if grad.len() != dim {
            return Err(TrainError::ShapeMismatch { expected: dim, found: grad.len() });
        }
        if self.first_moment.len() != dim {
            return Err(TrainError::ShapeMismatch { expected: self.first_moment.len(), found: dim });
        }
        proof {
            lemma_decay_pow_bounds(self.hp.beta1 as int, self.step as nat);
            lemma_decay_pow_bounds(self.hp.beta2 as int, self.step as nat);
            lemma_decay_mul_contract(self.hp.beta1 as int, self.beta1_pow as int);
            lemma_decay_mul_contract(self.hp.beta2 as int, self.beta2_pow as int);
            lemma_decay_pow_bounds(self.hp.beta1 as int, (self.step + 1) as nat);
            lemma_decay_pow_bounds(self.hp.beta2 as int, (self.step + 1) as nat);
        }
        let b1_new: i64 = fx_mul_exec(self.hp.beta1, self.beta1_pow);
        let b2_new: i64 = fx_mul_exec(self.hp.beta2, self.beta2_pow);
        assert(b1_new == decay_pow(self.hp.beta1 as int, (self.step + 1) as nat));
        assert(b2_new == decay_pow(self.hp.beta2 as int, (self.step + 1) as nat));

        let mut i: usize = 0;
        while i < dim
            invariant
                old(self).wf(),
                i <= dim,
                dim == old(param)@.len(),
                param@.len() == dim,
                grad@.len() == dim,
                self.hp == old(self).hp,
                self.step == old(self).step,
                self.beta1_pow == old(self).beta1_pow,
                self.beta2_pow == old(self).beta2_pow,
                self.first_moment@.len() == dim,
                self.second_moment@.len() == dim,
                old(self).first_moment@.len() == dim,
                old(self).second_moment@.len() == dim,
                0 <= b1_new <= DECAY_MAX,
                0 <= b2_new <= DECAY_MAX,
                forall|i: int|
                    0 <= i < old(param)@.len() ==> -PARAM_LIMIT <= #[trigger] old(param)@[i]
                        <= PARAM_LIMIT,
                forall|i: int|
                    0 <= i < grad@.len() ==> -GRAD_LIMIT <= #[trigger] grad@[i] <= GRAD_LIMIT,
                forall|j: int| i <= j < dim ==> param@[j] == #[trigger] old(param)@[j],
                forall|j: int|
                    i <= j < dim ==> self.first_moment@[j] == #[trigger] old(
                        self,
                    ).first_moment@[j],
                forall|j: int|
                    i <= j < dim ==> self.second_moment@[j] == #[trigger] old(
                        self,
                    ).second_moment@[j],
                forall|j: int|
                    0 <= j < i ==> #[trigger] self.first_moment@[j] == new_first_moment(
                        old(self).hp,
                        old(self).first_moment@[j] as int,
                        effective_grad(old(self).hp, old(param)@[j] as int, grad@[j] as int),
                    ) && -MOMENT_LIMIT <= self.first_moment@[j] <= MOMENT_LIMIT,
                forall|j: int|
                    0 <= j < i ==> #[trigger] self.second_moment@[j] == new_second_moment(
                        old(self).hp,
                        old(self).second_moment@[j] as int,
                        effective_grad(old(self).hp, old(param)@[j] as int, grad@[j] as int),
                    ) && 0 <= self.second_moment@[j] <= SECOND_MOMENT_LIMIT,
                forall|j: int|
                    0 <= j < i ==> #[trigger] param@[j] == new_param(
                        old(self).hp,
                        old(param)@[j] as int,
                        old(self).first_moment@[j] as int,
                        old(self).second_moment@[j] as int,
                        effective_grad(old(self).hp, old(param)@[j] as int, grad@[j] as int),
                        b1_new as int,
                        b2_new as int,
                    ),
            decreases dim - i,
        {
            proof {
                assert(param@[i as int] == old(param)@[i as int]);
                assert(self.first_moment@[i as int] == old(self).first_moment@[i as int]);
                assert(self.second_moment@[i as int] == old(self).second_moment@[i as int]);
                assert(-PARAM_LIMIT <= old(param)@[i as int] <= PARAM_LIMIT);
                assert(-MOMENT_LIMIT <= old(self).first_moment@[i as int] <= MOMENT_LIMIT);
                assert(0 <= old(self).second_moment@[i as int] <= SECOND_MOMENT_LIMIT);
            }
            let p_i: i64 = param[i];
            let g_raw: i64 = grad[i];
            proof {
                lemma_mul_bounds(
                    self.hp.weight_decay as int,
                    p_i as int,
                    1_000_000,
                    PARAM_LIMIT as int,
                );
                lemma_tdiv_bounds(
                    (self.hp.weight_decay as int) * (p_i as int),
                    SCALE as int,
                    1_000_000 * (PARAM_LIMIT as int),
                );
            }
            let wdp: i64 = fx_mul_exec(self.hp.weight_decay, p_i);
            let geff: i64 = g_raw + wdp;
            let (nm, nv, np) = scalar_step(
                &self.hp,
                b1_new,
                b2_new,
                self.first_moment[i],
                self.second_moment[i],
                p_i,
                geff,
            );
            self.first_moment[i] = nm;
            self.second_moment[i] = nv;
            param[i] = np;
            i = i + 1;
        }
        self.beta1_pow = b1_new;
        self.beta2_pow = b2_new;
        self.step = self.step + 1;
        Ok(())
    }
}

/// Law: bias correction exactly undoes the initial decay. After the first
/// step from a fresh state (zero moments, decay powers one), the
/// bias-corrected first moment is exactly the effective gradient and the
/// bias-corrected second moment is exactly its fixed-point square.
pub proof fn lemma_bias_correction_first_step(hp: AdamParams, g: int)
    requires
        hp.valid(),
    ensures
        decay_pow(hp.beta1 as int, 1) == hp.beta1 as int,
        decay_pow(hp.beta2 as int, 1) == hp.beta2 as int,
        corrected_first(hp, 0, g, hp.beta1 as int) == g,
        corrected_second(hp, 0, g, hp.beta2 as int) == fx_mul(g, g),
{
    assert(decay_pow(hp.beta1 as int, 0) == SCALE as int);
    assert(decay_pow(hp.beta2 as int, 0) == SCALE as int);
    lemma_tdiv_mul_cancel(hp.beta1 as int, SCALE as int);
    lemma_tdiv_mul_cancel(hp.beta2 as int, SCALE as int);
    assert((hp.beta1 as int) * (SCALE as int) == (SCALE as int) * (hp.beta1 as int));
    assert((hp.beta2 as int) * (SCALE as int) == (SCALE as int) * (hp.beta2 as int));
    lemma_tdiv_mul_cancel(g, SCALE - hp.beta1 as int);
    lemma_tdiv_mul_cancel(fx_mul(g, g), SCALE - hp.beta2 as int);
    assert(moment_num(hp.beta1 as int, 0, g) == (SCALE - hp.beta1 as int) * g);
    assert(moment_num(hp.beta2 as int, 0, fx_mul(g, g)) == (SCALE - hp.beta2 as int) * fx_mul(
        g,
        g,
    ));
}

/// Law: the parameter moves by exactly
/// `alpha * mhat / (sqrt(vhat) + eps)`, never in the direction of the
/// bias-corrected moment: the step taken has the sign of `mhat`, so a
/// descent direction is never reversed by the arithmetic.
pub proof fn lemma_param_step_sign(hp: AdamParams, mhat: int, vhat: int)
    requires
        hp.valid(),
    ensures
        mhat >= 0 ==> param_step(hp, mhat, vhat) >= 0,
        mhat <= 0 ==> param_step(hp, mhat, vhat) <= 0,
{
    lemma_isqrt_bounds(vhat * (SCALE as int));
    let denom = fx_sqrt_spec(vhat) + hp.eps;
    if mhat >= 0 {
        assert(0 <= (hp.alpha as int) * mhat) by (nonlinear_arith)
            requires
                0 <= hp.alpha,
                0 <= mhat,
        ;
        lemma_div_pos_is_pos((hp.alpha as int) * mhat, SCALE as int);
        let anum = fx_mul(hp.alpha as int, mhat);
        assert(0 <= anum * (SCALE as int)) by (nonlinear_arith)
            requires
                0 <= anum,
        ;
        lemma_div_pos_is_pos(anum * (SCALE as int), denom);
    } else {
        assert((hp.alpha as int) * mhat <= 0) by (nonlinear_arith)
            requires
                0 <= hp.alpha,
                mhat <= 0,
        ;
        lemma_div_pos_is_pos(-((hp.alpha as int) * mhat), SCALE as int);
        let anum = fx_mul(hp.alpha as int, mhat);
        assert(anum * (SCALE as int) <= 0) by (nonlinear_arith)
            requires
                anum <= 0,
        ;
        lemma_div_pos_is_pos(-(anum * (SCALE as int)), denom);
    }
}

/// Law: the very first update from a fresh state moves the parameter by
/// exactly `alpha * g / (sqrt(g^2) + eps)`: bias correction makes the
/// first step independent of the zero-initialized moments.
pub proof fn lemma_first_step_param(hp: AdamParams, p: int, g: int)
    requires
        hp.valid(),
    ensures
        new_param(hp, p, 0, 0, g, hp.beta1 as int, hp.beta2 as int) == p - fx_div(
            fx_mul(hp.alpha as int, g),
            fx_sqrt_spec(fx_mul(g, g)) + hp.eps,
        ),
{
    lemma_bias_correction_first_step(hp, g);
}

/// Law: a zero-gradient step decays the first moment by exactly the decay
/// factor, and the magnitude of the moment never grows.
pub proof fn lemma_zero_grad_moment_decay(hp: AdamParams, m: int)
    requires
        hp.valid(),
    ensures
        new_first_moment(hp, m, 0) == fx_mul(hp.beta1 as int, m),
        m >= 0 ==> 0 <= new_first_moment(hp, m, 0) <= m,
        m < 0 ==> m <= new_first_moment(hp, m, 0) <= 0,
{
    assert(moment_num(hp.beta1 as int, m, 0) == (hp.beta1 as int) * m);
    lemma_decay_mul_contract(hp.beta1 as int, m);
}

/// The first moment after `n` zero-gradient steps, starting from `m0`:
/// the `n`-fold fixed-point decay of `m0`. With exact arithmetic this is
/// `beta1^n * m0`.
pub open spec fn decayed_moment(decay: int, m0: int, n: nat) -> int
    decreases n,
{
    if n == 0 {
        m0
    } else {
        fx_mul(decay, decayed_moment(decay, m0, (n - 1) as nat))
    }
}

/// Law: under zero gradients the first moment follows the geometric decay
/// `decayed_moment` step by step, and never grows in magnitude; a moment
/// that is exactly zero stays exactly zero.
pub proof fn lemma_zero_grad_geometric(hp: AdamParams, m0: int, n: nat)
    requires
        hp.valid(),
    ensures
        n >= 1 ==> decayed_moment(hp.beta1 as int, m0, n) == new_first_moment(
            hp,
            decayed_moment(hp.beta1 as int, m0, (n - 1) as nat),
            0,
        ),
        m0 >= 0 ==> 0 <= decayed_moment(hp.beta1 as int, m0, n) <= m0,
        m0 < 0 ==> m0 <= decayed_moment(hp.beta1 as int, m0, n) <= 0,
        m0 == 0 ==> decayed_moment(hp.beta1 as int, m0, n) == 0,
    decreases n,
{
    if n >= 1 {
        lemma_zero_grad_geometric(hp, m0, (n - 1) as nat);
        lemma_zero_grad_moment_decay(hp, decayed_moment(hp.beta1 as int, m0, (n - 1) as nat));
        lemma_decay_mul_contract(
            hp.beta1 as int,
            decayed_moment(hp.beta1 as int, m0, (n - 1) as nat),
        );
    }
}

/// Law: once the first moment is zero, a zero-gradient step leaves the
/// parameter exactly unchanged, whatever the second moment holds.
pub proof fn lemma_zero_grad_param_fixed(hp: AdamParams, p: int, v: int, b1_new: int, b2_new: int)
    requires
        hp.valid(),
        0 <= b1_new <= DECAY_MAX as int,
        0 <= b2_new <= DECAY_MAX as int,
    ensures
        new_param(hp, p, 0, v, 0, b1_new, b2_new) == p,
{
    let d1 = SCALE - b1_new;
    assert(moment_num(hp.beta1 as int, 0, 0) == 0);
    lemma_div_pos_is_pos(0, d1);
    lemma_div_nonincreasing(0, d1);
    assert(corrected_first(hp, 0, 0, b1_new) == 0);
    assert(fx_mul(hp.alpha as int, 0) == 0) by {
        lemma_div_pos_is_pos(0, SCALE as int);
        lemma_div_nonincreasing(0, SCALE as int);
    }
    let vhat = corrected_second(hp, v, 0, b2_new);
    lemma_isqrt_bounds(vhat * (SCALE as int));
    let denom = fx_sqrt_spec(vhat) + hp.eps;
    lemma_div_pos_is_pos(0, denom);
    lemma_div_nonincreasing(0, denom);
    assert(param_step(hp, 0, vhat) == 0);
}

} // verus!
