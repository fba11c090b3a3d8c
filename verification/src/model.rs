//! The two-stage regression network, forward pass only.
//!
//! Stage A maps the previous-velocity and action columns of a five-feature
//! input row to one predicted velocity. Stage B appends that prediction to
//! the row and applies two linear layers, mapping the six features to four
//! predicted observations. All weights and activations are fixed-point
//! values; gradients come from outside, so only the forward computation
//! lives here.

use crate::fixed::{fx_mul, fx_mul_exec, SCALE};
use crate::fixed::{lemma_tdiv_bounds, lemma_tdiv_mul_cancel};
use crate::adam::{lemma_mul_bounds};
use vstd::prelude::*;

verus! {

/// Largest admitted weight magnitude: one hundred.
pub const WEIGHT_LIMIT: i64 = 100_000_000;

/// Largest admitted input-feature magnitude: one hundred.
pub const INPUT_LIMIT: i64 = 100_000_000;

/// Bound on Stage A's output: two products of bounded factors plus a bias.
pub const A2V_OUT_LIMIT: i64 = 21_000_000_000;

/// Bound on the entries of a row once Stage A's output is appended.
pub const CAT_LIMIT: i64 = 21_000_000_000;

/// Bound on a hidden activation: a six-term dot product plus a bias.
pub const HIDDEN_LIMIT: i64 = 13_000_000_000_000;

/// Bound on a network output: a five-term dot product over hidden values.
pub const OUT_LIMIT: i64 = 7_800_000_000_000_000;

/// A sequence of raw `i64` values read as mathematical integers.
pub open spec fn int_seq(s: Seq<i64>) -> Seq<int> {
    s.map_values(|x: i64| x as int)
}

/// Fixed-point dot product of two equally long sequences.
pub open spec fn fx_dot(w: Seq<int>, x: Seq<int>) -> int
    decreases w.len(),
{
    if w.len() == 0 {
        0
    } else {
        fx_dot(w.drop_last(), x.drop_last()) + fx_mul(w.last(), x.last())
    }
}

/// Adding one more bounded term keeps a partial dot product bounded.
proof fn lemma_dot_step_bound(acc: int, term: int, k: int, limit: int)
    by (nonlinear_arith)
    requires
        0 <= limit <= 20_000_000_000_000,
        0 <= k <= 5,
        -(100 * k * limit) <= acc <= 100 * k * limit,
        -(100 * limit) <= term <= 100 * limit,
    ensures
        -(100 * (k + 1) * limit) <= acc + term <= 100 * (k + 1) * limit,
        -12_000_000_000_000_000 <= acc + term <= 12_000_000_000_000_000,
{
}

/// A row of at most six entries within `limit`, multiplied by weights
/// within `WEIGHT_LIMIT`, yields a dot product within `600 * limit`.
fn fx_dot_exec(w: &Vec<i64>, x: &Vec<i64>, limit: i64) -> (r: i64)
    requires
        w@.len() == x@.len(),
        w@.len() <= 6,
        0 <= limit <= 20_000_000_000_000,
        forall|k: int| 0 <= k < w@.len() ==> -WEIGHT_LIMIT <= #[trigger] w@[k] <= WEIGHT_LIMIT,
        forall|k: int| 0 <= k < x@.len() ==> -limit <= #[trigger] x@[k] <= limit,
    ensures
        r == fx_dot(int_seq(w@), int_seq(x@)),
        -600 * limit <= r <= 600 * limit,
{
    let n: usize = w.len();
    let mut acc: i64 = 0;
    let mut k: usize = 0;
    while k < n
        invariant
            k <= n,
            n == w@.len(),
            n == x@.len(),
            n <= 6,
            0 <= limit <= 20_000_000_000_000,
            forall|j: int| 0 <= j < w@.len() ==> -WEIGHT_LIMIT <= #[trigger] w@[j] <= WEIGHT_LIMIT,
            forall|j: int| 0 <= j < x@.len() ==> -limit <= #[trigger] x@[j] <= limit,
            acc == fx_dot(int_seq(w@).take(k as int), int_seq(x@).take(k as int)),
            -(100 * (k as int) * (limit as int)) <= acc <= 100 * (k as int) * (limit as int),
        decreases n - k,
    {
        proof {
            lemma_mul_bounds(w@[k as int] as int, x@[k as int] as int, 100_000_000, limit as int);
            lemma_tdiv_bounds(
                (w@[k as int] as int) * (x@[k as int] as int),
                SCALE as int,
                100_000_000 * (limit as int),
            );
            assert(100_000_000 * (limit as int) == 1_000_000 * (100 * (limit as int)));
            lemma_tdiv_mul_cancel(100 * (limit as int), 1_000_000);
        }
        let term: i64 = fx_mul_exec(w[k], x[k]);
        proof {
            let wi = int_seq(w@);
            let xi = int_seq(x@);
            assert(wi.take(k + 1).drop_last() =~= wi.take(k as int));
            assert(xi.take(k + 1).drop_last() =~= xi.take(k as int));
            assert(wi.take(k + 1).last() == w@[k as int] as int);
            assert(xi.take(k + 1).last() == x@[k as int] as int);
            lemma_dot_step_bound(acc as int, term as int, k as int, limit as int);
        }
        acc = acc + term;
        k = k + 1;
    }
    proof {
        assert(int_seq(w@).take(n as int) =~= int_seq(w@));
        assert(int_seq(x@).take(n as int) =~= int_seq(x@));
        assert(100 * (n as int) * (limit as int) <= 600 * (limit as int)) by (nonlinear_arith)
            requires
                0 <= limit,
                0 <= n <= 6,
        ;
    }
    acc
}

/// Stage A: the "action to velocity" sub-model, a single linear unit over
/// the previous-velocity and action columns.
#[derive(Clone, Copy, Debug, PartialEq, Eq, Structural)]
pub struct Act2Vel {
    /// Weight applied to the previous cart velocity (column one).
    pub weight_vel: i64,
    /// Weight applied to the action (column four).
    pub weight_act: i64,
    /// Bias of the single output unit.
    pub bias: i64,
}

/// Stage A's prediction for one five-feature row.
pub open spec fn act2vel_spec(m: Act2Vel, row: Seq<int>) -> int {
    fx_mul(m.weight_vel as int, row[1]) + fx_mul(m.weight_act as int, row[4]) + m.bias
}

/// A well-shaped input row: five features, each within `INPUT_LIMIT`.
pub open spec fn row_ok(row: Seq<i64>) -> bool {
    row.len() == 5 && forall|j: int| 0 <= j < row.len() ==> -INPUT_LIMIT <= #[trigger] row[j]
        <= INPUT_LIMIT
}

/// A batch whose rows are all well shaped.
pub open spec fn batch_ok(b: Seq<Vec<i64>>) -> bool {
    forall|i: int| 0 <= i < b.len() ==> row_ok(#[trigger] b[i]@)
}

impl Act2Vel {
    /// Weights within the proved arithmetic budget.
    pub open spec fn wf(self) -> bool {
        &&& -WEIGHT_LIMIT <= self.weight_vel <= WEIGHT_LIMIT
        &&& -WEIGHT_LIMIT <= self.weight_act <= WEIGHT_LIMIT
        &&& -WEIGHT_LIMIT <= self.bias <= WEIGHT_LIMIT
    }

    /// A Stage A model from explicit weights; random initialization, when
    /// wanted, is the caller's concern.
    pub fn new(weight_vel: i64, weight_act: i64, bias: i64) -> (m: Act2Vel)
        requires
            -WEIGHT_LIMIT <= weight_vel <= WEIGHT_LIMIT,
            -WEIGHT_LIMIT <= weight_act <= WEIGHT_LIMIT,
            -WEIGHT_LIMIT <= bias <= WEIGHT_LIMIT,
        ensures
            m.wf(),
            m == (Act2Vel { weight_vel, weight_act, bias }),
    {
        Act2Vel { weight_vel, weight_act, bias }
    }

    /// Stage A's prediction for one row: exactly `act2vel_spec`.
    pub fn forward_row(&self, row: &Vec<i64>) -> (r: i64)
        requires
            self.wf(),
            row_ok(row@),
        ensures
            r == act2vel_spec(*self, int_seq(row@)),
            -A2V_OUT_LIMIT <= r <= A2V_OUT_LIMIT,
    {
        proof {
            lemma_mul_bounds(self.weight_vel as int, row@[1] as int, 100_000_000, 100_000_000);
            lemma_tdiv_bounds(
                (self.weight_vel as int) * (row@[1] as int),
                SCALE as int,
                10_000_000_000_000_000,
            );
            lemma_mul_bounds(self.weight_act as int, row@[4] as int, 100_000_000, 100_000_000);
            lemma_tdiv_bounds(
                (self.weight_act as int) * (row@[4] as int),
                SCALE as int,
                10_000_000_000_000_000,
            );
        }
        let t1: i64 = fx_mul_exec(self.weight_vel, row[1]);
        let t2: i64 = fx_mul_exec(self.weight_act, row[4]);
        t1 + t2 + self.bias
    }

    /// Stage A's predictions for a whole batch, row by row.
    pub fn forward(&self, batch: &Vec<Vec<i64>>) -> (r: Vec<i64>)
        requires
            self.wf(),
            batch_ok(batch@),
        ensures
            r@.len() == batch@.len(),
            forall|i: int|
                0 <= i < batch@.len() ==> #[trigger] r@[i] == act2vel_spec(
                    *self,
                    int_seq(batch@[i]@),
                ),
            forall|i: int|
                0 <= i < batch@.len() ==> -A2V_OUT_LIMIT <= #[trigger] r@[i] <= A2V_OUT_LIMIT,
    {
        let mut out: Vec<i64> = Vec::new();
        let mut i: usize = 0;
        while i < batch.len()
            invariant
                i <= batch@.len(),
                self.wf(),
                batch_ok(batch@),
                out@.len() == i,
                forall|j: int|
                    0 <= j < i ==> #[trigger] out@[j] == act2vel_spec(*self, int_seq(batch@[j]@)),
                forall|j: int| 0 <= j < i ==> -A2V_OUT_LIMIT <= #[trigger] out@[j] <= A2V_OUT_LIMIT,
            decreases batch@.len() - i,
        {
            assert(row_ok(batch@[i as int]@));
            let v: i64 = self.forward_row(&batch[i]);
            out.push(v);
            i = i + 1;
        }
        out
    }
}

/// Appends one predicted column onto a batch: row `i` of the result is row
/// `i` of the batch with entry `i` of the column pushed at its end.
pub fn concat_columns(batch: &Vec<Vec<i64>>, col: &Vec<i64>) -> (r: Vec<Vec<i64>>)
    requires
        batch@.len() == col@.len(),
    ensures
        r@.len() == batch@.len(),
        forall|i: int| 0 <= i < batch@.len() ==> #[trigger] r@[i]@ == batch@[i]@.push(col@[i]),
{
    let mut out: Vec<Vec<i64>> = Vec::new();
    let mut i: usize = 0;
    while i < batch.len()
        invariant
            i <= batch@.len(),
            batch@.len() == col@.len(),
            out@.len() == i,
            forall|j: int| 0 <= j < i ==> #[trigger] out@[j]@ == batch@[j]@.push(col@[j]),
        decreases batch@.len() - i,
    {
        let src: &Vec<i64> = &batch[i];
        let mut row: Vec<i64> = Vec::new();
        let mut j: usize = 0;
        while j < src.len()
            invariant
                j <= src@.len(),
                row@ == src@.take(j as int),
            decreases src@.len() - j,
        {
            row.push(src[j]);
            proof {
                assert(row@ =~= src@.take(j + 1));
            }
            j = j + 1;
        }
        proof {
            assert(src@.take(src@.len() as int) =~= src@);
        }
        row.push(col[i]);
        out.push(row);
        i = i + 1;
    }
    out
}

/// The full network: Stage A plus two linear layers over the concatenated
/// six-feature rows.
#[derive(Clone, Debug)]
pub struct Net {
    /// The separately trainable "action to velocity" sub-model.
    pub a2v: Act2Vel,
    /// Bias of the five hidden units.
    pub bias: Vec<i64>,
    /// Hidden layer: five rows of six input weights.
    pub i2h: Vec<Vec<i64>>,
    /// Output layer: four rows of five hidden weights. No bias, and no
    /// activation between the layers: this tiny problem learns better
    /// without one, though nothing here depends on that choice.
    pub h2o: Vec<Vec<i64>>,
}

/// The hidden activations for one concatenated six-feature row.
pub open spec fn hidden_spec(net: Net, x6: Seq<int>) -> Seq<int> {
    Seq::new(5, |j: int| fx_dot(int_seq(net.i2h@[j]@), x6) + net.bias@[j])
}

/// The four outputs for one sequence of hidden activations.
pub open spec fn out_spec(net: Net, h: Seq<int>) -> Seq<int> {
    Seq::new(4, |j: int| fx_dot(int_seq(net.h2o@[j]@), h))
}

/// The full forward computation for one five-feature row: Stage A's
/// prediction is pushed onto the row, then the two layers are applied.
pub open spec fn net_row_spec(net: Net, row: Seq<int>) -> Seq<int> {
    out_spec(net, hidden_spec(net, row.push(act2vel_spec(net.a2v, row))))
}

/// Stage A's predictions for every row of a batch.
pub open spec fn a2v_batch_spec(net: Net, xs: Seq<Seq<int>>) -> Seq<int> {
    Seq::new(xs.len(), |i: int| act2vel_spec(net.a2v, xs[i]))
}

/// A predicted column concatenated onto a batch, row by row.
pub open spec fn cat_batch_spec(xs: Seq<Seq<int>>, v: Seq<int>) -> Seq<Seq<int>> {
    Seq::new(xs.len(), |i: int| xs[i].push(v[i]))
}

/// The full forward computation for every row of a batch.
pub open spec fn net_batch_spec(net: Net, xs: Seq<Seq<int>>) -> Seq<Seq<int>> {
    Seq::new(xs.len(), |i: int| net_row_spec(net, xs[i]))
}

impl Net {
    /// Shapes and weight bounds of the whole network.
    pub open spec fn wf(self) -> bool {
        &&& self.a2v.wf()
        &&& self.bias@.len() == 5
        &&& forall|j: int|
            0 <= j < self.bias@.len() ==> -WEIGHT_LIMIT <= #[trigger] self.bias@[j] <= WEIGHT_LIMIT
        &&& self.i2h@.len() == 5
        &&& forall|j: int| 0 <= j < self.i2h@.len() ==> #[trigger] self.i2h@[j]@.len() == 6
        &&& forall|j: int, k: int|
            0 <= j < self.i2h@.len() && 0 <= k < self.i2h@[j]@.len() ==> -WEIGHT_LIMIT
                <= #[trigger] self.i2h@[j]@[k] <= WEIGHT_LIMIT
        &&& self.h2o@.len() == 4
        &&& forall|j: int| 0 <= j < self.h2o@.len() ==> #[trigger] self.h2o@[j]@.len() == 5
        &&& forall|j: int, k: int|
            0 <= j < self.h2o@.len() && 0 <= k < self.h2o@[j]@.len() ==> -WEIGHT_LIMIT
                <= #[trigger] self.h2o@[j]@[k] <= WEIGHT_LIMIT
    }

    /// A network from explicit weights; random initialization, when
    /// wanted, is the caller's concern.
    pub fn new(a2v: Act2Vel, bias: Vec<i64>, i2h: Vec<Vec<i64>>, h2o: Vec<Vec<i64>>) -> (m: Net)
        requires
            (Net { a2v, bias, i2h, h2o }).wf(),
        ensures
            m.wf(),
            m == (Net { a2v, bias, i2h, h2o }),
    {
        Net { a2v, bias, i2h, h2o }
    }

    /// Runtime check of `wf`, for callers outside the proved world.
    pub fn is_well_formed(&self) -> (r: bool)
        ensures
            r == self.wf(),
    {
        if !(-WEIGHT_LIMIT <= self.a2v.weight_vel && self.a2v.weight_vel <= WEIGHT_LIMIT
            && -WEIGHT_LIMIT <= self.a2v.weight_act && self.a2v.weight_act <= WEIGHT_LIMIT
            && -WEIGHT_LIMIT <= self.a2v.bias && self.a2v.bias <= WEIGHT_LIMIT) {
            return false;
        }
        if self.bias.len() != 5 || self.i2h.len() != 5 || self.h2o.len() != 4 {
            return false;
        }
        let mut j: usize = 0;
        while j < 5
            invariant
                j <= 5,
                self.bias@.len() == 5,
                forall|t: int|
                    0 <= t < j ==> -WEIGHT_LIMIT <= #[trigger] self.bias@[t] <= WEIGHT_LIMIT,
            decreases 5 - j,
        {
            if !(-WEIGHT_LIMIT <= self.bias[j] && self.bias[j] <= WEIGHT_LIMIT) {
                return false;
            }
            j = j + 1;
        }
        let mut j: usize = 0;
        while j < 5
            invariant
                j <= 5,
                self.i2h@.len() == 5,
                forall|t: int| 0 <= t < j ==> #[trigger] self.i2h@[t]@.len() == 6,
                forall|t: int, k: int|
                    0 <= t < j && 0 <= k < self.i2h@[t]@.len() ==> -WEIGHT_LIMIT
                        <= #[trigger] self.i2h@[t]@[k] <= WEIGHT_LIMIT,
            decreases 5 - j,
        {
            if self.i2h[j].len() != 6 {
                return false;
            }
            let mut k: usize = 0;
            while k < 6
                invariant
                    k <= 6,
                    j < 5,
                    self.i2h@.len() == 5,
                    self.i2h@[j as int]@.len() == 6,
                    forall|t: int|
                        0 <= t < k ==> -WEIGHT_LIMIT <= #[trigger] self.i2h@[j as int]@[t]
                            <= WEIGHT_LIMIT,
                decreases 6 - k,
            {
                let w: i64 = self.i2h[j][k];
                if !(-WEIGHT_LIMIT <= w && w <= WEIGHT_LIMIT) {
                    return false;
                }
                k = k + 1;
            }
            j = j + 1;
        }
        let mut j: usize = 0;
        while j < 4
            invariant
                j <= 4,
                self.h2o@.len() == 4,
                forall|t: int| 0 <= t < j ==> #[trigger] self.h2o@[t]@.len() == 5,
                forall|t: int, k: int|
                    0 <= t < j && 0 <= k < self.h2o@[t]@.len() ==> -WEIGHT_LIMIT
                        <= #[trigger] self.h2o@[t]@[k] <= WEIGHT_LIMIT,
            decreases 4 - j,
        {
            if self.h2o[j].len() != 5 {
                return false;
            }
            let mut k: usize = 0;
            while k < 5
                invariant
                    k <= 5,
                    j < 4,
                    self.h2o@.len() == 4,
                    self.h2o@[j as int]@.len() == 5,
                    forall|t: int|
                        0 <= t < k ==> -WEIGHT_LIMIT <= #[trigger] self.h2o@[j as int]@[t]
                            <= WEIGHT_LIMIT,
                decreases 5 - k,
            {
                let w: i64 = self.h2o[j][k];
                if !(-WEIGHT_LIMIT <= w && w <= WEIGHT_LIMIT) {
                    return false;
                }
                k = k + 1;
            }
            j = j + 1;
        }
        true
    }

    /// The full forward pass over a batch: Stage A's predicted velocities
    /// are appended column-wise to the inputs, and the two linear layers
    /// map each six-feature row to four outputs. Purely functional: the
    /// result is exactly `net_batch_spec` of the weights and the inputs.
    pub fn forward(&self, batch: &Vec<Vec<i64>>) -> (r: Vec<Vec<i64>>)
        requires
            self.wf(),
            batch_ok(batch@),
        ensures
            r@.len() == batch@.len(),
            forall|i: int|
                0 <= i < batch@.len() ==> #[trigger] int_seq(r@[i]@) == net_row_spec(
                    *self,
                    int_seq(batch@[i]@),
                ),
            forall|i: int| 0 <= i < batch@.len() ==> #[trigger] r@[i]@.len() == 4,
            forall|i: int, j: int|
                0 <= i < batch@.len() && 0 <= j < 4 ==> -OUT_LIMIT <= #[trigger] r@[i]@[j]
                    <= OUT_LIMIT,
    {
        let vels: Vec<i64> = self.a2v.forward(batch);
        let cat: Vec<Vec<i64>> = concat_columns(batch, &vels);
        let mut out: Vec<Vec<i64>> = Vec::new();
        let mut i: usize = 0;
        while i < cat.len()
            invariant
                i <= cat@.len(),
                self.wf(),
                batch_ok(batch@),
                cat@.len() == batch@.len(),
                vels@.len() == batch@.len(),
                forall|t: int|
                    0 <= t < batch@.len() ==> #[trigger] vels@[t] == act2vel_spec(
                        self.a2v,
                        int_seq(batch@[t]@),
                    ),
                forall|t: int|
                    0 <= t < batch@.len() ==> -A2V_OUT_LIMIT <= #[trigger] vels@[t]
                        <= A2V_OUT_LIMIT,
                forall|t: int|
                    0 <= t < batch@.len() ==> #[trigger] cat@[t]@ == batch@[t]@.push(vels@[t]),
                out@.len() == i,
                forall|t: int|
                    0 <= t < i ==> #[trigger] int_seq(out@[t]@) == net_row_spec(
                        *self,
                        int_seq(batch@[t]@),
                    ),
                forall|t: int| 0 <= t < i ==> #[trigger] out@[t]@.len() == 4,
                forall|t: int, j: int|
                    0 <= t < i && 0 <= j < 4 ==> -OUT_LIMIT <= #[trigger] out@[t]@[j] <= OUT_LIMIT,
            decreases cat@.len() - i,
        {
            let xrow: &Vec<i64> = &cat[i];
            proof {
                assert(cat@[i as int]@ == batch@[i as int]@.push(vels@[i as int]));
                assert(row_ok(batch@[i as int]@));
                assert(xrow@.len() == 6);
                assert forall|k: int| 0 <= k < xrow@.len() implies -CAT_LIMIT <= #[trigger] xrow@[k]
                    <= CAT_LIMIT by {
                    if k < 5 {
                        assert(xrow@[k] == batch@[i as int]@[k]);
                    } else {
                        assert(xrow@[k] == vels@[i as int]);
                    }
                }
            }
            let mut hidden: Vec<i64> = Vec::new();
            let mut j: usize = 0;
            while j < 5
                invariant
                    j <= 5,
                    self.wf(),
                    i < cat@.len(),
                    xrow@.len() == 6,
                    forall|k: int| 0 <= k < xrow@.len() ==> -CAT_LIMIT <= #[trigger] xrow@[k]
                        <= CAT_LIMIT,
                    hidden@.len() == j,
                    forall|t: int|
                        0 <= t < j ==> #[trigger] hidden@[t] == fx_dot(
                            int_seq(self.i2h@[t]@),
                            int_seq(xrow@),
                        ) + self.bias@[t],
                    forall|t: int|
                        0 <= t < j ==> -HIDDEN_LIMIT <= #[trigger] hidden@[t] <= HIDDEN_LIMIT,
                decreases 5 - j,
            {
                let d: i64 = fx_dot_exec(&self.i2h[j], xrow, CAT_LIMIT);
                hidden.push(d + self.bias[j]);
                j = j + 1;
            }
            let mut orow: Vec<i64> = Vec::new();
            let mut j: usize = 0;
            while j < 4
                invariant
                    j <= 4,
                    self.wf(),
                    hidden@.len() == 5,
                    forall|t: int|
                        0 <= t < 5 ==> -HIDDEN_LIMIT <= #[trigger] hidden@[t] <= HIDDEN_LIMIT,
                    orow@.len() == j,
                    forall|t: int|
                        0 <= t < j ==> #[trigger] orow@[t] == fx_dot(
                            int_seq(self.h2o@[t]@),
                            int_seq(hidden@),
                        ),
                    forall|t: int| 0 <= t < j ==> -OUT_LIMIT <= #[trigger] orow@[t] <= OUT_LIMIT,
                decreases 4 - j,
            {
                let d: i64 = fx_dot_exec(&self.h2o[j], &hidden, HIDDEN_LIMIT);
                orow.push(d);
                j = j + 1;
            }
            proof {
                let rowints = int_seq(batch@[i as int]@);
                let x6 = int_seq(xrow@);
                assert(x6 =~= rowints.push(act2vel_spec(self.a2v, rowints)));
                assert(int_seq(hidden@) =~= hidden_spec(*self, x6));
                assert(int_seq(orow@) =~= out_spec(*self, int_seq(hidden@)));
                assert(int_seq(orow@) == net_row_spec(*self, rowints));
            }
            out.push(orow);
            i = i + 1;
        }
        out
    }
}

/// Law: concatenating Stage A's output column onto a batch preserves row
/// alignment. Row `i` of the concatenated batch is exactly row `i` of the
/// input followed by entry `i` of the column: same prefix, the column value
/// last.
pub proof fn lemma_concat_preserves_rows(xs: Seq<Seq<int>>, v: Seq<int>)
    requires
        xs.len() == v.len(),
    ensures
        cat_batch_spec(xs, v).len() == xs.len(),
        forall|i: int|
            0 <= i < xs.len() ==> #[trigger] cat_batch_spec(xs, v)[i] == xs[i].push(v[i]),
        forall|i: int|
            0 <= i < xs.len() ==> (#[trigger] cat_batch_spec(xs, v)[i]).len() == xs[i].len() + 1,
        forall|i: int|
            0 <= i < xs.len() ==> (#[trigger] cat_batch_spec(xs, v)[i])[xs[i].len() as int] == v[i],
        forall|i: int|
            0 <= i < xs.len() ==> (#[trigger] cat_batch_spec(xs, v)[i]).take(xs[i].len() as int)
                == xs[i],
{
    assert forall|i: int| 0 <= i < xs.len() implies (#[trigger] cat_batch_spec(xs, v)[i]).take(
        xs[i].len() as int,
    ) == xs[i] by {
        assert(xs[i].push(v[i]).take(xs[i].len() as int) =~= xs[i]);
    }
}

/// Law: the full forward pass factors through the aligned concatenation.
/// Output row `i` is the outer network applied to row `i` of the batch
/// concatenated with row `i` of Stage A's output column.
pub proof fn lemma_forward_factors_through_concat(net: Net, xs: Seq<Seq<int>>)
    ensures
        forall|i: int|
            0 <= i < xs.len() ==> #[trigger] net_batch_spec(net, xs)[i] == out_spec(
                net,
                hidden_spec(net, cat_batch_spec(xs, a2v_batch_spec(net, xs))[i]),
            ),
{
}

} // verus!
