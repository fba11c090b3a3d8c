//! Training-side logic: pairing recorded cart-pole sessions into training
//! rows, the sum-of-squares loss, the epoch stopping rule, and the
//! quadratic demonstration of the optimizer.
//!
//! Gradients for the network come from an outside differentiation
//! facility and are consumed, never derived, by the optimizer; only the
//! quadratic demonstration, whose gradient is the textbook derivative,
//! closes the whole loop inside the proved world.

use crate::adam::{
    effective_grad, new_first_moment, new_param, new_second_moment, AdamParams, AdamState,
    GRAD_LIMIT, PARAM_LIMIT,
};
use crate::adam::{lemma_mul_bounds};
use crate::error::TrainError;
use crate::fixed::{fx_mul, fx_mul_exec, SCALE};
use crate::fixed::{lemma_tdiv_bounds};
use crate::model::int_seq;
use vstd::prelude::*;

verus! {

/// One recorded cart-pole observation, in fixed-point units.
#[derive(Clone, Copy, Debug, PartialEq, Eq, Structural)]
pub struct Observation {
    /// Cart position.
    pub cart_pos: i64,
    /// Cart velocity.
    pub cart_vel: i64,
    /// Pole angle.
    pub pole_angle: i64,
    /// Pole angular velocity.
    pub pole_ang_vel: i64,
}

/// One recorded session: a run of discrete actions with the observation
/// seen before each of them.
#[derive(Clone, Debug)]
pub struct Session {
    /// Discrete actions, small integers such as zero and one.
    pub actions: Vec<u8>,
    /// The observations, at least as many as there are actions.
    pub observations: Vec<Observation>,
}

/// A batch of raw rows read as sequences of mathematical integers.
pub open spec fn int_rows(v: Seq<Vec<i64>>) -> Seq<Seq<int>> {
    Seq::new(v.len(), |i: int| int_seq(v[i]@))
}

/// A session can be paired up when it holds at least one observation per
/// action.
pub open spec fn session_ok(s: Session) -> bool {
    s.observations@.len() >= s.actions@.len()
}

/// How many transition pairs a session yields: one fewer than its actions.
pub open spec fn pair_count(s: Session) -> nat {
    if s.actions@.len() == 0 {
        0
    } else {
        (s.actions@.len() - 1) as nat
    }
}

/// The five-feature input row for transition `k` of a session: the four
/// observation features seen before action `k`, then the action itself
/// scaled to fixed point.
pub open spec fn input_row_spec(s: Session, k: int) -> Seq<int> {
    seq![
        s.observations@[k - 1].cart_pos as int,
        s.observations@[k - 1].cart_vel as int,
        s.observations@[k - 1].pole_angle as int,
        s.observations@[k - 1].pole_ang_vel as int,
        (s.actions@[k] as int) * (SCALE as int),
    ]
}

/// The four-feature target row for transition `k`: the observation that
/// followed.
pub open spec fn target_row_spec(s: Session, k: int) -> Seq<int> {
    seq![
        s.observations@[k].cart_pos as int,
        s.observations@[k].cart_vel as int,
        s.observations@[k].pole_angle as int,
        s.observations@[k].pole_ang_vel as int,
    ]
}

/// All input rows of one session, in transition order.
pub open spec fn session_input_rows(s: Session) -> Seq<Seq<int>> {
    Seq::new(pair_count(s), |k: int| input_row_spec(s, k + 1))
}

/// All target rows of one session, in transition order.
pub open spec fn session_target_rows(s: Session) -> Seq<Seq<int>> {
    Seq::new(pair_count(s), |k: int| target_row_spec(s, k + 1))
}

/// All input rows of a run of sessions, session by session.
pub open spec fn all_input_rows(ss: Seq<Session>) -> Seq<Seq<int>>
    decreases ss.len(),
{
    if ss.len() == 0 {
        Seq::empty()
    } else {
        all_input_rows(ss.drop_last()) + session_input_rows(ss.last())
    }
}

/// All target rows of a run of sessions, session by session.
pub open spec fn all_target_rows(ss: Seq<Session>) -> Seq<Seq<int>>
    decreases ss.len(),
{
    if ss.len() == 0 {
        Seq::empty()
    } else {
        all_target_rows(ss.drop_last()) + session_target_rows(ss.last())
    }
}

/// Pairs every recorded transition into an input row and a target row.
///
/// A session whose observations run out before its actions cannot be
/// paired: the first such session is reported as `DataFormat` and nothing
/// is returned.
pub fn build_training_pairs(sessions: &Vec<Session>) -> (r: Result<
    (Vec<Vec<i64>>, Vec<Vec<i64>>),
    TrainError,
>)
    ensures
        r is Err <==> exists|i: int|
            0 <= i < sessions@.len() && !session_ok(#[trigger] sessions@[i]),
        r matches Err(e) ==> exists|i: int|
            {
                &&& 0 <= i < sessions@.len()
                &&& !session_ok(#[trigger] sessions@[i])
                &&& e == (TrainError::DataFormat { session_index: i as usize })
                &&& forall|j: int| 0 <= j < i ==> session_ok(#[trigger] sessions@[j])
            },
        r matches Ok(p) ==> int_rows(p.0@) == all_input_rows(sessions@) && int_rows(p.1@)
            == all_target_rows(sessions@),
{
    let mut ins: Vec<Vec<i64>> = Vec::new();
    let mut outs: Vec<Vec<i64>> = Vec::new();
    let mut si: usize = 0;
    while si < sessions.len()
        invariant
            si <= sessions@.len(),
            forall|j: int| 0 <= j < si ==> session_ok(#[trigger] sessions@[j]),
            int_rows(ins@) == all_input_rows(sessions@.take(si as int)),
            int_rows(outs@) == all_target_rows(sessions@.take(si as int)),
        decreases sessions@.len() - si,
    {
        let s: &Session = &sessions[si];
        let alen: usize = s.actions.len();
        if s.observations.len() < alen {
            return Err(TrainError::DataFormat { session_index: si });
        }
        let ghost prefix_ins = all_input_rows(sessions@.take(si as int));
        let ghost prefix_outs = all_target_rows(sessions@.take(si as int));
        let mut k: usize = 1;
        while k < alen
            invariant
                1 <= k,
                alen >= 1 ==> k <= alen,
                alen == 0 ==> k == 1,
                alen == s.actions@.len(),
                s.observations@.len() >= alen,
                *s == sessions@[si as int],
                si < sessions@.len(),
                int_rows(ins@) == prefix_ins + session_input_rows(*s).take(k - 1),
                int_rows(outs@) == prefix_outs + session_target_rows(*s).take(k - 1),
            decreases alen - k,
        {
            let obs_prev: &Observation = &s.observations[k - 1];
            let mut row: Vec<i64> = Vec::new();
            row.push(obs_prev.cart_pos);
            row.push(obs_prev.cart_vel);
            row.push(obs_prev.pole_angle);
            row.push(obs_prev.pole_ang_vel);
            let a: i64 = s.actions[k] as i64;
            row.push(a * SCALE);
            let obs_cur: &Observation = &s.observations[k];
            let mut trow: Vec<i64> = Vec::new();
            trow.push(obs_cur.cart_pos);
            trow.push(obs_cur.cart_vel);
            trow.push(obs_cur.pole_angle);
            trow.push(obs_cur.pole_ang_vel);
            proof {
                assert(int_seq(row@) =~= input_row_spec(*s, k as int));
                assert(int_seq(trow@) =~= target_row_spec(*s, k as int));
                assert(session_input_rows(*s).take(k as int) =~= session_input_rows(*s).take(
                    k - 1,
                ).push(input_row_spec(*s, k as int)));
                assert(session_target_rows(*s).take(k as int) =~= session_target_rows(*s).take(
                    k - 1,
                ).push(target_row_spec(*s, k as int)));
                assert(int_rows(ins@.push(row)) =~= int_rows(ins@).push(int_seq(row@)));
                assert(int_rows(outs@.push(trow)) =~= int_rows(outs@).push(int_seq(trow@)));
                assert(prefix_ins + session_input_rows(*s).take(k - 1).push(
                    input_row_spec(*s, k as int),
                ) =~= (prefix_ins + session_input_rows(*s).take(k - 1)).push(
                    input_row_spec(*s, k as int),
                ));
                assert(prefix_outs + session_target_rows(*s).take(k - 1).push(
                    target_row_spec(*s, k as int),
                ) =~= (prefix_outs + session_target_rows(*s).take(k - 1)).push(
                    target_row_spec(*s, k as int),
                ));
            }
            ins.push(row);
            outs.push(trow);
            k = k + 1;
        }
        proof {
            assert(session_input_rows(*s).take(pair_count(*s) as int) =~= session_input_rows(*s));
            assert(session_target_rows(*s).take(pair_count(*s) as int) =~= session_target_rows(
                *s,
            ));
            if alen >= 1 {
                assert(k - 1 == pair_count(*s));
            } else {
                assert(k - 1 == 0 && pair_count(*s) == 0);
                assert(session_input_rows(*s).take(0) =~= session_input_rows(*s));
            }
            assert(sessions@.take(si + 1).drop_last() =~= sessions@.take(si as int));
            assert(sessions@.take(si + 1).last() == sessions@[si as int]);
            assert(all_input_rows(sessions@.take(si + 1)) == all_input_rows(
                sessions@.take(si as int),
            ) + session_input_rows(sessions@[si as int]));
            assert(all_target_rows(sessions@.take(si + 1)) == all_target_rows(
                sessions@.take(si as int),
            ) + session_target_rows(sessions@[si as int]));
        }
        si = si + 1;
    }
    proof {
        assert(sessions@.take(sessions@.len() as int) =~= sessions@);
    }
    Ok((ins, outs))
}

/// Sum of squared differences over the last entries of two equally long
/// rows.
pub open spec fn row_sse(p: Seq<int>, t: Seq<int>) -> int
    decreases p.len(),
{
    if p.len() == 0 {
        0
    } else {
        row_sse(p.drop_last(), t.drop_last()) + fx_mul(p.last() - t.last(), p.last() - t.last())
    }
}

/// Sum-of-squares loss over a whole batch: the total squared error, not
/// averaged.
pub open spec fn sse_spec(p: Seq<Seq<int>>, t: Seq<Seq<int>>) -> int
    decreases p.len(),
{
    if p.len() == 0 {
        0
    } else {
        sse_spec(p.drop_last(), t.drop_last()) + row_sse(p.last(), t.last())
    }
}

/// Largest entry magnitude accepted by the loss: one thousand.
pub const SSE_ENTRY_LIMIT: i64 = 1_000_000_000;

/// Largest batch accepted by the loss.
pub const SSE_ROW_LIMIT: usize = 100_000;

/// The sum-of-squares loss between predictions and targets of equal shape.
pub fn sum_squared_error(pred: &Vec<Vec<i64>>, target: &Vec<Vec<i64>>) -> (r: i64)
    requires
        pred@.len() == target@.len(),
        pred@.len() <= SSE_ROW_LIMIT,
        forall|i: int|
            0 <= i < pred@.len() ==> #[trigger] pred@[i]@.len() == target@[i]@.len()
                && pred@[i]@.len() <= 5,
        forall|i: int, j: int|
            0 <= i < pred@.len() && 0 <= j < pred@[i]@.len() ==> -SSE_ENTRY_LIMIT
                <= #[trigger] pred@[i]@[j] <= SSE_ENTRY_LIMIT,
        forall|i: int, j: int|
            0 <= i < target@.len() && 0 <= j < target@[i]@.len() ==> -SSE_ENTRY_LIMIT
                <= #[trigger] target@[i]@[j] <= SSE_ENTRY_LIMIT,
    ensures
        r == sse_spec(int_rows(pred@), int_rows(target@)),
        0 <= r,
{
    let n: usize = pred.len();
    let mut acc: i64 = 0;
    let mut i: usize = 0;
    while i < n
        invariant
            i <= n,
            n == pred@.len(),
            n == target@.len(),
            n <= SSE_ROW_LIMIT,
            forall|t: int|
                0 <= t < pred@.len() ==> #[trigger] pred@[t]@.len() == target@[t]@.len()
                    && pred@[t]@.len() <= 5,
            forall|t: int, j: int|
                0 <= t < pred@.len() && 0 <= j < pred@[t]@.len() ==> -SSE_ENTRY_LIMIT
                    <= #[trigger] pred@[t]@[j] <= SSE_ENTRY_LIMIT,
            forall|t: int, j: int|
                0 <= t < target@.len() && 0 <= j < target@[t]@.len() ==> -SSE_ENTRY_LIMIT
                    <= #[trigger] target@[t]@[j] <= SSE_ENTRY_LIMIT,
            acc == sse_spec(int_rows(pred@).take(i as int), int_rows(target@).take(i as int)),
            0 <= acc <= 20_000_000_000_000 * (i as int),
        decreases n - i,
    {
        let prow: &Vec<i64> = &pred[i];
        let trow: &Vec<i64> = &target[i];
        let m: usize = prow.len();
        let mut racc: i64 = 0;
        let mut j: usize = 0;
        while j < m
            invariant
                j <= m,
                i < pred@.len(),
                prow@ == pred@[i as int]@,
                trow@ == target@[i as int]@,
                m == prow@.len(),
                m == trow@.len(),
                m <= 5,
                forall|u: int|
                    0 <= u < prow@.len() ==> -SSE_ENTRY_LIMIT <= #[trigger] prow@[u]
                        <= SSE_ENTRY_LIMIT,
                forall|u: int|
                    0 <= u < trow@.len() ==> -SSE_ENTRY_LIMIT <= #[trigger] trow@[u]
                        <= SSE_ENTRY_LIMIT,
                racc == row_sse(int_seq(prow@).take(j as int), int_seq(trow@).take(j as int)),
                0 <= racc <= 4_000_000_000_000 * (j as int),
            decreases m - j,
        {
            let d: i64 = prow[j] - trow[j];
            proof {
                lemma_mul_bounds(d as int, d as int, 2_000_000_000, 2_000_000_000);
                assert(0 <= (d as int) * (d as int)) by (nonlinear_arith);
                lemma_tdiv_bounds(
                    (d as int) * (d as int),
                    SCALE as int,
                    4_000_000_000_000_000_000,
                );
            }
            let term: i64 = fx_mul_exec(d, d);
            proof {
                let pi = int_seq(prow@);
                let ti = int_seq(trow@);
                assert(pi.take(j + 1).drop_last() =~= pi.take(j as int));
                assert(ti.take(j + 1).drop_last() =~= ti.take(j as int));
                assert(pi.take(j + 1).last() == prow@[j as int] as int);
                assert(ti.take(j + 1).last() == trow@[j as int] as int);
            }
            racc = racc + term;
            j = j + 1;
        }
        proof {
            let pi = int_seq(prow@);
            let ti = int_seq(trow@);
            assert(pi.take(m as int) =~= pi);
            assert(ti.take(m as int) =~= ti);
            let pr = int_rows(pred@);
            let tr = int_rows(target@);
            assert(pr.take(i + 1).drop_last() =~= pr.take(i as int));
            assert(tr.take(i + 1).drop_last() =~= tr.take(i as int));
            assert(pr.take(i + 1).last() == int_seq(pred@[i as int]@));
            assert(tr.take(i + 1).last() == int_seq(target@[i as int]@));
        }
        acc = acc + racc;
        i = i + 1;
    }
    proof {
        assert(int_rows(pred@).take(n as int) =~= int_rows(pred@));
        assert(int_rows(target@).take(n as int) =~= int_rows(target@));
    }
    acc
}

/// What the training loop should do after one epoch.
#[derive(Clone, Copy, Debug, PartialEq, Eq, Structural)]
pub enum TrainDecision {
    /// The loss is still at or above the threshold and epochs remain.
    Continue,
    /// The loss fell below the threshold: stop early.
    Converged,
    /// The epoch budget is spent without convergence; the model trained so
    /// far is still usable, so this is reported, not fatal.
    BudgetExhausted,
}

/// The stopping rule of the training loop: stop early once the loss falls
/// below the threshold, give up once the epoch budget is spent.
pub fn epoch_decision(epoch: u64, max_epochs: u64, loss: i64, threshold: i64) -> (d: TrainDecision)
    ensures
        d == (if loss < threshold {
            TrainDecision::Converged
        } else if epoch >= max_epochs {
            TrainDecision::BudgetExhausted
        } else {
            TrainDecision::Continue
        }),
{
    if loss < threshold {
        TrainDecision::Converged
    } else if epoch >= max_epochs {
        TrainDecision::BudgetExhausted
    } else {
        TrainDecision::Continue
    }
}

/// Largest quadratic target accepted by the demonstration: one hundred.
pub const TARGET_LIMIT: i64 = 100_000_000;

/// The demonstration abandons a run whose parameter leaves this range.
pub const THETA_GUARD: i64 = 100_000_000;

/// Gradient of the quadratic loss `(target - theta)^2` at `theta`.
pub open spec fn quad_grad(target: int, theta: int) -> int {
    2 * (theta - target)
}

/// The quadratic loss `(target - theta)^2` as a fixed-point product.
pub open spec fn quad_loss(target: int, theta: int) -> int {
    fx_mul(target - theta, target - theta)
}

/// The optimizer's scalar state during the demonstration: parameter, first
/// moment, second moment, and the two decay powers.
pub open spec fn quad_start() -> (int, int, int, int, int) {
    (0, 0, 0, SCALE as int, SCALE as int)
}

/// One whole demonstration step: the analytic gradient is fed through the
/// Adam recurrence.
pub open spec fn quad_next(hp: AdamParams, target: int, s: (int, int, int, int, int)) -> (
    int,
    int,
    int,
    int,
    int,
) {
    let g = effective_grad(hp, s.0, quad_grad(target, s.0));
    let b1n = fx_mul(hp.beta1 as int, s.3);
    let b2n = fx_mul(hp.beta2 as int, s.4);
    (
        new_param(hp, s.0, s.1, s.2, g, b1n, b2n),
        new_first_moment(hp, s.1, g),
        new_second_moment(hp, s.2, g),
        b1n,
        b2n,
    )
}

/// The demonstration's state after `n` steps from a parameter of zero.
pub open spec fn quad_iter(hp: AdamParams, target: int, n: nat) -> (int, int, int, int, int)
    decreases n,
{
    if n == 0 {
        quad_start()
    } else {
        quad_next(hp, target, quad_iter(hp, target, (n - 1) as nat))
    }
}

/// How a demonstration run ended.
#[derive(Clone, Copy, Debug, PartialEq, Eq, Structural)]
pub enum FitStatus {
    /// The loss fell below the threshold.
    Converged,
    /// The step budget was spent with the loss still at or above the
    /// threshold. Reported, not fatal: the final parameter is returned.
    NonConvergence,
    /// The parameter left the guarded range; the run was abandoned.
    OutOfRange,
}

/// The outcome of a demonstration run: the final parameter, the number of
/// optimizer steps taken, and how the run ended.
#[derive(Clone, Copy, Debug, PartialEq, Eq, Structural)]
pub struct FitResult {
    /// The parameter after the last step taken.
    pub theta: i64,
    /// The number of update steps taken.
    pub steps: u64,
    /// How the run ended.
    pub status: FitStatus,
}

/// Fits a scalar parameter to `loss(x) = (target - x)^2` with Adam,
/// starting from zero, stopping as soon as the loss falls below
/// `threshold` and in any case after `max_steps` steps.
///
/// The result is pinned completely: the returned parameter is exactly the
/// `r.steps`-fold iterate of the specified recurrence, no earlier iterate
/// was already below the threshold, and the status says exactly how the
/// run ended.
pub fn minimize_quadratic(hp: &AdamParams, target: i64, threshold: i64, max_steps: u64) -> (r:
    FitResult)
    requires
        hp.valid(),
        -TARGET_LIMIT <= target <= TARGET_LIMIT,
        max_steps < u64::MAX,
    ensures
        r.steps <= max_steps,
        r.theta == quad_iter(*hp, target as int, r.steps as nat).0,
        forall|k: nat|
            1 <= k < r.steps ==> quad_loss(
                target as int,
                (#[trigger] quad_iter(*hp, target as int, k)).0,
            ) >= threshold,
        forall|k: nat|
            1 <= k < r.steps ==> -THETA_GUARD <= (#[trigger] quad_iter(*hp, target as int, k)).0
                <= THETA_GUARD,
        r.status == FitStatus::Converged ==> 1 <= r.steps && quad_loss(
            target as int,
            r.theta as int,
        ) < threshold && -THETA_GUARD <= r.theta <= THETA_GUARD,
        r.status == FitStatus::NonConvergence ==> r.steps == max_steps && (r.steps >= 1
            ==> quad_loss(target as int, r.theta as int) >= threshold) && -THETA_GUARD <= r.theta
            <= THETA_GUARD,
        r.status == FitStatus::OutOfRange ==> 1 <= r.steps && !(-THETA_GUARD <= r.theta
            <= THETA_GUARD),
{
    let hpv: AdamParams = *hp;
    let mut st: AdamState = AdamState::new(hpv, 1);
    let mut theta: Vec<i64> = Vec::new();
    theta.push(0);
    let mut grad: Vec<i64> = Vec::new();
    grad.push(0);
    let mut i: u64 = 0;
    while i < max_steps
        invariant
            hp.valid(),
            hpv == *hp,
            -TARGET_LIMIT <= target <= TARGET_LIMIT,
            max_steps < u64::MAX,
            i <= max_steps,
            st.wf(),
            st.hp == hpv,
            st.step == i,
            st.first_moment@.len() == 1,
            st.second_moment@.len() == 1,
            theta@.len() == 1,
            grad@.len() == 1,
            theta@[0] == quad_iter(hpv, target as int, i as nat).0,
            st.first_moment@[0] == quad_iter(hpv, target as int, i as nat).1,
            st.second_moment@[0] == quad_iter(hpv, target as int, i as nat).2,
            st.beta1_pow == quad_iter(hpv, target as int, i as nat).3,
            st.beta2_pow == quad_iter(hpv, target as int, i as nat).4,
            -THETA_GUARD <= theta@[0] <= THETA_GUARD,
            forall|k: nat|
                1 <= k <= i as nat ==> quad_loss(
                    target as int,
                    (#[trigger] quad_iter(hpv, target as int, k)).0,
                ) >= threshold,
            forall|k: nat|
                1 <= k <= i as nat ==> -THETA_GUARD <= (#[trigger] quad_iter(
                    hpv,
                    target as int,
                    k,
                )).0 <= THETA_GUARD,
        decreases max_steps - i,
    {
        let th: i64 = theta[0];
        let d: i64 = th - target;
        let g: i64 = 2 * d;
        grad[0] = g;
        proof {
            assert(g == quad_grad(target as int, theta@[0] as int));
            assert(-GRAD_LIMIT <= g <= GRAD_LIMIT);
            assert(forall|ix: int|
                0 <= ix < theta@.len() ==> -PARAM_LIMIT <= #[trigger] theta@[ix] <= PARAM_LIMIT);
            assert(forall|ix: int|
                0 <= ix < grad@.len() ==> -GRAD_LIMIT <= #[trigger] grad@[ix] <= GRAD_LIMIT);
        }
        let ghost pre = quad_iter(hpv, target as int, i as nat);
        let _ok: Result<(), TrainError> = st.update(&mut theta, &grad);
        proof {
            let post = quad_iter(hpv, target as int, (i + 1) as nat);
            assert((((i + 1) as nat) - 1) as nat == i as nat);
            assert(post == quad_next(hpv, target as int, pre));
            assert(theta@[0] == post.0);
            assert(st.first_moment@[0] == post.1);
            assert(st.second_moment@[0] == post.2);
            assert(st.beta1_pow == post.3);
            assert(st.beta2_pow == post.4);
        }
        let th1: i64 = theta[0];
        if th1 > THETA_GUARD || th1 < -THETA_GUARD {
            return FitResult { theta: th1, steps: i + 1, status: FitStatus::OutOfRange };
        }
        let dd: i64 = target - th1;
        proof {
            lemma_mul_bounds(dd as int, dd as int, 200_000_000, 200_000_000);
            lemma_tdiv_bounds(
                (dd as int) * (dd as int),
                SCALE as int,
                40_000_000_000_000_000,
            );
        }
        let loss: i64 = fx_mul_exec(dd, dd);
        proof {
            assert(loss == quad_loss(target as int, th1 as int));
        }
        if loss < threshold {
            return FitResult { theta: th1, steps: i + 1, status: FitStatus::Converged };
        }
        proof {
            assert forall|k: nat| 1 <= k <= (i + 1) as nat implies quad_loss(
                target as int,
                (#[trigger] quad_iter(hpv, target as int, k)).0,
            ) >= threshold by {
                if k == (i + 1) as nat {
                    assert(quad_iter(hpv, target as int, k).0 == th1 as int);
                }
            }
            assert forall|k: nat| 1 <= k <= (i + 1) as nat implies -THETA_GUARD <= (
            #[trigger] quad_iter(hpv, target as int, k)).0 <= THETA_GUARD by {
                if k == (i + 1) as nat {
                    assert(quad_iter(hpv, target as int, k).0 == th1 as int);
                }
            }
        }
        i = i + 1;
    }
    let thf: i64 = theta[0];
    FitResult { theta: thf, steps: max_steps, status: FitStatus::NonConvergence }
}

} // verus!
