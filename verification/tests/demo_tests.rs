use cartpole::adam::{AdamParams, AdamState};
use cartpole::fixed::fx_mul_exec;
use cartpole::train::{minimize_quadratic, FitStatus};

/// Runs the optimizer on `loss(x) = (target - x)^2` step by step,
/// recording the loss after each step, until the loss falls below the
/// threshold.
fn drive_quadratic(target: i64, threshold: i64, max_steps: u64) -> (u64, i64, Vec<i64>) {
    let hp = AdamParams::default();
    let mut st = AdamState::new(hp, 1);
    let mut theta = vec![0i64];
    let mut losses: Vec<i64> = Vec::new();
    let mut steps: u64 = 0;
    while steps < max_steps {
        let g = 2 * (theta[0] - target);
        let grad = vec![g];
        st.update(&mut theta, &grad).unwrap();
        steps += 1;
        let d = target - theta[0];
        let loss = fx_mul_exec(d, d);
        losses.push(loss);
        if loss < threshold {
            return (steps, theta[0], losses);
        }
    }
    panic!("no convergence within the step budget");
}

#[test]
fn quadratic_demo_scenario_converges_within_bound() {
    // loss(x) = (2 - x)^2, x0 = 0, alpha 0.001, beta 0.9 / 0.999,
    // eps 0.1, threshold 0.01: the loop must stop with the loss below the
    // threshold in at most 20000 steps.
    let hp = AdamParams::default();
    let r = minimize_quadratic(&hp, 2_000_000, 10_000, 20_000);
    assert_eq!(r.status, FitStatus::Converged);
    assert!(r.steps <= 20_000);
    let d = 2_000_000 - r.theta;
    assert!(fx_mul_exec(d, d) < 10_000);
}

#[test]
fn quadratic_losses_decrease_monotonically_for_many_targets() {
    // Across targets in [-10, 10] the recorded losses never increase on
    // the way down to the threshold.
    for target in [-10_000_000i64, -3_000_000, 500_000, 2_000_000, 10_000_000] {
        let (steps, _theta, losses) = drive_quadratic(target, 10_000, 20_000);
        assert!(steps <= 20_000);
        for w in losses.windows(2) {
            assert!(w[1] <= w[0], "loss rose for target {}", target);
        }
        assert!(*losses.last().unwrap() < 10_000);
    }
}

#[test]
fn quadratic_demo_matches_stepwise_drive() {
    let hp = AdamParams::default();
    let r = minimize_quadratic(&hp, 2_000_000, 10_000, 20_000);
    let (steps, theta, _losses) = drive_quadratic(2_000_000, 10_000, 20_000);
    assert_eq!(r.steps, steps);
    assert_eq!(r.theta, theta);
}

#[test]
fn quadratic_demo_reports_nonconvergence() {
    // Five steps cannot reach the threshold from zero.
    let hp = AdamParams::default();
    let r = minimize_quadratic(&hp, 2_000_000, 10_000, 5);
    assert_eq!(r.status, FitStatus::NonConvergence);
    assert_eq!(r.steps, 5);
    let d = 2_000_000 - r.theta;
    assert!(fx_mul_exec(d, d) >= 10_000);
}

#[test]
fn quadratic_demo_zero_budget_returns_start() {
    let hp = AdamParams::default();
    let r = minimize_quadratic(&hp, 2_000_000, 10_000, 0);
    assert_eq!(r.status, FitStatus::NonConvergence);
    assert_eq!(r.steps, 0);
    assert_eq!(r.theta, 0);
}

#[test]
fn quadratic_demo_abandons_runaway_run() {
    // A learning rate of one with almost no damping makes the step size
    // explode once the second moment underflows to zero, and the
    // parameter leaves the guarded range.
    let hp = AdamParams { alpha: 1_000_000, eps: 1, ..AdamParams::default() };
    assert!(hp.is_valid());
    let r = minimize_quadratic(&hp, 100_000_000, 0, 20_000);
    assert_eq!(r.status, FitStatus::OutOfRange);
    assert!(r.theta > 100_000_000 || r.theta < -100_000_000);
}
