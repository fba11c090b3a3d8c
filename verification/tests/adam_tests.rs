use cartpole::adam::{AdamParams, AdamState};
use cartpole::error::TrainError;
use cartpole::fixed::SCALE;

fn default_params() -> AdamParams {
    AdamParams::default()
}

#[test]
fn default_params_are_valid() {
    let hp = default_params();
    assert!(hp.is_valid());
    assert_eq!(hp.alpha, 1000);
    assert_eq!(hp.beta1, 900_000);
    assert_eq!(hp.beta2, 999_000);
    assert_eq!(hp.eps, 100_000);
    assert_eq!(hp.weight_decay, 0);
}

#[test]
fn invalid_params_are_rejected() {
    let mut hp = default_params();
    hp.eps = 0;
    assert!(!hp.is_valid());
    hp = default_params();
    hp.beta1 = 999_999;
    assert!(!hp.is_valid());
}

#[test]
fn fresh_state_is_zeroed() {
    let st = AdamState::new(default_params(), 3);
    assert_eq!(st.step, 0);
    assert_eq!(st.first_moment, vec![0, 0, 0]);
    assert_eq!(st.second_moment, vec![0, 0, 0]);
    assert_eq!(st.beta1_pow, SCALE);
    assert_eq!(st.beta2_pow, SCALE);
}

#[test]
fn first_step_bias_correction_trace() {
    // One step from a fresh state with gradient -4.0. Because the moments
    // start at zero, the bias-corrected first moment equals the gradient
    // and the bias-corrected second moment equals its square, so the
    // parameter moves by alpha * g / (|g| + eps):
    // 0.001 * 4.0 / 4.1 == 0.000975..., truncated to 975 raw units.
    let mut st = AdamState::new(default_params(), 1);
    let mut param = vec![0i64];
    let grad = vec![-4_000_000i64];
    st.update(&mut param, &grad).unwrap();
    assert_eq!(st.step, 1);
    assert_eq!(st.beta1_pow, 900_000);
    assert_eq!(st.beta2_pow, 999_000);
    assert_eq!(st.first_moment, vec![-400_000]);
    assert_eq!(st.second_moment, vec![16_000]);
    assert_eq!(param, vec![975]);
}

#[test]
fn zero_gradient_decays_moment_geometrically() {
    // Starting from a first moment of 1.0, three zero-gradient steps
    // multiply it by beta1 each time: 0.9, 0.81, 0.729.
    let hp = default_params();
    let mut st = AdamState {
        hp,
        step: 0,
        first_moment: vec![1_000_000],
        second_moment: vec![0],
        beta1_pow: SCALE,
        beta2_pow: SCALE,
    };
    let mut param = vec![0i64];
    let grad = vec![0i64];
    st.update(&mut param, &grad).unwrap();
    assert_eq!(st.first_moment, vec![900_000]);
    // The moment has not vanished, so the parameter still moves.
    assert_eq!(param, vec![-90_000]);
    st.update(&mut param, &grad).unwrap();
    assert_eq!(st.first_moment, vec![810_000]);
    st.update(&mut param, &grad).unwrap();
    assert_eq!(st.first_moment, vec![729_000]);
}

#[test]
fn zero_gradient_zero_moment_leaves_param_unchanged() {
    let mut st = AdamState::new(default_params(), 1);
    let mut param = vec![123_456i64];
    let grad = vec![0i64];
    st.update(&mut param, &grad).unwrap();
    assert_eq!(param, vec![123_456]);
    assert_eq!(st.first_moment, vec![0]);
    assert_eq!(st.second_moment, vec![0]);
    assert_eq!(st.step, 1);
}

#[test]
fn weight_decay_feeds_param_into_gradient() {
    // weight_decay 0.5 on a parameter of 1.0 with zero raw gradient gives
    // an effective gradient of 0.5.
    let hp = AdamParams { weight_decay: 500_000, ..AdamParams::default() };
    let mut st = AdamState::new(hp, 1);
    let mut param = vec![1_000_000i64];
    let grad = vec![0i64];
    st.update(&mut param, &grad).unwrap();
    assert_eq!(st.first_moment, vec![50_000]);
    assert_eq!(st.second_moment, vec![250]);
    assert_eq!(param, vec![999_167]);
}

#[test]
fn shape_mismatch_grad_is_rejected_without_mutation() {
    let mut st = AdamState::new(default_params(), 2);
    let mut param = vec![1_000i64, 2_000];
    let grad = vec![5_000i64];
    let r = st.update(&mut param, &grad);
    assert_eq!(r, Err(TrainError::ShapeMismatch { expected: 2, found: 1 }));
    assert_eq!(param, vec![1_000, 2_000]);
    assert_eq!(st.step, 0);
    assert_eq!(st.first_moment, vec![0, 0]);
    assert_eq!(st.second_moment, vec![0, 0]);
}

#[test]
fn shape_mismatch_state_is_rejected_without_mutation() {
    let mut st = AdamState::new(default_params(), 1);
    let mut param = vec![1_000i64, 2_000];
    let grad = vec![5_000i64, 6_000];
    let r = st.update(&mut param, &grad);
    assert_eq!(r, Err(TrainError::ShapeMismatch { expected: 1, found: 2 }));
    assert_eq!(param, vec![1_000, 2_000]);
    assert_eq!(st.step, 0);
}

#[test]
fn update_advances_every_coordinate_independently() {
    let mut st = AdamState::new(default_params(), 2);
    let mut param = vec![0i64, 0];
    let grad = vec![-4_000_000i64, 0];
    st.update(&mut param, &grad).unwrap();
    // Coordinate zero follows the single-step trace; coordinate one has
    // zero gradient and zero moments, so it does not move.
    assert_eq!(param, vec![975, 0]);
    assert_eq!(st.first_moment, vec![-400_000, 0]);
    assert_eq!(st.second_moment, vec![16_000, 0]);
}
