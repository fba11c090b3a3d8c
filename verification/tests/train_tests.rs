use cartpole::error::TrainError;
use cartpole::train::{
    build_training_pairs, epoch_decision, sum_squared_error, Observation, Session, TrainDecision,
};

fn obs(a: i64, b: i64, c: i64, d: i64) -> Observation {
    Observation { cart_pos: a, cart_vel: b, pole_angle: c, pole_ang_vel: d }
}

#[test]
fn one_session_one_transition() {
    let sessions = vec![Session {
        actions: vec![0, 1],
        observations: vec![
            obs(1_000_000, 2_000_000, 3_000_000, 4_000_000),
            obs(5_000_000, 6_000_000, 7_000_000, 8_000_000),
        ],
    }];
    let (ins, outs) = build_training_pairs(&sessions).unwrap();
    assert_eq!(ins, vec![vec![1_000_000, 2_000_000, 3_000_000, 4_000_000, 1_000_000]]);
    assert_eq!(outs, vec![vec![5_000_000, 6_000_000, 7_000_000, 8_000_000]]);
}

#[test]
fn sessions_are_paired_in_order() {
    let sessions = vec![
        Session {
            actions: vec![1, 0, 1],
            observations: vec![obs(1, 2, 3, 4), obs(5, 6, 7, 8), obs(9, 10, 11, 12)],
        },
        Session { actions: vec![0, 0], observations: vec![obs(13, 14, 15, 16), obs(17, 18, 19, 20)] },
    ];
    let (ins, outs) = build_training_pairs(&sessions).unwrap();
    assert_eq!(
        ins,
        vec![
            vec![1, 2, 3, 4, 0],
            vec![5, 6, 7, 8, 1_000_000],
            vec![13, 14, 15, 16, 0],
        ]
    );
    assert_eq!(outs, vec![vec![5, 6, 7, 8], vec![9, 10, 11, 12], vec![17, 18, 19, 20]]);
}

#[test]
fn empty_and_single_action_sessions_yield_nothing() {
    let sessions = vec![
        Session { actions: vec![], observations: vec![] },
        Session { actions: vec![1], observations: vec![obs(1, 2, 3, 4)] },
    ];
    let (ins, outs) = build_training_pairs(&sessions).unwrap();
    assert!(ins.is_empty());
    assert!(outs.is_empty());
}

#[test]
fn short_session_is_reported_as_data_format_error() {
    let sessions = vec![Session {
        actions: vec![0, 1, 0],
        observations: vec![obs(1, 2, 3, 4), obs(5, 6, 7, 8)],
    }];
    let r = build_training_pairs(&sessions);
    assert_eq!(r.unwrap_err(), TrainError::DataFormat { session_index: 0 });
}

#[test]
fn first_bad_session_is_the_one_reported() {
    let sessions = vec![
        Session { actions: vec![0, 1], observations: vec![obs(1, 2, 3, 4), obs(5, 6, 7, 8)] },
        Session { actions: vec![0, 1], observations: vec![obs(1, 2, 3, 4)] },
    ];
    let r = build_training_pairs(&sessions);
    assert_eq!(r.unwrap_err(), TrainError::DataFormat { session_index: 1 });
}

#[test]
fn sum_squared_error_exact_value() {
    // Differences per entry: 0, 1, 3, -2; squares sum to 14.
    let pred = vec![vec![1_000_000i64, 2_000_000], vec![3_000_000, 4_000_000]];
    let target = vec![vec![1_000_000i64, 1_000_000], vec![0, 6_000_000]];
    assert_eq!(sum_squared_error(&pred, &target), 14_000_000);
}

#[test]
fn sum_squared_error_zero_for_equal_batches() {
    let pred = vec![vec![123i64, -456, 789]];
    assert_eq!(sum_squared_error(&pred, &pred), 0);
}

#[test]
fn epoch_decision_prefers_convergence() {
    assert_eq!(epoch_decision(1, 2022, 50_000, 100_000), TrainDecision::Converged);
    assert_eq!(epoch_decision(2022, 2022, 50_000, 100_000), TrainDecision::Converged);
}

#[test]
fn epoch_decision_continues_below_budget() {
    assert_eq!(epoch_decision(1, 2022, 500_000, 100_000), TrainDecision::Continue);
}

#[test]
fn epoch_decision_stops_at_budget() {
    assert_eq!(epoch_decision(2022, 2022, 500_000, 100_000), TrainDecision::BudgetExhausted);
}
