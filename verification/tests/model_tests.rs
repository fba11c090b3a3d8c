use cartpole::model::{concat_columns, Act2Vel, Net};

fn sample_row() -> Vec<i64> {
    // [1.0, 2.0, 3.0, 4.0, 1.0]: observation features and an action of one.
    vec![1_000_000, 2_000_000, 3_000_000, 4_000_000, 1_000_000]
}

fn sample_a2v() -> Act2Vel {
    Act2Vel::new(1_000_000, 500_000, 250_000)
}

fn sample_net() -> Net {
    let bias = vec![100_000i64; 5];
    let mut i2h: Vec<Vec<i64>> = Vec::new();
    for j in 0..5usize {
        let mut row: Vec<i64> = Vec::new();
        for k in 0..6usize {
            row.push(if (j + k) % 2 == 0 { 100_000 } else { -100_000 });
        }
        i2h.push(row);
    }
    let mut h2o: Vec<Vec<i64>> = Vec::new();
    for j in 0..4usize {
        let mut row: Vec<i64> = Vec::new();
        for k in 0..5usize {
            row.push(if (j + k) % 3 == 0 { 200_000 } else { 50_000 });
        }
        h2o.push(row);
    }
    let net = Net::new(sample_a2v(), bias, i2h, h2o);
    assert!(net.is_well_formed());
    net
}

#[test]
fn act2vel_uses_velocity_and_action_columns() {
    // 1.0 * 2.0 + 0.5 * 1.0 + 0.25 == 2.75
    let m = sample_a2v();
    assert_eq!(m.forward_row(&sample_row()), 2_750_000);
}

#[test]
fn act2vel_batch_matches_rows() {
    let m = sample_a2v();
    let batch = vec![sample_row(), vec![0, 0, 0, 0, 0]];
    let out = m.forward(&batch);
    assert_eq!(out, vec![2_750_000, 250_000]);
}

#[test]
fn concat_keeps_rows_aligned() {
    // Row i of the concatenated batch is row i of the input with entry i
    // of the column appended.
    let batch = vec![sample_row(), vec![10, 20, 30, 40, 50]];
    let col = vec![2_750_000i64, -7];
    let cat = concat_columns(&batch, &col);
    assert_eq!(cat.len(), 2);
    assert_eq!(
        cat[0],
        vec![1_000_000, 2_000_000, 3_000_000, 4_000_000, 1_000_000, 2_750_000]
    );
    assert_eq!(cat[1], vec![10, 20, 30, 40, 50, -7]);
}

#[test]
fn net_forward_exact_values() {
    let net = sample_net();
    let out = net.forward(&vec![sample_row()]);
    assert_eq!(out.len(), 1);
    assert_eq!(out[0], vec![36_250, -35_000, 36_250, 36_250]);
}

#[test]
fn net_forward_is_deterministic() {
    // Fixed weights, fixed input: repeated calls return identical output.
    let net = sample_net();
    let batch = vec![sample_row(), vec![-1_000_000, 0, 500_000, 0, 0]];
    let a = net.forward(&batch);
    let b = net.forward(&batch);
    assert_eq!(a, b);
}

#[test]
fn net_forward_batch_shape() {
    let net = sample_net();
    let batch = vec![sample_row(), sample_row(), vec![0, 0, 0, 0, 0]];
    let out = net.forward(&batch);
    assert_eq!(out.len(), 3);
    for row in &out {
        assert_eq!(row.len(), 4);
    }
    assert_eq!(out[0], out[1]);
}
