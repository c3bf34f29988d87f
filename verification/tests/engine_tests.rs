use rand::rngs::StdRng;
use rand::SeedableRng;
use signed_cuts::cut::Cut;
use signed_cuts::engine::SignedCutEngine;
use signed_cuts::error::ConfigError;
use signed_cuts::finder::DEFAULT_ROUND_CAP;
use signed_cuts::generator::Generator;
use signed_cuts::matrix::Matrix;

fn seeded(seed: u64) -> Generator {
    Generator::new(StdRng::seed_from_u64(seed))
}

/// A matrix of `rows` by `cols` with entries between -1000 and 1000.
fn scattered(rows: usize, cols: usize, salt: u64) -> Matrix {
    let mut state = salt.wrapping_mul(6364136223846793005).wrapping_add(1442695040888963407);
    let mut data = Vec::new();
    for _ in 0..rows {
        let mut row = Vec::new();
        for _ in 0..cols {
            state = state.wrapping_mul(6364136223846793005).wrapping_add(1442695040888963407);
            row.push(((state >> 33) % 2001) as i64 - 1000);
        }
        data.push(row);
    }
    Matrix::from_rows(data).unwrap()
}

fn sum_of_cuts(cuts: &[Cut], rows: usize, cols: usize) -> Vec<Vec<i64>> {
    let mut out = vec![vec![0i64; cols]; rows];
    for c in cuts {
        for i in 0..rows {
            for j in 0..cols {
                out[i][j] += c.weight * (c.u[i] as i64) * (c.v[j] as i64);
            }
        }
    }
    out
}

fn difference(a: &Matrix, b: &Matrix) -> Vec<Vec<i64>> {
    let mut out = Vec::new();
    for i in 0..a.rows() {
        let mut row = Vec::new();
        for j in 0..a.cols() {
            row.push(a.get(i, j) - b.get(i, j));
        }
        out.push(row);
    }
    out
}

#[test]
fn constant_matrix_is_one_cut() {
    let target = Matrix::filled(4, 4, 100);
    let mut engine = SignedCutEngine::create(&target, 2, 1).unwrap();
    let mut gen = seeded(0);
    let (cut, norm) = engine.discover_next(&mut gen);
    assert_eq!(cut.u, vec![1i8, 1, 1, 1]);
    assert_eq!(cut.v, vec![1i8, 1, 1, 1]);
    assert_eq!(cut.weight, 100);
    assert_eq!(norm, 0);
    assert_eq!(engine.residual().to_rows(), vec![vec![0i64; 4]; 4]);
    assert_eq!(engine.residual_norm(), 0);
    assert_eq!(engine.reconstruct().to_rows(), target.to_rows());
}

#[test]
fn constant_matrix_for_many_seeds() {
    for seed in 0..50u64 {
        let target = Matrix::filled(4, 4, 100);
        let mut engine = SignedCutEngine::create(&target, 2, 1).unwrap();
        let mut gen = seeded(seed);
        let (cut, norm) = engine.discover_next(&mut gen);
        // the two vectors are constant and equal, so their outer product is all +1
        assert!(cut.u == vec![1i8; 4] || cut.u == vec![-1i8; 4]);
        assert_eq!(cut.v, cut.u);
        assert_eq!(cut.weight, 100);
        assert_eq!(norm, 0);
    }
}

#[test]
fn checkerboard_is_one_cut() {
    let rows = vec![vec![1, -1], vec![-1, 1]];
    let target = Matrix::from_rows(rows.clone()).unwrap();
    for seed in 0..50u64 {
        let mut engine = SignedCutEngine::create(&target, 1, 1).unwrap();
        let mut gen = seeded(seed);
        let (cut, norm) = engine.discover_next(&mut gen);
        assert!(cut.is_valid(2, 2));
        for i in 0..2 {
            for j in 0..2 {
                assert_eq!((cut.u[i] * cut.v[j]) as i64, rows[i][j]);
            }
        }
        assert_eq!(cut.weight, 1);
        assert_eq!(norm, 0);
        assert_eq!(engine.residual().to_rows(), vec![vec![0, 0], vec![0, 0]]);
    }
}

#[test]
fn create_copies_the_target() {
    let target = scattered(3, 5, 1);
    let engine = SignedCutEngine::create(&target, 2, 9).unwrap();
    assert_eq!(engine.rows(), 3);
    assert_eq!(engine.cols(), 5);
    assert_eq!(engine.tile_size(), 2);
    assert_eq!(engine.target_count(), 9);
    assert_eq!(engine.round_cap(), DEFAULT_ROUND_CAP);
    assert_eq!(engine.cut_count(), 0);
    assert!(engine.cuts().is_empty());
    assert_eq!(engine.residual().to_rows(), target.to_rows());
}

#[test]
fn create_refuses_a_matrix_without_rows() {
    let res = SignedCutEngine::create(&Matrix::filled(0, 3, 0), 2, 1);
    assert_eq!(res.err(), Some(ConfigError::NoRows));
    let res = SignedCutEngine::create(&Matrix::from_rows(Vec::new()).unwrap(), 2, 1);
    assert_eq!(res.err(), Some(ConfigError::NoRows));
}

#[test]
fn create_refuses_a_matrix_without_columns() {
    let res = SignedCutEngine::create(&Matrix::filled(3, 0, 0), 2, 1);
    assert_eq!(res.err(), Some(ConfigError::NoColumns));
}

#[test]
fn create_refuses_a_tile_size_of_zero() {
    let res = SignedCutEngine::create(&Matrix::filled(3, 3, 1), 0, 1);
    assert_eq!(res.err(), Some(ConfigError::ZeroTileSize));
}

#[test]
fn create_refuses_a_norm_above_the_limit() {
    let res = SignedCutEngine::create(&Matrix::filled(1, 1, 1 << 62), 1, 1);
    assert_eq!(res.err(), Some(ConfigError::NormTooLarge));
    let res = SignedCutEngine::create(&Matrix::filled(2, 2, i64::MIN), 1, 1);
    assert_eq!(res.err(), Some(ConfigError::NormTooLarge));
    assert!(SignedCutEngine::create(&Matrix::filled(1, 1, (1 << 62) - 1), 1, 1).is_ok());
}

#[test]
fn create_reports_the_first_fault() {
    let res = SignedCutEngine::create(&Matrix::filled(0, 0, 0), 0, 1);
    assert_eq!(res.err(), Some(ConfigError::NoRows));
    let res = SignedCutEngine::create(&Matrix::filled(2, 0, 0), 0, 1);
    assert_eq!(res.err(), Some(ConfigError::NoColumns));
    let res = SignedCutEngine::create(&Matrix::filled(1, 1, i64::MAX), 0, 1);
    assert_eq!(res.err(), Some(ConfigError::ZeroTileSize));
}

#[test]
fn zero_budget_leaves_the_engine_fresh() {
    let target = Matrix::from_rows(vec![vec![3, 4], vec![0, -2]]).unwrap();
    let mut engine = SignedCutEngine::create(&target, 1, 0).unwrap();
    let mut gen = seeded(0);
    let mut twin = seeded(0);
    let norms = engine.discover_remaining(&mut gen);
    assert!(norms.is_empty());
    assert_eq!(engine.cut_count(), 0);
    assert!(engine.cuts().is_empty());
    assert_eq!(engine.reconstruct().to_rows(), vec![vec![0, 0], vec![0, 0]]);
    assert_eq!(engine.residual_norm(), 29);
    assert_eq!(engine.residual().to_rows(), target.to_rows());
    // no draw was used
    assert_eq!(gen.draw(), twin.draw());
}

#[test]
fn norm_never_rises() {
    for (rows, cols, tile, seed) in [(6usize, 5usize, 2usize, 0u64), (7, 3, 3, 1), (1, 9, 1, 2), (8, 8, 5, 3)] {
        let target = scattered(rows, cols, seed);
        let mut engine = SignedCutEngine::create(&target, tile, 40).unwrap();
        let mut gen = seeded(seed);
        let mut last = engine.residual_norm();
        assert_eq!(Some(last), target.squared_norm());
        for _ in 0..40 {
            let (_, norm) = engine.discover_next(&mut gen);
            assert!(norm <= last);
            assert_eq!(norm, engine.residual_norm());
            assert_eq!(Some(norm), engine.residual().squared_norm());
            last = norm;
        }
        assert!(last < target.squared_norm().unwrap());
    }
}

#[test]
fn norm_falls_by_the_gain_of_the_cut() {
    let target = Matrix::from_rows(vec![vec![-9, 0], vec![0, 0]]).unwrap();
    let mut engine = SignedCutEngine::create(&target, 1, 1).unwrap();
    let mut gen = seeded(0);
    let (cut, norm) = engine.discover_next(&mut gen);
    // the bilinear form is 9 at the fixed point, so the weight is 9 / 4 rounded toward zero
    assert_eq!(cut.weight, 2);
    assert_eq!(cut.u[0] * cut.v[0], -1);
    assert_eq!(engine.residual().get(0, 0), -7);
    // 81 - (2 * 2 * 9 - 2 * 2 * 4)
    assert_eq!(norm, 61);
}

#[test]
fn small_bilinear_form_gives_a_zero_weight() {
    let target = Matrix::from_rows(vec![vec![3, 0], vec![0, 0]]).unwrap();
    let mut engine = SignedCutEngine::create(&target, 2, 1).unwrap();
    let mut gen = seeded(0);
    let (cut, norm) = engine.discover_next(&mut gen);
    assert!(cut.is_valid(2, 2));
    assert_eq!(cut.weight, 0);
    assert_eq!(norm, 9);
    assert_eq!(engine.residual().to_rows(), target.to_rows());
    assert_eq!(engine.cut_count(), 1);
}

#[test]
fn reconstruction_is_target_less_residual() {
    let target = scattered(5, 7, 11);
    let mut engine = SignedCutEngine::create(&target, 3, 12).unwrap();
    let mut gen = seeded(5);
    assert_eq!(engine.reconstruct().to_rows(), vec![vec![0i64; 7]; 5]);
    for _ in 0..12 {
        engine.discover_next(&mut gen);
        let rebuilt = engine.reconstruct();
        assert_eq!(rebuilt.to_rows(), difference(&target, engine.residual()));
        assert_eq!(rebuilt.to_rows(), sum_of_cuts(engine.cuts(), 5, 7));
    }
}

#[test]
fn reconstruction_can_be_read_between_discoveries() {
    let target = scattered(4, 4, 2);
    let mut plain = SignedCutEngine::create(&target, 2, 6).unwrap();
    let mut watched = SignedCutEngine::create(&target, 2, 6).unwrap();
    let mut gen_a = seeded(3);
    let mut gen_b = seeded(3);
    for _ in 0..6 {
        let (a, _) = plain.discover_next(&mut gen_a);
        watched.reconstruct();
        watched.residual_norm();
        let (b, _) = watched.discover_next(&mut gen_b);
        assert_eq!(a.u, b.u);
        assert_eq!(a.v, b.v);
        assert_eq!(a.weight, b.weight);
    }
}

#[test]
fn same_seed_gives_the_same_cuts_and_norms() {
    let target = scattered(6, 4, 8);
    let mut first = SignedCutEngine::create(&target, 2, 20).unwrap();
    let mut second = SignedCutEngine::create(&target, 2, 20).unwrap();
    let mut gen_a = seeded(77);
    let mut gen_b = seeded(77);
    for _ in 0..20 {
        let (a, norm_a) = first.discover_next(&mut gen_a);
        let (b, norm_b) = second.discover_next(&mut gen_b);
        assert_eq!(a.u, b.u);
        assert_eq!(a.v, b.v);
        assert_eq!(a.weight, b.weight);
        assert_eq!(norm_a, norm_b);
    }
    assert_eq!(first.residual().to_rows(), second.residual().to_rows());
    assert_eq!(gen_a.draw(), gen_b.draw());
}

#[test]
fn tile_size_does_not_change_the_cuts() {
    let target = scattered(7, 5, 4);
    let mut base = SignedCutEngine::create(&target, 1, 10).unwrap();
    let mut gen = seeded(13);
    let base_norms = base.discover_remaining(&mut gen);
    for tile in [2usize, 3, 4, 7, 8, 1000] {
        let mut engine = SignedCutEngine::create(&target, tile, 10).unwrap();
        let mut gen = seeded(13);
        assert_eq!(engine.discover_remaining(&mut gen), base_norms);
        assert_eq!(engine.residual().to_rows(), base.residual().to_rows());
        for (a, b) in engine.cuts().iter().zip(base.cuts().iter()) {
            assert_eq!(a.u, b.u);
            assert_eq!(a.v, b.v);
            assert_eq!(a.weight, b.weight);
        }
    }
}

#[test]
fn every_cut_is_a_sign_pattern() {
    for (rows, cols, tile) in [(5usize, 5usize, 1usize), (5, 5, 2), (5, 5, 5), (3, 8, 2), (9, 2, 4), (1, 1, 1)] {
        let target = scattered(rows, cols, (rows * 31 + cols) as u64);
        let mut engine = SignedCutEngine::create(&target, tile, 15).unwrap();
        let mut gen = seeded(tile as u64);
        for _ in 0..15 {
            let (cut, _) = engine.discover_next(&mut gen);
            assert_eq!(cut.u.len(), rows);
            assert_eq!(cut.v.len(), cols);
            assert!(cut.u.iter().all(|s| *s == 1 || *s == -1));
            assert!(cut.v.iter().all(|s| *s == 1 || *s == -1));
            assert!(cut.is_valid(rows, cols));
        }
        assert!(engine.cuts().iter().all(|c| c.is_valid(rows, cols)));
    }
}

#[test]
fn returned_cut_is_the_recorded_cut() {
    let target = scattered(4, 6, 3);
    let mut engine = SignedCutEngine::create(&target, 2, 5).unwrap();
    let mut gen = seeded(6);
    for k in 0..5 {
        let (cut, _) = engine.discover_next(&mut gen);
        assert_eq!(engine.cut_count(), k + 1);
        let kept = &engine.cuts()[k];
        assert_eq!(kept.u, cut.u);
        assert_eq!(kept.v, cut.v);
        assert_eq!(kept.weight, cut.weight);
    }
}

#[test]
fn discover_remaining_fills_the_budget() {
    let target = scattered(5, 5, 9);
    let mut engine = SignedCutEngine::create(&target, 2, 8).unwrap();
    let mut gen = seeded(2);
    engine.discover_next(&mut gen);
    engine.discover_next(&mut gen);
    let before = engine.residual_norm();
    let norms = engine.discover_remaining(&mut gen);
    assert_eq!(norms.len(), 6);
    assert_eq!(engine.cut_count(), 8);
    assert!(norms[0] <= before);
    for k in 1..norms.len() {
        assert!(norms[k] <= norms[k - 1]);
    }
    assert_eq!(norms[5], engine.residual_norm());
    assert!(engine.discover_remaining(&mut gen).is_empty());
    assert_eq!(engine.cut_count(), 8);
}

#[test]
fn discover_remaining_is_a_row_of_discoveries() {
    let target = scattered(6, 3, 5);
    let mut stepwise = SignedCutEngine::create(&target, 4, 7).unwrap();
    let mut at_once = SignedCutEngine::create(&target, 4, 7).unwrap();
    let mut gen_a = seeded(19);
    let mut gen_b = seeded(19);
    let mut norms = Vec::new();
    for _ in 0..7 {
        norms.push(stepwise.discover_next(&mut gen_a).1);
    }
    assert_eq!(at_once.discover_remaining(&mut gen_b), norms);
    assert_eq!(at_once.residual().to_rows(), stepwise.residual().to_rows());
    assert_eq!(gen_a.draw(), gen_b.draw());
}

#[test]
fn engine_accepts_more_calls_than_the_budget() {
    let target = scattered(3, 3, 6);
    let mut engine = SignedCutEngine::create(&target, 1, 2).unwrap();
    let mut gen = seeded(1);
    let mut last = engine.residual_norm();
    for k in 0..5 {
        let (cut, norm) = engine.discover_next(&mut gen);
        assert!(cut.is_valid(3, 3));
        assert!(norm <= last);
        last = norm;
        assert_eq!(engine.cut_count(), k + 1);
    }
    assert_eq!(engine.target_count(), 2);
    assert_eq!(engine.reconstruct().to_rows(), difference(&target, engine.residual()));
}

#[test]
fn round_cap_can_be_set() {
    let target = scattered(5, 4, 12);
    let mut engine = SignedCutEngine::create(&target, 2, 3).unwrap();
    engine.set_round_cap(0);
    assert_eq!(engine.round_cap(), 0);
    assert_eq!(engine.tile_size(), 2);
    assert_eq!(engine.target_count(), 3);
    let mut gen = seeded(4);
    let before = engine.residual_norm();
    let (cut, norm) = engine.discover_next(&mut gen);
    assert!(cut.is_valid(5, 4));
    assert!(norm <= before);
    engine.set_round_cap(1000);
    assert_eq!(engine.round_cap(), 1000);
    let (_, next) = engine.discover_next(&mut gen);
    assert!(next <= norm);
}

#[test]
fn large_entries_are_handled_exactly() {
    let big = (1i64 << 60) + 12345;
    let target = Matrix::from_rows(vec![vec![big, -big, big], vec![-big, big, -big]]).unwrap();
    let mut engine = SignedCutEngine::create(&target, 1, 1).unwrap();
    assert_eq!(engine.residual_norm(), 6 * (big as u128) * (big as u128));
    let mut gen = seeded(0);
    let (cut, norm) = engine.discover_next(&mut gen);
    assert_eq!(cut.weight, big);
    assert_eq!(norm, 0);
    assert_eq!(engine.reconstruct().to_rows(), target.to_rows());
}
