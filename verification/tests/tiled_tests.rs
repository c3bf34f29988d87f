use signed_cuts::matrix::Matrix;
use signed_cuts::tiled::{
    mat_vec_direct, mat_vec_tile, mat_vec_tiled, rank_one_update, rank_one_update_tile, row_dot,
    tile_end_of, vec_mat_tile, vec_mat_tiled, zeros,
};

fn sample() -> Matrix {
    Matrix::from_rows(vec![
        vec![1, -2, 3],
        vec![4, 5, -6],
        vec![-7, 8, 9],
        vec![10, 11, 12],
        vec![0, -1, 2],
    ])
    .unwrap()
}

fn product_by_hand(r: &Matrix, v: &[i8]) -> Vec<i128> {
    let mut out = Vec::new();
    for i in 0..r.rows() {
        let mut s: i128 = 0;
        for j in 0..r.cols() {
            s += (r.get(i, j) as i128) * (v[j] as i128);
        }
        out.push(s);
    }
    out
}

#[test]
fn tile_end_is_a_full_tile_or_the_rest() {
    assert_eq!(tile_end_of(0, 2, 5), 2);
    assert_eq!(tile_end_of(2, 2, 5), 4);
    assert_eq!(tile_end_of(4, 2, 5), 5);
    assert_eq!(tile_end_of(0, 5, 5), 5);
    assert_eq!(tile_end_of(0, 9, 5), 5);
    assert_eq!(tile_end_of(5, 3, 5), 5);
    assert_eq!(tile_end_of(3, usize::MAX, 5), 5);
}

#[test]
fn zeros_are_zero() {
    assert_eq!(zeros(0), Vec::<i128>::new());
    assert_eq!(zeros(3), vec![0i128, 0, 0]);
}

#[test]
fn row_dot_adds_and_subtracts() {
    assert_eq!(row_dot(&vec![1, -2, 3], &vec![1, 1, 1]), 2);
    assert_eq!(row_dot(&vec![1, -2, 3], &vec![1, -1, 1]), 6);
    assert_eq!(row_dot(&vec![1, -2, 3], &vec![-1, -1, -1]), -2);
    assert_eq!(row_dot(&Vec::new(), &Vec::new()), 0);
    assert_eq!(
        row_dot(&vec![i64::MAX, i64::MAX, i64::MIN], &vec![1, 1, -1]),
        2 * (i64::MAX as i128) - (i64::MIN as i128)
    );
}

#[test]
fn mat_vec_known_values() {
    let r = sample();
    let v: Vec<i8> = vec![1, -1, 1];
    assert_eq!(mat_vec_direct(&r, &v), vec![6i128, -7, -6, 11, 3]);
    assert_eq!(mat_vec_tiled(&r, &v, 2), vec![6i128, -7, -6, 11, 3]);
}

#[test]
fn tiled_mat_vec_matches_direct_when_tiles_divide_the_rows() {
    let r = sample();
    let v: Vec<i8> = vec![-1, 1, 1];
    let direct = mat_vec_direct(&r, &v);
    assert_eq!(direct, product_by_hand(&r, &v));
    assert_eq!(mat_vec_tiled(&r, &v, 1), direct);
    assert_eq!(mat_vec_tiled(&r, &v, 5), direct);
}

#[test]
fn tiled_mat_vec_matches_direct_when_tiles_do_not_divide_the_rows() {
    let r = sample();
    let v: Vec<i8> = vec![-1, 1, 1];
    let direct = mat_vec_direct(&r, &v);
    for tile in [2usize, 3, 4, 6, 7, 100, usize::MAX] {
        assert_eq!(mat_vec_tiled(&r, &v, tile), direct);
    }
}

#[test]
fn mat_vec_tile_writes_only_its_rows() {
    let r = sample();
    let v: Vec<i8> = vec![1, 1, 1];
    let mut out: Vec<i128> = vec![77; 5];
    mat_vec_tile(&r, &v, 1, 3, &mut out);
    assert_eq!(out, vec![77i128, 3, 10, 77, 77]);
    mat_vec_tile(&r, &v, 3, 3, &mut out);
    assert_eq!(out, vec![77i128, 3, 10, 77, 77]);
    mat_vec_tile(&r, &v, 3, 5, &mut out);
    mat_vec_tile(&r, &v, 0, 1, &mut out);
    assert_eq!(out, vec![2i128, 3, 10, 33, 1]);
}

#[test]
fn vec_mat_known_values() {
    let r = sample();
    let u: Vec<i8> = vec![1, -1, 1, -1, 1];
    // column sums of u[i] * r[i][j]
    let expect: Vec<i128> = vec![1 - 4 - 7 - 10 + 0, -2 - 5 + 8 - 11 - 1, 3 + 6 + 9 - 12 + 2];
    for tile in [1usize, 2, 3, 4, 5, 6, 50] {
        assert_eq!(vec_mat_tiled(&r, &u, tile), expect);
    }
}

#[test]
fn vec_mat_tile_sums_only_its_rows() {
    let r = sample();
    let u: Vec<i8> = vec![1, -1, 1, -1, 1];
    assert_eq!(vec_mat_tile(&r, &u, 0, 0), vec![0i128, 0, 0]);
    assert_eq!(vec_mat_tile(&r, &u, 0, 2), vec![-3i128, -7, 9]);
    assert_eq!(vec_mat_tile(&r, &u, 2, 5), vec![-17i128, -4, -1]);
    let whole = vec_mat_tile(&r, &u, 0, 5);
    assert_eq!(whole, vec_mat_tiled(&r, &u, 2));
}

#[test]
fn products_of_an_empty_matrix() {
    let r = Matrix::filled(0, 3, 0);
    assert_eq!(mat_vec_tiled(&r, &vec![1, 1, -1], 2), Vec::<i128>::new());
    assert_eq!(vec_mat_tiled(&r, &Vec::new(), 2), vec![0i128, 0, 0]);
    let r = Matrix::filled(2, 0, 0);
    assert_eq!(mat_vec_tiled(&r, &Vec::new(), 1), vec![0i128, 0]);
    assert_eq!(vec_mat_tiled(&r, &vec![1, -1], 1), Vec::<i128>::new());
}

#[test]
fn rank_one_update_takes_the_pattern_away() {
    let u: Vec<i8> = vec![1, -1, 1, -1, 1];
    let v: Vec<i8> = vec![1, 1, -1];
    let expect = vec![
        vec![1 - 10, -2 - 10, 3 + 10],
        vec![4 + 10, 5 + 10, -6 - 10],
        vec![-7 - 10, 8 - 10, 9 + 10],
        vec![10 + 10, 11 + 10, 12 - 10],
        vec![0 - 10, -1 - 10, 2 + 10],
    ];
    for tile in [1usize, 2, 3, 5, 8] {
        let mut r = sample();
        rank_one_update(&mut r, 10, &u, &v, tile);
        assert_eq!(r.to_rows(), expect);
    }
}

#[test]
fn rank_one_update_with_negative_weight() {
    let mut r = Matrix::from_rows(vec![vec![0, 0], vec![0, 0]]).unwrap();
    rank_one_update(&mut r, -3, &vec![1, -1], &vec![-1, -1], 1);
    assert_eq!(r.to_rows(), vec![vec![-3, -3], vec![3, 3]]);
}

#[test]
fn rank_one_update_tile_leaves_other_rows() {
    let u: Vec<i8> = vec![1, -1, 1, -1, 1];
    let v: Vec<i8> = vec![1, 1, -1];
    let mut r = sample();
    rank_one_update_tile(&mut r, 10, &u, &v, 1, 3);
    assert_eq!(
        r.to_rows(),
        vec![
            vec![1, -2, 3],
            vec![14, 15, -16],
            vec![-17, -2, 19],
            vec![10, 11, 12],
            vec![0, -1, 2],
        ]
    );
}
