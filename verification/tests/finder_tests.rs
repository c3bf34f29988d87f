use rand::rngs::StdRng;
use rand::SeedableRng;
use signed_cuts::cut::{all_signs, copy_signs, Cut};
use signed_cuts::finder::{
    draw_signs, find_cut, resolve_signs, same_signs, search_round, weight_of, DEFAULT_ROUND_CAP,
};
use signed_cuts::generator::{sign_from_draw, Generator};
use signed_cuts::matrix::Matrix;
use signed_cuts::tiled::{mat_vec_direct, vec_mat_tiled};

fn seeded(seed: u64) -> Generator {
    Generator::new(StdRng::seed_from_u64(seed))
}

fn signs_of_sums(p: &[i128]) -> Vec<i8> {
    p.iter().map(|x| if *x > 0 { 1 } else { -1 }).collect()
}

#[test]
fn a_draw_is_a_sign() {
    assert_eq!(sign_from_draw(true), 1);
    assert_eq!(sign_from_draw(false), -1);
}

#[test]
fn drawn_signs_are_signs() {
    let mut gen = seeded(7);
    let s = draw_signs(1000, &mut gen);
    assert_eq!(s.len(), 1000);
    assert!(all_signs(&s));
    assert!(s.iter().any(|x| *x == 1));
    assert!(s.iter().any(|x| *x == -1));
    assert_eq!(draw_signs(0, &mut gen), Vec::<i8>::new());
}

#[test]
fn same_seed_same_draws() {
    let mut a = seeded(42);
    let mut b = seeded(42);
    assert_eq!(draw_signs(64, &mut a), draw_signs(64, &mut b));
    assert_eq!(a.draw(), b.draw());
}

#[test]
fn draws_come_in_order() {
    let mut a = seeded(5);
    let mut b = seeded(5);
    let whole = draw_signs(10, &mut a);
    let mut parts = draw_signs(4, &mut b);
    parts.extend(draw_signs(6, &mut b));
    assert_eq!(whole, parts);
}

#[test]
fn nonzero_entries_take_their_own_sign() {
    let mut gen = seeded(1);
    let mut twin = seeded(1);
    let s = resolve_signs(&vec![5, -3, 1, -1, i128::MAX, i128::MIN], &mut gen);
    assert_eq!(s, vec![1i8, -1, 1, -1, 1, -1]);
    // no draw was used
    assert_eq!(gen.draw(), twin.draw());
}

#[test]
fn zero_entries_take_one_draw_each() {
    let mut gen = seeded(9);
    let mut twin = seeded(9);
    let s = resolve_signs(&vec![0, 4, 0, 0, -4], &mut gen);
    let d = draw_signs(3, &mut twin);
    assert_eq!(s, vec![d[0], 1, d[1], d[2], -1]);
    assert_eq!(gen.draw(), twin.draw());
}

#[test]
fn all_signs_finds_what_is_no_sign() {
    assert!(all_signs(&vec![1, -1, -1, 1]));
    assert!(all_signs(&Vec::new()));
    assert!(!all_signs(&vec![1, 0, 1]));
    assert!(!all_signs(&vec![1, 1, 2]));
    assert!(!all_signs(&vec![-2]));
}

#[test]
fn same_signs_compares_entry_by_entry() {
    assert!(same_signs(&vec![1, -1], &vec![1, -1]));
    assert!(!same_signs(&vec![1, -1], &vec![1, 1]));
    assert!(!same_signs(&vec![1, -1], &vec![1]));
    assert!(same_signs(&Vec::new(), &Vec::new()));
}

#[test]
fn copies_are_equal() {
    assert_eq!(copy_signs(&vec![1, -1, 1]), vec![1i8, -1, 1]);
    let c = Cut { u: vec![1, -1], v: vec![-1, 1, 1], weight: -4 };
    let d = c.copy();
    assert_eq!(d.u, c.u);
    assert_eq!(d.v, c.v);
    assert_eq!(d.weight, -4);
}

#[test]
fn cut_validity() {
    let c = Cut { u: vec![1, -1], v: vec![-1, 1, 1], weight: 0 };
    assert!(c.is_valid(2, 3));
    assert!(!c.is_valid(3, 2));
    assert!(!c.is_valid(2, 2));
    let c = Cut { u: vec![1, 0], v: vec![-1, 1, 1], weight: 0 };
    assert!(!c.is_valid(2, 3));
    let c = Cut { u: vec![1, 1], v: vec![-1, 3, 1], weight: 0 };
    assert!(!c.is_valid(2, 3));
}

#[test]
fn weight_is_the_quotient_rounded_toward_zero() {
    let r = Matrix::from_rows(vec![vec![9, 0], vec![0, 0]]).unwrap();
    assert_eq!(weight_of(&r, &vec![1, 1], &vec![1, 1], 1), 2);
    assert_eq!(weight_of(&r, &vec![-1, 1], &vec![1, 1], 1), -2);
    let r = Matrix::from_rows(vec![vec![-9, 0], vec![0, 0]]).unwrap();
    assert_eq!(weight_of(&r, &vec![1, 1], &vec![1, 1], 2), -2);
    let r = Matrix::from_rows(vec![vec![3, 0], vec![0, 0]]).unwrap();
    assert_eq!(weight_of(&r, &vec![1, 1], &vec![1, 1], 2), 0);
    assert_eq!(weight_of(&r, &vec![1, 1], &vec![-1, 1], 2), 0);
    let r = Matrix::from_rows(vec![vec![4, 0], vec![0, 0]]).unwrap();
    assert_eq!(weight_of(&r, &vec![1, 1], &vec![-1, 1], 2), -1);
}

#[test]
fn weight_of_a_full_pattern() {
    let r = Matrix::from_rows(vec![vec![5, -5, 5], vec![-5, 5, -5]]).unwrap();
    assert_eq!(weight_of(&r, &vec![1, -1], &vec![1, -1, 1], 1), 5);
    assert_eq!(weight_of(&r, &vec![-1, 1], &vec![1, -1, 1], 1), -5);
    // 1 - 2 + 3 + 4 = 6 over 4 entries
    let r = Matrix::from_rows(vec![vec![1, 2], vec![3, 4]]).unwrap();
    assert_eq!(weight_of(&r, &vec![1, 1], &vec![1, 1], 1), 2);
    assert_eq!(weight_of(&r, &vec![1, 1], &vec![1, -1], 1), 0);
    assert_eq!(weight_of(&r, &vec![-1, 1], &vec![1, 1], 1), 1);
}

#[test]
fn weight_of_large_entries() {
    let big = (1i64 << 61) - 1;
    let r = Matrix::from_rows(vec![vec![big, big], vec![big, big]]).unwrap();
    assert_eq!(weight_of(&r, &vec![1, 1], &vec![1, 1], 1), big);
    assert_eq!(weight_of(&r, &vec![1, 1], &vec![-1, -1], 1), -big);
}

#[test]
fn a_round_sets_both_vectors_to_the_signs_of_the_products() {
    let r = Matrix::from_rows(vec![vec![1, 2, 3], vec![-4, 5, -6], vec![7, -8, -9]]).unwrap();
    let v: Vec<i8> = vec![1, 1, -1];
    let mut gen = seeded(3);
    let mut twin = seeded(3);
    let (u, new_v) = search_round(&r, &v, 2, &mut gen);
    // r * v = (0, 7, 8): the first entry is a tie
    let tie = draw_signs(1, &mut twin);
    assert_eq!(u, vec![tie[0], 1, 1]);
    let q = vec_mat_tiled(&r, &u, 1);
    assert!(q.iter().all(|x| *x != 0));
    assert_eq!(new_v, signs_of_sums(&q));
    assert_eq!(gen.draw(), twin.draw());
}

#[test]
fn found_cut_is_a_fixed_point_or_capped() {
    let r = Matrix::from_rows(vec![
        vec![12, -7, 3, 9],
        vec![-5, 14, -2, 8],
        vec![6, 1, -11, -4],
    ])
    .unwrap();
    let mut gen = seeded(11);
    let cut = find_cut(&r, 2, DEFAULT_ROUND_CAP, &mut gen);
    assert!(cut.is_valid(3, 4));
    assert_eq!(cut.weight, weight_of(&r, &cut.u, &cut.v, 1));
    // no entry of either product is zero here, so one more round changes nothing
    let p = mat_vec_direct(&r, &cut.v);
    let q = vec_mat_tiled(&r, &cut.u, 3);
    assert!(p.iter().all(|x| *x != 0));
    assert!(q.iter().all(|x| *x != 0));
    assert_eq!(signs_of_sums(&q), cut.v);
    assert_eq!(signs_of_sums(&p), cut.u);
    assert!(cut.weight >= 0);
}

#[test]
fn find_cut_with_a_cap_of_zero_makes_one_round() {
    let r = Matrix::from_rows(vec![vec![1, 2, 3], vec![-4, 5, -6], vec![7, -8, 9]]).unwrap();
    for cap in [0usize, 1] {
        let mut gen = seeded(21);
        let mut twin = seeded(21);
        let cut = find_cut(&r, 1, cap, &mut gen);
        let v0 = draw_signs(3, &mut twin);
        let (u, v) = search_round(&r, &v0, 1, &mut twin);
        assert_eq!(cut.u, u);
        assert_eq!(cut.v, v);
        assert_eq!(cut.weight, weight_of(&r, &u, &v, 1));
        assert_eq!(gen.draw(), twin.draw());
    }
}

#[test]
fn find_cut_does_not_depend_on_the_tile_size() {
    let r = Matrix::from_rows(vec![
        vec![12, -7, 3, 9],
        vec![-5, 14, -2, 8],
        vec![6, 1, -11, -4],
        vec![0, 0, 0, 0],
        vec![3, 3, -3, -3],
    ])
    .unwrap();
    let mut gen = seeded(4);
    let first = find_cut(&r, 1, DEFAULT_ROUND_CAP, &mut gen);
    for tile in [2usize, 3, 4, 5, 6, 64] {
        let mut gen = seeded(4);
        let cut = find_cut(&r, tile, DEFAULT_ROUND_CAP, &mut gen);
        assert_eq!(cut.u, first.u);
        assert_eq!(cut.v, first.v);
        assert_eq!(cut.weight, first.weight);
    }
}

#[test]
fn find_cut_on_the_zero_matrix() {
    let r = Matrix::filled(3, 2, 0);
    let mut gen = seeded(8);
    let cut = find_cut(&r, 2, 4, &mut gen);
    assert!(cut.is_valid(3, 2));
    assert_eq!(cut.weight, 0);
}
