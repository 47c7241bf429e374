use rag_core::context::{render_score, score_cents_exec};
use rag_core::score::{cosine_similarity, dot_product, embedding_in_range, Score};

#[test]
fn dot_product_is_the_sum_of_coordinate_products() {
    let a: Vec<i64> = vec![1, 2, 3];
    let b: Vec<i64> = vec![4, 5, 6];
    assert_eq!(dot_product(&a, &b), 4 + 10 + 18);
}

#[test]
fn cosine_of_a_vector_with_itself_is_exactly_one() {
    let a: Vec<i64> = vec![3, 4];
    let s = cosine_similarity(&a, &a);
    assert_eq!(s.num, 25);
    assert_eq!(s.qq, 25);
    assert_eq!(s.cc, 25);
    // the exact value is one: the squared dot product equals the norm product
    assert_eq!(s.num * s.num, s.qq * s.cc);
    assert!(s.num > 0);
    assert_eq!(render_score(&s), "1.00");
}

#[test]
fn cosine_with_a_zero_norm_is_zero() {
    let zero: Vec<i64> = vec![0, 0];
    let b: Vec<i64> = vec![7, -2];
    let s = cosine_similarity(&zero, &b);
    assert_eq!(s.num, 0);
    assert_eq!(s.qq, 0);
    assert_eq!(score_cents_exec(&s), 0);
    assert_eq!(render_score(&s), "0.00");
    let t = cosine_similarity(&b, &zero);
    assert_eq!(t.num, 0);
    assert_eq!(score_cents_exec(&t), 0);
}

#[test]
fn orthogonal_vectors_score_zero() {
    let a: Vec<i64> = vec![1000, 0];
    let b: Vec<i64> = vec![0, 1000];
    let s = cosine_similarity(&a, &b);
    assert_eq!(s.num, 0);
    assert_eq!(render_score(&s), "0.00");
}

#[test]
fn forty_five_degrees_renders_rounded_to_nearest() {
    let a: Vec<i64> = vec![1000, 0];
    let b: Vec<i64> = vec![1000, 1000];
    let s = cosine_similarity(&a, &b);
    // cos = 1/sqrt(2) = 0.7071..: rounded to nearest at two places
    assert_eq!(render_score(&s), "0.71");
}

#[test]
fn near_one_rounds_up_to_one() {
    // cos = 999/1000: two places round to 1.00, not truncate to 0.99
    let s = Score { num: 999, qq: 1000, cc: 1000 };
    assert_eq!(render_score(&s), "1.00");
}

#[test]
fn opposite_vectors_render_with_a_sign() {
    let a: Vec<i64> = vec![100, 0];
    let b: Vec<i64> = vec![-100, 0];
    let s = cosine_similarity(&a, &b);
    assert!(s.num < 0);
    assert_eq!(render_score(&s), "-1.00");
}

#[test]
fn embedding_range_check_accepts_and_rejects() {
    assert!(embedding_in_range(&vec![0, 1024, -1024]));
    assert!(!embedding_in_range(&vec![1025]));
    assert!(!embedding_in_range(&vec![-1025]));
    let too_long: Vec<i64> = vec![1; 513];
    assert!(!embedding_in_range(&too_long));
    let max_len: Vec<i64> = vec![1; 512];
    assert!(embedding_in_range(&max_len));
}

#[test]
fn score_rendering_pads_two_decimal_places() {
    // num/sqrt(qq*cc) = 5/100 = 0.05
    let s = Score { num: 5, qq: 100, cc: 100 };
    assert_eq!(render_score(&s), "0.05");
}
