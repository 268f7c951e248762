use parser::broken_app::{leak_buffer, normalize, positive_sum_and_count, positive_sum_fits, sum_even};

#[test]
fn regression_sum_even_no_ub_on_boundary() {
    let empty_vec: &[i64] = &[];
    assert_eq!(sum_even(empty_vec), 0);
    assert_eq!(sum_even(&[2]), 2);
    assert_eq!(sum_even(&[1]), 0);
    let mixed_vec = [1, 2, 3, 4, 5, 6];
    assert_eq!(sum_even(&mixed_vec), 12);
}

#[test]
fn regression_leak_buffer_correctness_and_no_crash() {
    assert_eq!(leak_buffer(&[]), 0);
    assert_eq!(leak_buffer(&[0, 0, 0]), 0);
    assert_eq!(leak_buffer(&[1, 2, 3]), 3);
    assert_eq!(leak_buffer(&[1, 0, 2, 0, 3]), 3);
    let large_buffer: Vec<u8> = vec![2; 10000];
    assert_eq!(leak_buffer(&large_buffer), 10000);
}

#[test]
fn sum_even_counts_negative_evens() {
    assert_eq!(sum_even(&[-4, -3, 7, 10]), 6);
}

#[test]
fn positive_parts_of_the_average() {
    assert_eq!(positive_sum_and_count(&[-10, 0, 10, 20]), (30, 2));
    assert_eq!(positive_sum_and_count(&[-5, -5, 0, -25000]), (0, 0));
}

#[test]
fn normalize_drops_spaces_and_lowercases() {
    assert_eq!(normalize("Hello World"), "helloworld");
    assert_eq!(normalize("  A\tB  "), "a\tb");
    assert_eq!(normalize("ПРИВЕТ Мир"), "приветмир");
    assert_eq!(normalize(""), "");
}

#[test]
fn positive_sum_fits_until_it_overflows() {
    assert!(positive_sum_fits(&[-10, 0, 10, 20]));
    assert!(positive_sum_fits(&[]));
    assert!(positive_sum_fits(&[i64::MAX, -5, i64::MIN]));
    assert!(!positive_sum_fits(&[i64::MAX, 1]));
    assert!(!positive_sum_fits(&[i64::MAX / 2 + 1, -3, i64::MAX / 2 + 1]));
}
