use lib::algo::{slow_dedup, slow_fib};
use lib::concurrency::{read_after_sleep, reset_counter, Counter};
use lib::{leak_buffer, normalize, positive_sum_and_count, strip_whitespace, sum_even};

// ─── sum_even ──────────────────────────────────────────────────────────────

#[test]
fn sum_even_negative_odd_values_are_skipped() {
    assert_eq!(sum_even(&[-3, -1, 1, 3]), 0);
    assert_eq!(sum_even(&[-3, -2, 5, 8]), 6);
}

#[test]
fn sum_even_of_concatenation_adds_up() {
    let a = [1i64, 2, -4, 7];
    let b = [10i64, 11, -6];
    let joined: Vec<i64> = a.iter().chain(b.iter()).copied().collect();
    assert_eq!(sum_even(&joined), sum_even(&a) + sum_even(&b));
}

#[test]
fn sum_even_near_the_limits() {
    assert_eq!(sum_even(&[i64::MAX - 1, 1, 3]), i64::MAX - 1);
    assert_eq!(sum_even(&[i64::MIN, 5]), i64::MIN);
}

// ─── leak_buffer ───────────────────────────────────────────────────────────

#[test]
fn leak_buffer_counts_every_non_zero_byte() {
    assert_eq!(leak_buffer(&[255, 1, 128]), 3);
}

#[test]
fn leak_buffer_of_concatenation_adds_up() {
    let a = [0u8, 4, 0];
    let b = [9u8, 0, 1, 1];
    let joined: Vec<u8> = a.iter().chain(b.iter()).copied().collect();
    assert_eq!(leak_buffer(&joined), leak_buffer(&a) + leak_buffer(&b));
    assert!(leak_buffer(&joined) <= joined.len());
}

// ─── positive_sum_and_count ────────────────────────────────────────────────

#[test]
fn positive_sum_and_count_mixed() {
    assert_eq!(positive_sum_and_count(&[-5, 5, 15]), (20, 2));
}

#[test]
fn positive_sum_and_count_no_positives() {
    assert_eq!(positive_sum_and_count(&[-1, -2, -3, 0]), (0, 0));
    assert_eq!(positive_sum_and_count(&[]), (0, 0));
}

#[test]
fn positive_sum_and_count_single_value() {
    assert_eq!(positive_sum_and_count(&[7]), (7, 1));
}

// ─── normalize / strip_whitespace ──────────────────────────────────────────

#[test]
fn strip_whitespace_keeps_case_and_order() {
    assert_eq!(strip_whitespace(" Hello\tWorld\n"), "HelloWorld");
}

#[test]
fn strip_whitespace_removes_unicode_white_space() {
    assert_eq!(strip_whitespace("a\u{A0}b\u{3000}c\u{2028}d\u{85}e\u{1680}f\u{205F}g"), "abcdefg");
    assert_eq!(strip_whitespace("x\u{200B}y"), "x\u{200B}y");
}

#[test]
fn strip_whitespace_is_idempotent() {
    let once = strip_whitespace(" a b\tc ");
    assert_eq!(strip_whitespace(&once), once);
}

#[test]
fn strip_whitespace_of_concatenation() {
    let a = "ab c ";
    let b = "\td e";
    let joined = format!("{}{}", a, b);
    assert_eq!(strip_whitespace(&joined), format!("{}{}", strip_whitespace(a), strip_whitespace(b)));
}

#[test]
fn normalize_lowercases_after_stripping() {
    assert_eq!(normalize("ÀB C\u{A0}D"), "àbcd");
    assert_eq!(normalize("ΟΔΟΣ ΑΒ"), "οδοσαβ");
}

// ─── dedup ─────────────────────────────────────────────────────────────────

#[test]
fn dedup_keeps_first_occurrence_order() {
    assert_eq!(slow_dedup(&[3, 1, 3, 2, 1, 4]), vec![3, 1, 2, 4]);
}

#[test]
fn dedup_is_idempotent() {
    let once = slow_dedup(&[9, 2, 9, 9, 4, 2]);
    assert_eq!(slow_dedup(&once), once);
}

#[test]
fn dedup_leaves_distinct_input_unchanged() {
    assert_eq!(slow_dedup(&[4, 8, 1, 0, u64::MAX]), vec![4, 8, 1, 0, u64::MAX]);
}

#[test]
fn dedup_result_is_prefix_of_extended_result() {
    let s = [2u64, 7, 2];
    let t = [7u64, 5, 2, 6];
    let joined: Vec<u64> = s.iter().chain(t.iter()).copied().collect();
    let short = slow_dedup(&s);
    let long = slow_dedup(&joined);
    assert_eq!(&long[..short.len()], &short[..]);
    assert_eq!(long, vec![2, 7, 5, 6]);
}

// ─── fib ───────────────────────────────────────────────────────────────────

#[test]
fn fib_largest_exact_value() {
    assert_eq!(slow_fib(93), 12200160415121876738);
}

#[test]
fn fib_wraps_around() {
    assert_eq!(slow_fib(94), 1293530146158671551);
    assert_eq!(slow_fib(95), slow_fib(94).wrapping_add(slow_fib(93)));
}

#[test]
fn fib_recurrence() {
    for n in 2..120u64 {
        assert_eq!(slow_fib(n), slow_fib(n - 1).wrapping_add(slow_fib(n - 2)));
    }
}

// ─── counter ───────────────────────────────────────────────────────────────

#[test]
fn counter_reset_then_read_is_zero() {
    let mut c = Counter::new();
    c.increment_times(5);
    reset_counter(&mut c);
    assert_eq!(read_after_sleep(&c), 0);
}

#[test]
fn counter_batches_total() {
    let mut c = Counter::new();
    for _ in 0..4 {
        c.increment_times(250);
    }
    assert_eq!(read_after_sleep(&c), 1000);
}

#[test]
fn counter_batches_commute() {
    let mut a = Counter::new();
    a.increment_times(3);
    a.fetch_add(u64::MAX);
    let mut b = Counter::new();
    b.fetch_add(u64::MAX);
    b.increment_times(3);
    assert_eq!(read_after_sleep(&a), read_after_sleep(&b));
    assert_eq!(read_after_sleep(&a), 2);
}

#[test]
fn counter_fetch_add_returns_previous_and_wraps() {
    let mut c = Counter::new();
    assert_eq!(c.fetch_add(u64::MAX), 0);
    assert_eq!(c.fetch_add(2), u64::MAX);
    assert_eq!(read_after_sleep(&c), 1);
}
