use wasm_plugins::counting::{
    calc_native_total, count, count_matches, count_optional, repeat_block, MyCounter,
};

#[test]
fn count_matches_counts_only_the_target() {
    assert_eq!(count_matches(&[b'a', b'a', b'b', b'c'], b'a'), 2);
    assert_eq!(count_matches(&[b'a', b'a', b'b', b'c'], b'b'), 1);
    assert_eq!(count_matches(&[b'a', b'a', b'b', b'c'], b'z'), 0);
}

#[test]
fn count_matches_on_empty_buffer_is_zero() {
    assert_eq!(count_matches(&[], 0), 0);
}

#[test]
fn count_matches_never_exceeds_length() {
    let all = [7u8; 9];
    assert_eq!(count_matches(&all, 7), all.len());
}

#[test]
fn count_export_returns_u64() {
    assert_eq!(count(vec![1, 2, 1, 1, 3], 1), 3u64);
    assert_eq!(count(Vec::new(), 1), 0u64);
}

#[test]
fn counter_resource_counts() {
    let counter = MyCounter::new();
    assert_eq!(counter.count(vec![b'a', b'a', b'b', b'c'], b'a'), 2);
    assert_eq!(counter.count(vec![b'a', b'a', b'b', b'c'], b'c'), 1);
}

#[test]
fn count_optional_without_target_is_an_error() {
    let r = count_optional(vec![1, 2, 3], None);
    assert_eq!(r, Err("No Target is provided".to_string()));
}

#[test]
fn count_optional_with_target_counts() {
    let r = count_optional(vec![b'a', b'a', b'b', b'c'], Some(b'a'));
    assert_eq!(r, Ok(2));
}

#[test]
fn repeat_block_writes_block_times() {
    let bytes = repeat_block(&[b'a', b'a', b'b', b'c'], 3);
    assert_eq!(
        bytes,
        vec![b'a', b'a', b'b', b'c', b'a', b'a', b'b', b'c', b'a', b'a', b'b', b'c']
    );
    assert!(repeat_block(&[1, 2], 0).is_empty());
    assert!(repeat_block(&[], 5).is_empty());
}

#[test]
fn repeated_block_holds_times_the_block_matches() {
    let bytes = repeat_block(&[b'a', b'a', b'b', b'c'], 200);
    assert_eq!(bytes.len(), 800);
    assert_eq!(count_matches(&bytes, b'a'), 400);
    assert_eq!(count_matches(&bytes, b'c'), 200);
}

#[test]
fn counting_is_additive_over_concatenation() {
    let a = [1u8, 2, 1];
    let b = [1u8, 1, 3, 4];
    let mut ab = a.to_vec();
    ab.extend_from_slice(&b);
    assert_eq!(count_matches(&ab, 1), count_matches(&a, 1) + count_matches(&b, 1));
}

#[test]
fn native_total_is_cycles_times_count() {
    let bytes = repeat_block(&[b'a', b'a', b'b', b'c'], 50);
    assert_eq!(calc_native_total(&bytes, b'a', 100), 100 * 100);
    assert_eq!(calc_native_total(&bytes, b'a', 0), 0);
    assert_eq!(calc_native_total(&bytes, b'z', 7), 0);
}

#[test]
fn native_total_agrees_with_component_count() {
    let bytes = repeat_block(&[b'a', b'a', b'b', b'c'], 25);
    let cycle = 4usize;
    let component_total: u64 = (0..cycle).map(|_| count(bytes.clone(), b'a')).sum();
    assert_eq!(calc_native_total(&bytes, b'a', cycle) as u64, component_total);
}
