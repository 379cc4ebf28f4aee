use stupidalloc::paths::PathProvider;
use stupidalloc::text::push_padded_decimal;

#[test]
fn paths_follow_the_counter() {
    let mut p = PathProvider::new("/tmp/stupidalloc".to_string());
    assert_eq!(
        p.next_path(),
        Some("/tmp/stupidalloc/alloc_0000000000.mem".to_string())
    );
    assert_eq!(
        p.next_path(),
        Some("/tmp/stupidalloc/alloc_0000000001.mem".to_string())
    );
    assert_eq!(p.counter, 2);
}

#[test]
fn long_counters_widen_the_name_without_truncation() {
    let mut p = PathProvider::new("/tmp/stupidalloc".to_string());
    p.counter = 10_000_000_000;
    assert_eq!(
        p.next_path(),
        Some("/tmp/stupidalloc/alloc_10000000000.mem".to_string())
    );
}

#[test]
fn exhausted_counter_yields_no_path() {
    let mut p = PathProvider::new("/tmp/stupidalloc".to_string());
    p.counter = u64::MAX;
    assert_eq!(p.next_path(), None);
    assert_eq!(p.counter, u64::MAX);
}

#[test]
fn padded_decimal_formatting() {
    let mut s = String::new();
    push_padded_decimal(&mut s, 42, 5);
    assert_eq!(s, "00042");
    let mut s = String::new();
    push_padded_decimal(&mut s, 0, 10);
    assert_eq!(s, "0000000000");
    let mut s = String::from("x");
    push_padded_decimal(&mut s, 123456, 3);
    assert_eq!(s, "x123456");
}
