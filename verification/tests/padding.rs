use percentile_kit::CachePadded;

#[test]
fn padded_size_is_at_least_one_cache_line() {
    assert!(std::mem::size_of::<CachePadded<u64>>() >= 64);
}

#[test]
fn deref_reads_inner() {
    let cell = CachePadded::new(7u64);
    assert_eq!(*cell, 7);
}

#[test]
fn get_and_field_read_the_same_value() {
    let cell = CachePadded::new(41u32);
    assert_eq!(*cell.get(), 41);
    assert_eq!(cell.0, 41);
}
