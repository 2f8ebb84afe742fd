use ordsearch::prefetch_mask;

#[test]
fn check_mask() {
    assert_eq!(prefetch_mask(0), 0b000);
    assert_eq!(prefetch_mask(1), 0b001);
    assert_eq!(prefetch_mask(2), 0b011);
    assert_eq!(prefetch_mask(3), 0b011);
    assert_eq!(prefetch_mask(4), 0b111);
    assert_eq!(prefetch_mask(usize::MAX), usize::MAX);
}

#[test]
fn mask_larger_table() {
    assert_eq!(prefetch_mask(5), 0b111);
    assert_eq!(prefetch_mask(7), 0b111);
    assert_eq!(prefetch_mask(8), 0b1111);
    assert_eq!(prefetch_mask(1000), 1023);
    assert_eq!(prefetch_mask(1024), 2047);
}
