use sim_core::text::tagged;

#[test]
fn tags_write_ids_in_plain_decimal() {
    assert_eq!(tagged("x:", 0), "x:0");
    assert_eq!(tagged("x:", 9), "x:9");
    assert_eq!(tagged("x:", 10), "x:10");
    assert_eq!(tagged("traits:", 42), "traits:42");
    assert_eq!(tagged("", u64::MAX), "18446744073709551615");
}
