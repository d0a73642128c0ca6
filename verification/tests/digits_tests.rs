use quiz_board::digits::dec_string;

#[test]
fn decimal_rendering_is_exact() {
    assert_eq!(dec_string(0), "0");
    assert_eq!(dec_string(7), "7");
    assert_eq!(dec_string(10), "10");
    assert_eq!(dec_string(200), "200");
    assert_eq!(dec_string(1000), "1000");
    assert_eq!(dec_string(987654321), "987654321");
    assert_eq!(dec_string(u64::MAX), "18446744073709551615");
}
