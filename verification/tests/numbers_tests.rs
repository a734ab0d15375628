use pong_core::numbers::print;

#[test]
fn print_yields_both_sequences() {
    assert_eq!(print(), vec![1u8, 2, 3, 4, 5, 1, 2, 3, 4, 5]);
}
