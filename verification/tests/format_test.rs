use cdb64::HEADER_SIZE;

#[test]
fn test_header_size_value() {
    assert_eq!(HEADER_SIZE, 256 * 8 * 2);
}
