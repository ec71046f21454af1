use lob::u64_to_vec_u8;

#[test]
fn test_u64_to_vec_u8() {
    let num = 344;
    let result: Vec<u8> = vec![0, 3, 4, 4];
    assert_eq!(result, u64_to_vec_u8(num, 4));
}

#[test]
fn digits_without_padding() {
    let result: Vec<u8> = vec![1, 2, 3, 4, 5];
    assert_eq!(result, u64_to_vec_u8(12345, 4));
}

#[test]
fn digits_of_zero_pad_to_width() {
    let result: Vec<u8> = vec![0, 0, 0];
    assert_eq!(result, u64_to_vec_u8(0, 3));
    let bare: Vec<u8> = vec![0];
    assert_eq!(bare, u64_to_vec_u8(0, 0));
}
