use splengine::util::pad::{Left, Right};
use splengine::util::{HexToBytes, HexToBytesError};

#[test]
fn left_padded() {
    let expected = [&[0u8; 31], b"A" as &[u8]].concat();
    let actual = b"A".pad_left::<32>().to_vec();
    assert_eq!(expected, actual);
}

#[test]
fn hexbytes() {
    assert_eq!(0x10203040u32.hex_to_bytes(), &[0x10u8, 0x20u8, 0x30u8, 0x40u8]);
}

#[test]
fn right_padded_hexbytes() {
    assert_eq!(
        &(0x12030i32.hex_to_bytes().pad_right::<4>()) as &[u8],
        &[0x01, 0x20, 0x30, 0]
    )
}

#[test]
fn pad_left_puts_zeros_before_a_shorter_input() {
    assert_eq!([1u8, 2, 3].pad_left::<5>(), [0, 0, 1, 2, 3]);
    assert_eq!(vec![1u8, 2, 3].pad_left::<5>(), [0, 0, 1, 2, 3]);
}

#[test]
fn pad_left_drops_the_first_bytes_of_a_longer_input() {
    assert_eq!([1u8, 2, 3, 4, 5].pad_left::<3>(), [3, 4, 5]);
    assert_eq!(vec![1u8, 2, 3, 4, 5].pad_left::<1>(), [5]);
}

#[test]
fn pad_right_puts_zeros_after_a_shorter_input() {
    assert_eq!([1u8, 2, 3].pad_right::<5>(), [1, 2, 3, 0, 0]);
    assert_eq!(vec![1u8, 2, 3].pad_right::<5>(), [1, 2, 3, 0, 0]);
}

#[test]
fn pad_right_drops_the_last_bytes_of_a_longer_input() {
    assert_eq!([1u8, 2, 3, 4, 5].pad_right::<3>(), [1, 2, 3]);
    assert_eq!(vec![1u8, 2, 3, 4, 5].pad_right::<1>(), [1]);
}

#[test]
fn padding_keeps_an_input_of_the_same_width() {
    assert_eq!([7u8, 8, 9].pad_left::<3>(), [7, 8, 9]);
    assert_eq!([7u8, 8, 9].pad_right::<3>(), [7, 8, 9]);
}

#[test]
fn padding_an_empty_input_gives_zeros() {
    let empty: Vec<u8> = Vec::new();
    assert_eq!(empty.clone().pad_left::<4>(), [0, 0, 0, 0]);
    assert_eq!(empty.pad_right::<4>(), [0, 0, 0, 0]);
}

#[test]
fn padding_to_no_width_gives_nothing() {
    assert_eq!([1u8, 2].pad_left::<0>(), [0u8; 0]);
    assert_eq!([1u8, 2].pad_right::<0>(), [0u8; 0]);
}

#[test]
fn hex_of_zero_is_one_zero_byte() {
    assert_eq!(0u8.hex_to_bytes(), vec![0u8]);
    assert_eq!(0u64.hex_to_bytes(), vec![0u8]);
    assert_eq!(0i32.hex_to_bytes(), vec![0u8]);
}

#[test]
fn hex_with_an_odd_number_of_digits_fills_the_first_byte() {
    assert_eq!(0xabcu16.hex_to_bytes(), vec![0x0a, 0xbc]);
    assert_eq!(0xfu8.hex_to_bytes(), vec![0x0f]);
    assert_eq!(0x100u32.hex_to_bytes(), vec![0x01, 0x00]);
}

#[test]
fn hex_drops_leading_zero_bytes() {
    assert_eq!(0x0000_00ffu32.hex_to_bytes(), vec![0xff]);
    assert_eq!(0x0001_0000u64.hex_to_bytes(), vec![0x01, 0x00, 0x00]);
}

#[test]
fn hex_of_a_negative_number_is_its_twos_complement() {
    assert_eq!((-1i8).hex_to_bytes(), vec![0xff]);
    assert_eq!((-2i16).hex_to_bytes(), vec![0xff, 0xfe]);
    assert_eq!((-1i32).hex_to_bytes(), vec![0xff; 4]);
    assert_eq!(i32::MIN.hex_to_bytes(), vec![0x80, 0, 0, 0]);
    assert_eq!((-1i64).hex_to_bytes(), vec![0xff; 8]);
    assert_eq!((-1i128).hex_to_bytes(), vec![0xff; 16]);
    assert_eq!(i128::MIN.hex_to_bytes()[0], 0x80);
    assert_eq!((-1isize).hex_to_bytes(), vec![0xff; std::mem::size_of::<isize>()]);
}

#[test]
fn hex_of_the_widest_numbers() {
    assert_eq!(u128::MAX.hex_to_bytes(), vec![0xff; 16]);
    assert_eq!(u64::MAX.hex_to_bytes(), vec![0xff; 8]);
    assert_eq!(usize::MAX.hex_to_bytes(), vec![0xff; std::mem::size_of::<usize>()]);
    assert_eq!(
        0x0123_4567_89ab_cdef_0123_4567_89ab_cdefu128.hex_to_bytes(),
        vec![
            0x01, 0x23, 0x45, 0x67, 0x89, 0xab, 0xcd, 0xef, 0x01, 0x23, 0x45, 0x67, 0x89, 0xab,
            0xcd, 0xef
        ]
    );
}

#[test]
fn hex_bytes_agree_with_the_hexadecimal_text() {
    let numbers = [0u32, 1, 15, 16, 255, 256, 4095, 4096, 65535, 65536, 0xdead_beef];
    for n in numbers {
        let mut text = format!("{:x}", n);
        if text.len() % 2 == 1 {
            text = format!("0{}", text);
        }
        let expected: Vec<u8> = (0..text.len() / 2)
            .map(|i| u8::from_str_radix(&text[2 * i..2 * i + 2], 16).unwrap())
            .collect();
        assert_eq!(n.hex_to_bytes(), expected);
    }
}

#[test]
fn a_parse_error_becomes_a_hex_error() {
    let error = "zz".parse::<u8>().unwrap_err();
    let converted = HexToBytesError::from(error.clone());
    assert!(matches!(converted, HexToBytesError::ParseError(e) if e == error));
}

#[test]
fn a_decoding_error_becomes_a_hex_error() {
    let error = String::from_utf8(vec![0xff]).unwrap_err();
    let converted: HexToBytesError = error.clone().into();
    assert!(matches!(converted, HexToBytesError::UTF8Error(e) if e == error));
}
