use chip8::bytes::{ByteList, ToSlice};
use chip8::display::format_registers;

fn styled(regs: u128) -> String {
    let mut regs = format!("{regs:032x}");
    for i in (0..regs.len() / 2).rev() {
        regs.insert_str(
            i * 2,
            if i % 2 == 0 {
                "\x1B[0m\x1B[1;39;49m"
            } else {
                "\x1B[0m\x1B[2;39;49m"
            },
        );
    }
    regs + "\x1B[0m"
}

#[test]
fn register_text_styles_each_byte() {
    for regs in [0u128, 1, 0x0123_4567_89ab_cdef_fedc_ba98_7654_3210, u128::MAX] {
        assert_eq!(format_registers(regs), styled(regs));
    }
}

#[test]
fn integers_encode_big_endian() {
    assert_eq!(<u16 as ByteList>::to_list(0x1234).to_slice(), &[0x12, 0x34]);
    assert_eq!(<u32 as ByteList>::to_list(0x0102_0304), [1, 2, 3, 4]);
    assert_eq!(<u8 as ByteList>::to_list(7), [7]);
    assert_eq!(<u64 as ByteList>::to_list(1), [0, 0, 0, 0, 0, 0, 0, 1]);
    assert_eq!(<u128 as ByteList>::to_list(1 << 120)[0], 1);
    assert_eq!(<u16 as ByteList>::from(&[0xAB, 0xCD, 0xEF]), Some(0xABCD));
    assert_eq!(<u16 as ByteList>::from(&[0xAB]), None);
    assert_eq!(<u64 as ByteList>::from(&[0, 0, 0, 0, 0, 0, 1, 0]), Some(256));
    assert_eq!(<u128 as ByteList>::from(&[0xFF; 16]), Some(u128::MAX));
    assert_eq!(<u8 as ByteList>::from(&[]), None);
    assert_eq!(<u32 as ByteList>::from(&[0, 0, 1, 0]), Some(256));
}

#[test]
fn byte_arrays_take_exact_lengths() {
    assert_eq!(<[u8; 3] as ByteList>::from(&[1, 2, 3]), Some([1, 2, 3]));
    assert_eq!(<[u8; 3] as ByteList>::from(&[1, 2, 3, 4]), None);
    assert_eq!(<[u8; 3] as ByteList>::from(&[1, 2]), None);
    assert_eq!([4u8, 5].to_list(), [4, 5]);
    assert_eq!([4u8, 5].to_slice(), &[4, 5]);
}
