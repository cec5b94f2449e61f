use mmtk_julia::memory::{offset_back, offset_by, offset_words, Memory};
use mmtk_julia::text::{append_decimal, append_hex, append_signed};

#[test]
fn addresses_wrap_around() {
    assert_eq!(offset_by(u64::MAX, 1), 0);
    assert_eq!(offset_back(0, 8), u64::MAX - 7);
    assert_eq!(offset_words(0x100, 3), 0x118);
}

#[test]
fn words_are_kept_with_the_low_byte_first() {
    let mut memory = Memory::new();
    assert!(!memory.is_readable(0x10));
    assert_eq!(memory.load_u64(0x10), 0);
    memory.store_u64(0x10, 0x8877_6655_4433_2211);
    // An address is readable where all of a word is.
    assert!(memory.is_readable(0x10));
    assert!(!memory.is_readable(0xf));
    assert!(!memory.is_readable(0x11));
    assert!(!memory.is_readable(0x17));
    memory.store_u8(0x18, 0);
    assert!(memory.is_readable(0x11));
    assert!(!memory.is_readable(0x12));
    assert_eq!(memory.load_u8(0x10), 0x11);
    assert_eq!(memory.load_u16(0x11), 0x3322);
    assert_eq!(memory.load_u32(0x14), 0x8877_6655);
    assert_eq!(memory.load_u64(0x10), 0x8877_6655_4433_2211);
    assert_eq!(memory.load_u64(0x14), 0x8877_6655);
    memory.store_u8(0x10, 0xff);
    assert_eq!(memory.load_u64(0x10), 0x8877_6655_4433_22ff);
}

#[test]
fn bytes_are_copied_and_wiped() {
    let mut memory = Memory::new();
    memory.store_u64(0x10, 77);
    memory.copy_bytes(0x10, 0x100, 8);
    assert_eq!(memory.load_u64(0x100), 77);
    memory.zero_bytes(0x10, 8);
    assert_eq!(memory.load_u64(0x10), 0);
    assert!(memory.is_readable(0x10));
    assert_eq!(memory.load_u64(0x100), 77);
}

#[test]
fn numbers_are_written_out() {
    let mut text = String::from("n=");
    append_hex(&mut text, 0xdead_beef);
    append_decimal(&mut text, 1090);
    append_signed(&mut text, -7);
    append_signed(&mut text, 0);
    append_signed(&mut text, i32::MIN);
    assert_eq!(text, "n=0xdeadbeef1090-70-2147483648");
    let mut largest = String::new();
    append_hex(&mut largest, u64::MAX);
    append_decimal(&mut largest, u64::MAX);
    assert_eq!(largest, "0xffffffffffffffff18446744073709551615");
}
