//! The guest's memory.
use touchhle::mem::{offset, Mem, HEAP_END, NULL_PAGE_END};

#[test]
fn words_read_back() {
    let mut mem = Mem::new(0x10000);
    mem.write_u8(0x2000, 0xAB);
    assert_eq!(mem.read_u8(0x2000), 0xAB);
    mem.write_u16(0x2010, 0xBEEF);
    assert_eq!(mem.read_u16(0x2010), 0xBEEF);
    assert_eq!(mem.read_u8(0x2010), 0xEF);
    assert_eq!(mem.read_u8(0x2011), 0xBE);
    mem.write_u32(0x2020, 0x1234_5678);
    assert_eq!(mem.read_u32(0x2020), 0x1234_5678);
    assert_eq!(mem.read_u8(0x2020), 0x78);
    assert_eq!(mem.read_u16(0x2022), 0x1234);
    mem.write_u64(0x2030, 0x0102_0304_0506_0708);
    assert_eq!(mem.read_u64(0x2030), 0x0102_0304_0506_0708);
    assert_eq!(mem.read_u32(0x2030), 0x0506_0708);
    assert_eq!(mem.read_u32(0x2034), 0x0102_0304);
}

#[test]
fn null_page_reads_as_zero() {
    let mut mem = Mem::new(0x10000);
    mem.write_u32(0, 0xFFFF_FFFF);
    mem.write_u8(NULL_PAGE_END - 1, 7);
    assert_eq!(mem.read_u32(0), 0);
    assert_eq!(mem.read_u8(NULL_PAGE_END - 1), 0);
    mem.write_u8(NULL_PAGE_END, 7);
    assert_eq!(mem.read_u8(NULL_PAGE_END), 7);
    // A word that reaches into the null page loses what lies there.
    mem.write_u32(NULL_PAGE_END - 2, 0x1122_3344);
    assert_eq!(mem.read_u32(NULL_PAGE_END - 2), 0x1122_0000);
}

#[test]
fn addresses_wrap_around() {
    let mut mem = Mem::new(0x10000);
    assert_eq!(offset(0xFFFF_FFFF, 2), 1);
    mem.write_u32(0xFFFF_FFFE, 0x1122_3344);
    assert_eq!(mem.read_u16(0xFFFF_FFFE), 0x3344);
    // The upper half would be in the null page.
    assert_eq!(mem.read_u32(0xFFFF_FFFE), 0x3344);
}

#[test]
fn unwritten_memory_is_zero() {
    let mem = Mem::new(0x10000);
    assert_eq!(mem.read_u64(0x5000), 0);
    assert_eq!(mem.bytes_at(0x5000, 3), vec![0, 0, 0]);
}

#[test]
fn strings_read_back() {
    let mut mem = Mem::new(0x10000);
    mem.write_cstr(0x3000, &b"hello".to_vec());
    assert_eq!(mem.cstr_at(0x3000), b"hello".to_vec());
    assert_eq!(mem.cstr_at(0x3002), b"llo".to_vec());
    assert_eq!(mem.read_u8(0x3005), 0);
    assert_eq!(mem.cstr_at(0), Vec::<u8>::new());
    // The end of the address space ends a string.
    mem.write_bytes(0xFFFF_FFFE, &b"ab".to_vec());
    assert_eq!(mem.cstr_at(0xFFFF_FFFE), b"ab".to_vec());
    mem.write_words(0x4000, &vec![0x41, 0x1F600, 0]);
    assert_eq!(mem.wcstr_at(0x4000), vec![0x41, 0x1F600]);
    assert_eq!(mem.bytes_at(0x3000, 4), b"hell".to_vec());
}

#[test]
fn blocks_do_not_overlap() {
    let mut mem = Mem::new(0x10000);
    assert_eq!(mem.next_block(), 0x10000);
    let a = mem.allocate(1);
    let b = mem.allocate(16);
    let c = mem.allocate(17);
    let d = mem.allocate(0);
    let e = mem.allocate(4);
    assert_eq!((a, b, c, d, e), (0x10000, 0x10010, 0x10020, 0x10040, 0x10050));
    let word = mem.alloc_and_write_u32(42);
    assert_eq!(word, 0x10060);
    assert_eq!(mem.read_u32(word), 42);
    let text = mem.alloc_and_write_cstr(&b"x".to_vec());
    assert_eq!(mem.cstr_at(text), b"x".to_vec());
}

#[test]
fn heap_has_an_end() {
    let mem = Mem::new(HEAP_END - 32);
    assert!(mem.has_room(32));
    assert!(!mem.has_room(33));
    assert!(mem.has_room(0));
    let full = Mem::new(HEAP_END);
    assert!(!full.has_room(0));
}
