use lib::pool::{poolBytesToAllocateFor, STRING_POOL, INIT_BLOCK_SIZE};

#[test]
fn test_pool_bytes_to_allocate_for() {
    assert_eq!(poolBytesToAllocateFor(1024), 1024 + 12);
    assert_eq!(poolBytesToAllocateFor(0), 0);
    assert_eq!(poolBytesToAllocateFor(-5), 0);
    assert_eq!(poolBytesToAllocateFor(i32::MAX), 0);
    assert_eq!(poolBytesToAllocateFor(i32::MAX - 12), i32::MAX as usize);
    assert_eq!(poolBytesToAllocateFor(i32::MAX - 11), 0);
    assert_eq!(INIT_BLOCK_SIZE, 1024);
}

#[test]
fn test_store_and_finish_strings() {
    let mut p = STRING_POOL::poolInit();
    let a = p.poolStoreString(b"abc").unwrap();
    assert_eq!(a, 0);
    p.poolFinish();
    let b = p.poolCopyString(b"de").unwrap();
    assert_eq!(b, 4);
    assert_eq!(p.chars(), b"abc\0de\0");
    assert_eq!(p.poolStart(), 7);
}

#[test]
fn test_append_chop_discard() {
    let mut p = STRING_POOL::poolInit();
    p.poolCopyString(b"kept").unwrap();
    p.poolAppend(b"xyz").unwrap();
    assert!(p.poolAppendChar(b'!'));
    assert_eq!(p.poolLength(), 4);
    assert_eq!(p.poolLastChar(), b'!');
    p.poolChop();
    assert_eq!(p.poolLength(), 3);
    assert_eq!(p.poolLastChar(), b'z');
    p.poolDiscard();
    assert_eq!(p.poolLength(), 0);
    assert_eq!(p.chars(), b"kept\0");
}

#[test]
fn test_copy_string_n_and_no_finish() {
    let mut p = STRING_POOL::poolInit();
    let s = p.poolCopyStringN(b"abcdef", 3).unwrap();
    assert_eq!(s, 0);
    assert_eq!(p.chars(), b"abc");
    let t = p.poolCopyStringNoFinish(b"gh").unwrap();
    assert_eq!(t, 3);
    assert_eq!(p.chars(), b"abcgh\0");
    assert_eq!(p.poolLength(), 3);
}

#[test]
fn test_long_strings_move_to_bigger_blocks() {
    let mut p = STRING_POOL::poolInit();
    p.poolCopyString(b"first").unwrap();
    let long: Vec<u8> = (0..5000u32).map(|i| b'a' + (i % 26) as u8).collect();
    let s = p.poolStoreString(&long).unwrap();
    assert_eq!(s, 6);
    assert_eq!(&p.chars()[6..6 + 5000], &long[..]);
    assert_eq!(p.poolLength(), 5001);
}

#[test]
fn test_clear_empties_pool() {
    let mut p = STRING_POOL::poolInit();
    p.poolCopyString(b"one").unwrap();
    p.poolClear();
    assert_eq!(p.chars(), b"");
    assert_eq!(p.poolStart(), 0);
    p.poolCopyString(b"two").unwrap();
    assert_eq!(p.chars(), b"two\0");
}

#[test]
fn test_pool_grow_gives_room() {
    let mut p = STRING_POOL::poolInit();
    assert!(p.poolGrow());
    assert!(p.poolAppendChar(b'q'));
    assert_eq!(p.poolLength(), 1);
}

#[test]
fn test_pool_grow_with_room_left() {
    let mut p = STRING_POOL::poolInit();
    assert!(p.poolAppendChar(b'a'));
    assert!(p.poolAppendChar(b'b'));
    // The block still has room; growing keeps the string being built.
    assert!(p.poolGrow());
    assert!(p.poolGrow());
    assert_eq!(p.poolLength(), 2);
    assert!(p.poolAppendChar(b'c'));
    assert_eq!(p.poolLength(), 3);
}
