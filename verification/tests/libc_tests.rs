use blueos::libc;

#[test]
fn mod_test_memset() {
    let mut array: Vec<u8> = vec![0; 4];
    libc::memset(&mut array, b'a' as i32, 2);
    assert_eq!(array, [b'a', b'a', 0, 0]);
}

#[test]
fn libc_memset_takes_the_low_byte() {
    let mut array: Vec<u8> = vec![9; 3];
    libc::memset(&mut array, 0x141, 3);
    assert_eq!(array, [0x41, 0x41, 0x41]);
}

#[test]
fn mod_test_strncmp() {
    assert_eq!(libc::strncmp(b"123\0", b"1234\0", 3), 0);
    assert!(libc::strncmp(b"123\0", b"x1234\0", 3) < 0);
    assert!(libc::strncmp(b"bbbbb\0", b"aaaaa\0", 3) > 0);
}

#[test]
fn mod_test_strlen() {
    assert_eq!(libc::strlen(b"\0"), 0);
    assert_eq!(libc::strlen(b"Blue\0"), 4);
}

#[test]
fn mod_test_strstr_no() {
    assert_eq!(libc::strstr(b"efghi\0", b"abcd\0"), None);
}

#[test]
fn mod_test_strstr_start() {
    assert_eq!(libc::strstr(b"abcdefghi\0", b"abc\0"), Some(0));
}

#[test]
fn mod_test_strstr_middle() {
    assert_eq!(libc::strstr(b"abcdefghi\0", b"def\0"), Some(3));
}

#[test]
fn mod_test_strstr_end() {
    assert_eq!(libc::strstr(b"abcdefghi\0", b"ghi\0"), Some(6));
}

#[test]
fn mod_test_strstr_partial() {
    assert_eq!(libc::strstr(b"abcdefghi\0", b"abcdefghij\0"), None);
}

#[test]
fn libc_strstr_empty_needle() {
    assert_eq!(libc::strstr(b"abc\0", b"\0"), Some(0));
    // an empty haystack holds nothing, not even the empty string
    assert_eq!(libc::strstr(b"\0", b"\0"), None);
}

#[test]
fn mod_test_strncpy() {
    let mut dest: Vec<u8> = b"abcdef".to_vec();
    libc::strncpy(&mut dest, b"hi\0", 5);
    // two bytes of data, 3 bytes of zeros (= 5 bytes total), plus one byte unchanged
    assert_eq!(dest, *b"hi\0\0\0f");
}

#[test]
fn libc_stpncpy_returns_where_it_stopped() {
    let mut dest: Vec<u8> = b"abcdef".to_vec();
    assert_eq!(libc::stpncpy(&mut dest, b"hi\0", 5), 2);
    assert_eq!(dest, *b"hi\0\0\0f");
    let mut dest: Vec<u8> = b"abcdef".to_vec();
    assert_eq!(libc::stpncpy(&mut dest, b"hello\0", 3), 3);
    assert_eq!(dest, *b"heldef");
}

#[test]
fn libc_strnlen_strndup_strdup_strcpy() {
    assert_eq!(libc::strnlen(b"hello\0", 3), 3);
    assert_eq!(libc::strnlen(b"hello\0", 10), 5);
    assert_eq!(libc::strnlen(b"abc", 2), 2);
    assert_eq!(libc::strndup(b"hello\0", 3), b"hel\0".to_vec());
    assert_eq!(libc::strndup(b"hi\0", 8), b"hi\0".to_vec());
    assert_eq!(libc::strdup(b"blue\0os"), b"blue\0".to_vec());
    let mut dst: Vec<u8> = vec![7; 6];
    libc::strcpy(&mut dst, b"abc\0");
    assert_eq!(dst, [b'a', b'b', b'c', 0, 7, 7]);
}

#[test]
fn libc_strcmp_and_strcasecmp() {
    assert_eq!(libc::strcmp(b"abc\0", b"abc\0"), 0);
    assert_eq!(libc::strcmp(b"abd\0", b"abc\0"), 1);
    assert_eq!(libc::strcmp(b"ab\0", b"abc\0"), -(b'c' as i32));
    assert_eq!(libc::strcasecmp(b"abc\0", b"AbC\0"), 0);
    assert_eq!(libc::strcasecmp(b"b\0", b"A\0"), 1);
    // the difference is taken as a byte
    assert_eq!(libc::strcasecmp(b"a\0", b"B\0"), 255);
}

#[test]
fn libc_memchr_and_memmove() {
    assert_eq!(libc::memchr(b"hello", b'l' as i32, 5), Some(2));
    assert_eq!(libc::memchr(b"hello", 0x16c, 5), Some(2));
    assert_eq!(libc::memchr(b"hello", b'o' as i32, 4), None);
    let mut mem: Vec<u8> = vec![1, 2, 3, 4, 5, 6];
    libc::memmove(&mut mem, 2, 0, 3);
    assert_eq!(mem, [1, 2, 1, 2, 3, 6]);
    let mut mem: Vec<u8> = vec![1, 2, 3, 4, 5, 6];
    libc::memmove(&mut mem, 0, 2, 3);
    assert_eq!(mem, [3, 4, 5, 4, 5, 6]);
}

#[test]
fn libc_memcpy_in_chunks() {
    let src: Vec<u8> = (0..40u8).collect();
    for (a1, a2) in [(0usize, 0usize), (1, 3), (2, 6), (4, 12), (8, 24), (3, 3)] {
        for n in [0usize, 1, 7, 16, 33, 40] {
            let mut dst: Vec<u8> = vec![0xee; 40];
            libc::memcpy(&mut dst, a1, &src, a2, n);
            assert_eq!(&dst[..n], &src[..n]);
            assert!(dst[n..].iter().all(|&b| b == 0xee));
        }
    }
}

#[test]
fn libc_memcmp_words_then_bytes() {
    let a: Vec<u8> = (0..20u8).collect();
    let mut b = a.clone();
    assert_eq!(libc::memcmp(&a, &b, 20), 0);
    b[13] = 200;
    assert_eq!(libc::memcmp(&a, &b, 20), 13 - 200);
    assert_eq!(libc::memcmp(&a, &b, 13), 0);
    b[2] = 0;
    assert_eq!(libc::memcmp(&a, &b, 20), 2);
}
