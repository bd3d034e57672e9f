use blueos::klibc;
use blueos::string;

#[test]
fn klibc_test_memset() {
    let mut array: Vec<u8> = vec![0; 4];
    klibc::memset(&mut array, b'a', 2);
    assert_eq!(array, vec![b'a', b'a', 0, 0]);
}

#[test]
fn test_strcasecmp() {
    let a = b"abc\0";
    let b = b"AbC\0";
    let result = klibc::strcasecmp(a, b);
    assert_eq!(result, 0);

    let a = b"123\0";
    let b = b"x12\0";
    let result = klibc::strcasecmp(a, b);
    assert!(result < 0);

    let a = b"bbb\0";
    let b = b"aaa\0";
    let result = klibc::strcasecmp(a, b);
    assert!(result > 0);
}

#[test]
fn klibc_test_strncmp() {
    let a = b"123\0";
    let b = b"1234\0";
    let result = klibc::strncmp(a, b, 3);
    assert_eq!(result, 0);

    let a = b"123\0";
    let b = b"x1234\0";
    let result = klibc::strncmp(a, b, 3);
    assert!(result < 0);

    let a = b"bbbbb\0";
    let b = b"aaaaa\0";
    let result = klibc::strncmp(a, b, 3);
    assert!(result > 0);
}

#[test]
fn klibc_test_strlen() {
    assert_eq!(klibc::strlen(b"\0"), 0);
    assert_eq!(klibc::strlen(b"Blue\0"), 4);
}

#[test]
fn klibc_test_strstr_no() {
    let needle = b"abcd\0";
    let haystack = b"efghi\0";
    assert_eq!(klibc::strstr(haystack, needle), None);
}

#[test]
fn klibc_test_strstr_start() {
    let needle = b"abc\0";
    let haystack = b"abcdefghi\0";
    assert_eq!(klibc::strstr(haystack, needle), Some(0));
}

#[test]
fn klibc_test_strstr_partial() {
    let needle = b"abcdefghij\0";
    let haystack = b"abcdefghi\0";
    assert_eq!(klibc::strstr(haystack, needle), None);
}

#[test]
fn klibc_strstr_finds_first_place() {
    assert_eq!(klibc::strstr(b"abcdefghi\0", b"def\0"), Some(3));
    assert_eq!(klibc::strstr(b"abcdefghi\0", b"ghi\0"), Some(6));
    assert_eq!(klibc::strstr(b"abab\0", b"ab\0"), Some(0));
    assert_eq!(klibc::strstr(b"xyz\0", b"\0"), Some(0));
}

#[test]
fn klibc_test_strncpy() {
    let src = b"hi\0";
    let mut dest: Vec<u8> = b"abcdef".to_vec();
    klibc::strncpy(&mut dest, src, 5);
    assert_eq!(&dest[..6], b"hi\0\0\0f");
}

#[test]
fn klibc_memcpy_memmove_memcmp() {
    let mut dst = vec![9u8; 5];
    klibc::memcpy(&mut dst, &[1, 2, 3], 3);
    assert_eq!(dst, vec![1, 2, 3, 9, 9]);
    let mut buf = vec![1u8, 2, 3, 4, 5];
    klibc::memmove(&mut buf, 1, 0, 3);
    assert_eq!(buf, vec![1, 1, 2, 3, 5]);
    assert_eq!(klibc::memcmp(&[1, 2, 3], &[1, 2, 4], 3), -1);
    assert_eq!(klibc::memcmp(&[1, 2, 3], &[1, 2, 4], 2), 0);
    assert_eq!(klibc::memcmp(&[5], &[1], 1), 4);
}

#[test]
fn klibc_memchr_strnlen_strdup_strcpy_strcmp() {
    assert_eq!(klibc::memchr(&[7, 3, 9, 3], 3, 4), Some(1));
    assert_eq!(klibc::memchr(&[7, 3, 9, 3], 5, 4), None);
    assert_eq!(klibc::memchr(&[7, 3, 9, 4], 4, 3), None);
    assert_eq!(klibc::strnlen(b"hello\0", 10), 5);
    assert_eq!(klibc::strnlen(b"hello\0", 3), 4);
    assert_eq!(klibc::strdup(b"ab\0"), b"ab\0".to_vec());
    let mut dst = vec![7u8; 5];
    klibc::strcpy(&mut dst, b"ab\0");
    assert_eq!(dst, vec![b'a', b'b', 0, 7, 7]);
    assert_eq!(klibc::strcmp(b"abc\0", b"abc\0"), 0);
    assert!(klibc::strcmp(b"abc\0", b"abd\0") < 0);
    assert!(klibc::strcmp(b"abcd\0", b"abc\0") > 0);
    assert_eq!(klibc::strcasecmp(b"ABC\0", b"abd\0"), -1);
}

#[test]
fn string_memset_memcpy_memmove() {
    let mut s = vec![0u8; 4];
    string::memset(&mut s, 0x141, 3);
    assert_eq!(s, vec![0x41, 0x41, 0x41, 0]);
    let mut d = vec![0u8; 3];
    string::memcpy(&mut d, b"xyz", 2);
    assert_eq!(d, vec![b'x', b'y', 0]);
    let mut b = b"abcdef".to_vec();
    string::memmove(&mut b, 2, 0, 3);
    assert_eq!(b, b"ababcf".to_vec());
    assert_eq!(string::memcmp(b"abc", b"abd", 3), -1);
    assert_eq!(string::memcmp(b"abc", b"abd", 2), 0);
}

#[test]
fn string_strncpy_strlen_strnlen() {
    let mut buf = vec![b'x'; 10];
    string::strncpy(&mut buf, b"hello\0", 10);
    assert_eq!(&buf[..6], b"hello\0");
    assert_eq!(buf[9], 0);
    let mut buf2 = vec![b'x'; 4];
    let end = string::stpncpy(&mut buf2, b"hi\0", 4);
    assert_eq!(end, 2);
    assert_eq!(buf2, vec![b'h', b'i', 0, 0]);
    assert_eq!(string::strlen(b"hello\0"), 5);
    assert_eq!(string::strnlen(b"hello\0", 10), 5);
    assert_eq!(string::strnlen(b"hello\0", 3), 3);
    let mut it = string::NulTerminated::new(b"ab\0cd");
    assert_eq!(it.next(), Some(&b'a'));
    assert_eq!(it.next(), Some(&b'b'));
    assert_eq!(it.next(), None);
}

#[test]
fn test_memcpy() {
    let src: [u8; 5] = [1, 2, 3, 4, 5];
    let mut dst: Vec<u8> = vec![0; 5];
    string::memcpy(&mut dst, &src, 5);
    assert_eq!(dst, [1, 2, 3, 4, 5]);
}

#[test]
fn string_test_memset() {
    let mut buf: Vec<u8> = vec![1, 2, 3, 4, 5];
    string::memset(&mut buf, 0, 5);
    assert_eq!(buf, [0, 0, 0, 0, 0]);
}

#[test]
fn test_memcmp() {
    let a: [u8; 5] = [1, 2, 3, 4, 5];
    let b: [u8; 5] = [1, 2, 3, 4, 5];
    let c: [u8; 5] = [1, 2, 3, 4, 6];
    assert_eq!(string::memcmp(&a, &b, 5), 0);
    assert_eq!(string::memcmp(&a, &c, 5), -1);
    assert_eq!(string::memcmp(&c, &a, 5), 1);
}

#[test]
fn test_memmove() {
    let mut data: Vec<u8> = vec![1, 2, 3, 4, 5];
    string::memmove(&mut data, 1, 0, 4);
    assert_eq!(data, [1, 1, 2, 3, 4]);
}

#[test]
fn string_test_strncpy() {
    let src = b"hello\0";
    let mut dst: Vec<u8> = vec![0; 10];
    string::strncpy(&mut dst, src, 3);
    assert_eq!(dst[0], b'h');
    assert_eq!(dst[1], b'e');
    assert_eq!(dst[2], b'l');
    assert_eq!(dst[3], 0);
}

#[test]
fn string_test_strlen() {
    assert_eq!(string::strlen(b"hello\0"), 5);
    assert_eq!(string::strlen(b"\0"), 0);
}

#[test]
fn test_strnlen() {
    assert_eq!(string::strnlen(b"hello\0", 10), 5);
    assert_eq!(string::strnlen(b"hello\0", 3), 3);
    assert_eq!(string::strnlen(b"\0", 10), 0);
}
