use kin_vfs::bytes::{
    bytes_eq, contains_byte, contains_slice, ends_with, find_byte, rfind_byte, split_bytes,
    starts_with, sub_vec,
};
use kin_vfs::sys;
use kin_vfs::text::{
    chars_of, contains_text, find_last_text, find_text, is_white_space, next_word, parse_number,
    parse_trimmed, push_digits, push_signed_decimal, split_lines, split_words, string_of, trim,
    trim_non_empty,
};

#[test]
fn numbers_are_written_and_read_in_base_ten() {
    for n in [0, 1, 9, 10, 4219, 65_535, u64::MAX] {
        let mut out = String::from("n=");
        push_digits(&mut out, n);
        assert_eq!(out, format!("n={n}"));
        assert_eq!(parse_number(&chars_of(&out[2..]), u64::MAX), Some(n));
    }
    for n in [0, 7, -1, i32::MAX, i32::MIN] {
        let mut out = Vec::new();
        push_signed_decimal(&mut out, n);
        assert_eq!(out, n.to_string().into_bytes());
    }
    assert_eq!(parse_number(&chars_of("+7"), 10), "+7".parse::<u64>().ok());
    assert_eq!(parse_number(&chars_of("007"), 10), Some(7));
    assert_eq!(parse_number(&chars_of("11"), 10), None);
    assert_eq!(parse_number(&chars_of("-1"), 10), None);
    assert_eq!(parse_number(&chars_of(""), 10), None);
    assert_eq!(parse_number(&chars_of("1 "), 10), None);
    assert_eq!(parse_number(&chars_of("99999999999999999999"), u64::MAX), None);
    assert_eq!(parse_trimmed("\t 42 \n", 100), Some(42));
}

#[test]
fn white_space_is_what_the_standard_library_calls_so() {
    for n in 0..=0x3100u32 {
        if let Some(c) = char::from_u32(n) {
            assert_eq!(is_white_space(c), c.is_whitespace(), "{n:#x}");
        }
    }
}

#[test]
fn texts_are_trimmed_and_split_like_standard_ones() {
    for text in ["", "  ", " a ", "a\u{3000}b\u{2003}", "\u{85}x\u{a0}", "one two\tthree\n"] {
        assert_eq!(string_of(&trim(&chars_of(text))), text.trim());
        assert_eq!(split_words(&chars_of(text)), text.split_whitespace().collect::<Vec<_>>());
        assert_eq!(
            trim_non_empty(text),
            Some(text.trim().to_string()).filter(|trimmed| !trimmed.is_empty())
        );
    }
    for text in ["", "\n", "a", "a\n", "a\r\nb", "a\n\nb\n", "a\r", "\r\n\r\n", "a\r\r\nb"] {
        assert_eq!(split_lines(text), text.lines().collect::<Vec<_>>(), "{text:?}");
    }
    let (word, rest) = next_word(&chars_of("  GET /x HTTP"));
    assert_eq!(string_of(&word), "GET");
    assert_eq!(string_of(&rest).trim_start(), "/x HTTP");
}

#[test]
fn texts_are_searched_from_both_ends() {
    let text = chars_of("a on b on c");
    let needle = chars_of(" on ");
    assert_eq!(find_text(&text, &needle, 0), 1);
    assert_eq!(find_text(&text, &needle, 2), 6);
    assert_eq!(find_last_text(&text, &needle), Some(6));
    assert_eq!(find_last_text(&text, &chars_of("zz")), None);
    assert!(contains_text(&text, &needle));
    assert!(!contains_text(&text, &chars_of(" off ")));
}

#[test]
fn bytes_are_searched_and_cut() {
    assert!(bytes_eq(b"ab", b"ab") && !bytes_eq(b"ab", b"abc"));
    assert!(starts_with(b"abc", b"ab") && !starts_with(b"a", b"ab"));
    assert!(ends_with(b"abc", b"bc") && !ends_with(b"c", b"bc"));
    assert!(contains_byte(b"a\0b", 0) && !contains_byte(b"ab", 0));
    assert!(contains_slice(b"xaby", b"ab") && contains_slice(b"x", b""));
    assert_eq!(find_byte(b"a/b/c", b'/', 2), Some(3));
    assert_eq!(find_byte(b"abc", b'/', 0), None);
    assert_eq!(rfind_byte(b"a/b/c", b'/', 3), Some(1));
    assert_eq!(rfind_byte(b"abc", b'/', 3), None);
    assert_eq!(sub_vec(b"abcd", 1, 3), b"bc");
    assert_eq!(split_bytes(b"a//b", b'/'), [b"a".to_vec(), Vec::new(), b"b".to_vec()]);
    assert_eq!(split_bytes(b"", b'/'), [Vec::<u8>::new()]);
}

#[test]
fn constants_are_those_of_the_platform() {
    assert_eq!(sys::O_RDONLY, libc::O_RDONLY);
    assert_eq!(sys::O_WRONLY, libc::O_WRONLY);
    assert_eq!(sys::O_RDWR, libc::O_RDWR);
    assert_eq!(sys::O_ACCMODE, libc::O_ACCMODE);
    assert_eq!(sys::O_CREAT, libc::O_CREAT);
    assert_eq!(sys::O_TRUNC, libc::O_TRUNC);
    assert_eq!(sys::O_CLOEXEC, libc::O_CLOEXEC);
    assert_eq!(sys::AT_FDCWD, libc::AT_FDCWD);
    assert_eq!(sys::AT_SYMLINK_NOFOLLOW, libc::AT_SYMLINK_NOFOLLOW);
    assert_eq!(sys::AT_EMPTY_PATH, libc::AT_EMPTY_PATH);
    assert_eq!((sys::R_OK, sys::W_OK, sys::X_OK), (libc::R_OK, libc::W_OK, libc::X_OK));
    assert_eq!((sys::LOCK_SH, sys::LOCK_EX), (libc::LOCK_SH, libc::LOCK_EX));
    assert_eq!((sys::LOCK_NB, sys::LOCK_UN), (libc::LOCK_NB, libc::LOCK_UN));
    assert_eq!(sys::MAP_SHARED, libc::MAP_SHARED);
    assert_eq!((sys::S_IFMT, sys::S_IFDIR), (libc::S_IFMT, libc::S_IFDIR));
    assert_eq!((sys::S_IFREG, sys::S_IFLNK), (libc::S_IFREG, libc::S_IFLNK));
    assert_eq!(sys::FD_CLOEXEC, libc::FD_CLOEXEC);
    assert_eq!(
        (sys::SEEK_SET, sys::SEEK_CUR, sys::SEEK_END),
        (libc::SEEK_SET, libc::SEEK_CUR, libc::SEEK_END)
    );
    assert_eq!((sys::ENOENT, sys::EIO, sys::EBADF), (libc::ENOENT, libc::EIO, libc::EBADF));
    assert_eq!((sys::EACCES, sys::ENOTDIR), (libc::EACCES, libc::ENOTDIR));
    assert_eq!((sys::EISDIR, sys::EINVAL), (libc::EISDIR, libc::EINVAL));
    assert_eq!((sys::EMFILE, sys::ELOOP), (libc::EMFILE, libc::ELOOP));
    assert_eq!((sys::ENOTSUP, sys::EINPROGRESS), (libc::ENOTSUP, libc::EINPROGRESS));
    assert_eq!(sys::EWOULDBLOCK, libc::EWOULDBLOCK);
    assert_eq!(sys::RLIM_INFINITY, libc::RLIM_INFINITY);
}
