use clips::paths::join;
use clips::text::{
    chars_of, copy_wstr, encode_utf16, parse_number, push_decimal, push_padded, same_text,
    string_of, trim, wide,
};

#[test]
fn numbers_are_written() {
    let mut s = String::from("n=");
    push_decimal(&mut s, 0);
    push_decimal(&mut s, 18_446_744_073_709_551_615);
    assert_eq!(s, "n=018446744073709551615");
    let mut s = String::new();
    push_padded(&mut s, 7, 10, 3);
    push_padded(&mut s, 0xAB, 16, 2);
    push_padded(&mut s, 0xC, 16, 2);
    push_padded(&mut s, 12345, 10, 2);
    assert_eq!(s, "007AB0C12345");
}

#[test]
fn numbers_are_read() {
    let read = |s: &str, max| parse_number(&chars_of(s), max);
    assert_eq!(read("0", 10), Some(0));
    assert_eq!(read("+15", 100), Some(15));
    assert_eq!(read("101", 100), None);
    assert_eq!(read("", 100), None);
    assert_eq!(read("+", 100), None);
    assert_eq!(read("-1", 100), None);
    assert_eq!(read("1 ", 100), None);
    assert_eq!(read("18446744073709551615", u64::MAX), Some(u64::MAX));
    assert_eq!(read("18446744073709551616", u64::MAX), None);
    assert_eq!(read("00000000000000000000000000012", u64::MAX), Some(12));
}

#[test]
fn white_space_is_trimmed() {
    let t = |s: &str| string_of(trim(&chars_of(s)));
    assert_eq!(t("  a b \t\r\n"), "a b");
    assert_eq!(t("\u{3000}x\u{a0}"), "x");
    assert_eq!(t("   "), "");
    assert_eq!(t(""), "");
}

#[test]
fn texts_are_compared() {
    assert!(same_text("dxgi", "dxgi"));
    assert!(!same_text("dxgi", "dxg"));
    assert!(!same_text("Dxgi", "dxgi"));
    assert!(same_text("", ""));
}

#[test]
fn utf16_has_pairs_above_the_first_plane() {
    for s in ["", "abc", "Clips\u{20ac}", "\u{1F534} clips", "\u{10FFFF}\u{E000}\u{D7FF}"] {
        let expected: Vec<u16> = s.encode_utf16().collect();
        assert_eq!(encode_utf16(s), expected);
        let mut terminated = expected.clone();
        terminated.push(0);
        assert_eq!(wide(s), terminated);
    }
}

#[test]
fn buffers_are_filled_and_terminated() {
    let mut buf = [9u16; 6];
    copy_wstr(&mut buf, "ab");
    assert_eq!(buf, [97, 98, 0, 9, 9, 9]);
    copy_wstr(&mut buf, "abcdefgh");
    assert_eq!(buf, [97, 98, 99, 100, 101, 0]);
    let mut one = [9u16; 1];
    copy_wstr(&mut one, "abc");
    assert_eq!(one, [0]);
}

#[test]
fn paths_are_joined() {
    assert_eq!(join("C:\\Users\\me\\Videos", "Clips"), "C:\\Users\\me\\Videos\\Clips");
    assert_eq!(join("D:\\", "Clips"), "D:\\Clips");
    assert_eq!(join("", "Clips"), "Clips");
    assert_eq!(join("C:", "Clips"), "C:Clips");
    assert_eq!(join("1:", "Clips"), "1:\\Clips");
    assert_eq!(join("D:/a/", "Clips"), "D:/a/Clips");
    assert_eq!(join("\\\\nas\\share", "Clips"), "\\\\nas\\share\\Clips");
}

#[test]
fn verbatim_folders_are_written_anew() {
    for (dir, path) in [
        (r"\\?\C:\a/", r"\\?\C:\a/\Clips"),
        (r"\\?\C:\a\\b\", r"\\?\C:\a\b\Clips"),
        (r"\\?\C:", r"\\?\C:\Clips"),
        (r"\\?\C:/x", r"\\?\C:\x\Clips"),
        (r"\\?\Volume{1}\v", r"\\?\Volume{1}\v\Clips"),
        (r"\\?\UNC\nas\share\\d", r"\\?\UNC\nas\share\d\Clips"),
        (r"\\?\UNC\nas\", r"\\?\UNC\nas\Clips"),
        (r"\\?\UNC\nas", r"\\?\UNC\nas\Clips"),
        (r"\\?\C:\.\b", r"\\?\C:\.\b\Clips"),
    ] {
        assert_eq!(join(dir, "Clips"), path);
    }
    // With another separator it is not verbatim.
    assert_eq!(join("//?/C:/a/", "Clips"), "//?/C:/a/Clips");
}
