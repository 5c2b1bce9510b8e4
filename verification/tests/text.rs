use busman::paths::{file_name, join};
use busman::host::{read_sysfs_val_u16, read_sysfs_val_u32, read_sysfs_val_u8};
use busman::text::{decimal_i32, decimal_u32, split_lines, split_whitespace, trim};
use busman::wire::{fixed_length_buffer_from_str, string_from_fixed_length_buffer};

#[test]
fn trims_unicode_whitespace() {
    assert_eq!(trim("  480\n"), "480");
    assert_eq!(trim("\u{a0}\tx y\u{3000}"), "x y");
    assert_eq!(trim(" \n "), "");
    assert_eq!(trim(""), "");
}

#[test]
fn numerals() {
    let raw = |t: &str| -> Result<String, std::io::Error> { Ok(t.to_string()) };
    assert_eq!(read_sysfs_val_u8(raw("ff"), 16).unwrap(), 255);
    assert_eq!(read_sysfs_val_u8(raw("FF"), 16).unwrap(), 255);
    assert!(read_sysfs_val_u8(raw("100"), 16).is_err());
    assert_eq!(read_sysfs_val_u16(raw("+046d"), 16).unwrap(), 0x046d);
    assert!(read_sysfs_val_u16(raw(""), 10).is_err());
    assert!(read_sysfs_val_u16(raw("+"), 10).is_err());
    assert!(read_sysfs_val_u16(raw("-1"), 10).is_err());
    assert!(read_sysfs_val_u16(raw("1 2"), 10).is_err());
    assert_eq!(read_sysfs_val_u32(raw("4294967295"), 10).unwrap(), u32::MAX);
    assert!(read_sysfs_val_u32(raw("4294967296"), 10).is_err());
    assert!(read_sysfs_val_u32(raw("12a"), 10).is_err());
}

#[test]
fn decimals() {
    assert_eq!(decimal_u32(0), "0");
    assert_eq!(decimal_u32(7), "7");
    assert_eq!(decimal_u32(1230), "1230");
    assert_eq!(decimal_u32(u32::MAX), "4294967295");
    assert_eq!(decimal_i32(-5), "-5");
    assert_eq!(decimal_i32(i32::MIN), "-2147483648");
    assert_eq!(decimal_i32(42), "42");
}

#[test]
fn whitespace_words() {
    assert_eq!(split_whitespace("hs  0000 004\t000"), vec!["hs", "0000", "004", "000"]);
    assert_eq!(split_whitespace("   "), Vec::<String>::new());
    assert_eq!(split_whitespace("a"), vec!["a"]);
    assert_eq!(split_whitespace(" a b "), vec!["a", "b"]);
}

#[test]
fn text_lines() {
    assert_eq!(split_lines("a\nb\r\nc"), vec!["a", "b", "c"]);
    assert_eq!(split_lines("a\n\nb\n"), vec!["a", "", "b"]);
    assert_eq!(split_lines(""), Vec::<String>::new());
    assert_eq!(split_lines("\n"), vec![""]);
    assert_eq!(split_lines("x\r"), vec!["x\r"]);
}

#[test]
fn joins_like_pathbuf() {
    assert_eq!(join("/sys/bus/usb", "devices"), "/sys/bus/usb/devices");
    assert_eq!(join("/sys/", "bus"), "/sys/bus");
    assert_eq!(join("", "bus"), "bus");
    assert_eq!(join("/sys/bus/usb/devices", "/etc/passwd"), "/etc/passwd");
    for (base, comp) in [("/sys/bus/usb", "devices"), ("/sys/", "bus"), ("", "bus"), ("/a", "/b"), ("a", "")] {
        let expected = std::path::Path::new(base).join(comp);
        assert_eq!(join(base, comp), expected.to_str().unwrap());
    }
}

#[test]
fn file_names_like_path() {
    for p in ["/sys/bus/usb/devices/1-1", "/a/b/", "a/.", "a/..", "/", ".", "..", "", "a//b", "x/./", "./x", "/a/b/.."] {
        let expected = std::path::Path::new(p).file_name().map(|n| n.to_str().unwrap().to_string());
        assert_eq!(file_name(p), expected, "path {p:?}");
    }
}

#[test]
fn fixed_fields() {
    let b = fixed_length_buffer_from_str("abc", 8).unwrap();
    assert_eq!(b, vec![b'a', b'b', b'c', 0, 0, 0, 0, 0]);
    assert!(fixed_length_buffer_from_str("abcdefgh", 8).is_err());
    assert_eq!(string_from_fixed_length_buffer(&b).unwrap(), "abc");
    assert_eq!(string_from_fixed_length_buffer(b"full").unwrap(), "full");
    assert!(string_from_fixed_length_buffer(&[0xc3, 0x28, 0]).is_err());
}
