use mbl2::fields::{byte_lines, split_once_str};
use mbl2::maps::{find_minecraft_library_manually, from_radix_16, parse_line, parse_range, MapsError, SimpleMapRange};

const LIB_LINE: &[u8] = b"7a1b2000-7a1c3000 r-xp 00000000 fd:05 123456                   /data/app/~~x==/com.mojang.minecraftpe-1/lib/arm64/libminecraftpe.so";

#[test]
fn parse_range_finds_executable_library_region() {
    assert_eq!(parse_range(LIB_LINE), Some((&b"7a1b2000"[..], &b"7a1c3000"[..])));
}

#[test]
fn parse_range_skips_non_executable() {
    let line = b"7a1b2000-7a1c3000 r--p 00000000 fd:05 123456   /lib/arm64/libminecraftpe.so";
    assert_eq!(parse_range(line), None);
}

#[test]
fn parse_range_skips_other_libraries() {
    let line = b"7a1b2000-7a1c3000 r-xp 00000000 fd:05 123456   /system/lib64/libc.so";
    assert_eq!(parse_range(line), None);
}

#[test]
fn parse_range_needs_three_fields() {
    assert_eq!(parse_range(b"1-2"), None);
    assert_eq!(parse_range(b"1-2 r-xp"), None);
    assert_eq!(parse_range(b""), None);
    assert_eq!(parse_range(b"1-2 x libminecraftpe.so"), Some((&b"1"[..], &b"2"[..])));
}

#[test]
fn parse_range_uses_last_field_as_path() {
    // a trailing space makes the last field empty
    assert_eq!(parse_range(b"1-2 x libminecraftpe.so "), None);
    // with a tab between fields
    assert_eq!(parse_range(b"1-2\tx\tlibminecraftpe.so"), Some((&b"1"[..], &b"2"[..])));
}

#[test]
fn parse_range_without_dash_is_none() {
    assert_eq!(parse_range(b"12 x libminecraftpe.so"), None);
    assert_eq!(parse_range(b"1-2-3 x libminecraftpe.so"), Some((&b"1"[..], &b"2-3"[..])));
}

#[test]
fn hex_parsing_as_atoi() {
    assert_eq!(from_radix_16(b"2a"), (42, 2));
    assert_eq!(from_radix_16(b"2a is the answer"), (42, 2));
    assert_eq!(from_radix_16(b"Sadly"), (0, 0));
    assert_eq!(from_radix_16(b"-2a"), (0, 0));
    assert_eq!(from_radix_16(b"002A"), (42, 4));
    assert_eq!(from_radix_16(b"ffFF"), (0xffff, 4));
    assert_eq!(from_radix_16(b""), (0, 0));
    // wraps past usize::MAX as a release build does
    let digits = (usize::BITS / 4) as usize;
    let mut long = vec![b'f'; digits];
    long.push(b'1');
    assert_eq!(from_radix_16(&long), (usize::MAX.wrapping_mul(16).wrapping_add(1), digits + 1));
}

#[test]
fn parse_line_gives_start_and_size() {
    assert_eq!(parse_line(LIB_LINE), Some(SimpleMapRange { start: 0x7a1b2000, size: 0x11000 }));
    assert_eq!(parse_line(b"   \t"), None);
    assert_eq!(parse_line(b"20-10 x libminecraftpe.so"), Some(SimpleMapRange { start: 0x20, size: 0x10usize.wrapping_sub(0x20) }));
}

#[test]
fn finds_all_library_regions_in_order() {
    let contents = b"\
5000-6000 r--p 00000000 fd:05 1 /data/lib/libminecraftpe.so
6000-8000 r-xp 00001000 fd:05 1 /data/lib/libminecraftpe.so

9000-a000 r-xp 00000000 fd:05 2 /system/lib64/libc.so
b000-c000 r-xp 00003000 fd:05 1 /data/lib/libminecraftpe.so\r
";
    let ranges = find_minecraft_library_manually(contents).unwrap();
    assert_eq!(ranges, vec![
        SimpleMapRange { start: 0x6000, size: 0x2000 },
        SimpleMapRange { start: 0xb000, size: 0x1000 },
    ]);
}

#[test]
fn no_library_region_is_an_error() {
    assert_eq!(find_minecraft_library_manually(b""), Err(MapsError::LibraryNotFound));
    assert_eq!(
        find_minecraft_library_manually(b"9000-a000 r-xp 0 0 0 /system/lib64/libc.so\n"),
        Err(MapsError::LibraryNotFound)
    );
}

#[test]
fn lines_as_bstr_splits_them() {
    let s = b"foo\n\nbar\r\nbaz\n\n\nquux";
    let lines = byte_lines(s);
    assert_eq!(lines, vec![&b"foo"[..], b"", b"bar", b"baz", b"", b"", b"quux"]);
    assert_eq!(byte_lines(b"a\n"), vec![&b"a"[..]]);
    assert_eq!(byte_lines(b"a\r"), vec![&b"a\r"[..]]);
    assert!(byte_lines(b"").is_empty());
}

#[test]
fn split_once_str_splits_at_first() {
    assert_eq!(split_once_str(b"foo,bar,baz", b","), Some((&b"foo"[..], &b"bar,baz"[..])));
    assert_eq!(split_once_str(b"foo", b","), None);
    assert_eq!(split_once_str(b"foo,", b","), Some((&b"foo"[..], &b""[..])));
    assert_eq!(split_once_str(b"a--b", b"--"), Some((&b"a"[..], &b"b"[..])));
}

#[test]
fn parsed_range_reassembles_first_field() {
    let (lo, hi) = parse_range(LIB_LINE).unwrap();
    let mut joined = lo.to_vec();
    joined.push(b'-');
    joined.extend_from_slice(hi);
    let first = LIB_LINE.split(|b| b.is_ascii_whitespace()).next().unwrap();
    assert_eq!(joined, first);
    assert!(!lo.contains(&b'-'));
}

#[test]
fn not_found_error_message() {
    let err = find_minecraft_library_manually(b"b000-c000 r-xp 00000000 fd:05 2 /system/lib64/libc.so\n\n").unwrap_err();
    assert_eq!(err.message(), "libminecraftpe.so not found in memory maps");
}
