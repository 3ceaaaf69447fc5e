use mbl2::buffer::{SEEK_CUR, SEEK_END, SEEK_SET};
use mbl2::table::{narrow_i32, unsigned_to_i32, unsigned_to_i64, AssetTable};

fn table_with(asset: u64, data: &[u8]) -> AssetTable {
    let mut t = AssetTable::new();
    t.open(asset, Some(data.to_vec()));
    t
}

#[test]
fn unknown_asset_is_handed_on() {
    let mut t = AssetTable::new();
    let mut out = [1u8; 4];
    assert_eq!(t.read(7, &mut out), None);
    assert_eq!(out, [1; 4]);
    assert_eq!(t.seek64(7, 0, SEEK_SET), None);
    assert_eq!(t.seek32(7, 0, SEEK_SET), None);
    assert_eq!(t.len64(7), None);
    assert_eq!(t.len32(7), None);
    assert_eq!(t.rem64(7), None);
    assert_eq!(t.rem32(7), None);
    assert!(t.buffer(7).is_none());
    assert_eq!(t.open_fd(7), None);
    assert_eq!(t.is_allocated(7), None);
    assert!(!t.contains(7));
}

#[test]
fn open_without_pack_file_intercepts_nothing() {
    let mut t = AssetTable::new();
    t.open(3, None);
    assert!(!t.contains(3));
    assert_eq!(t.len64(3), None);
}

#[test]
fn open_with_pack_file_serves_it_whole() {
    let t = table_with(0x1000, b"pack bytes");
    assert!(t.contains(0x1000));
    assert_eq!(t.len64(0x1000), Some(10));
    assert_eq!(t.len32(0x1000), Some(10));
    assert_eq!(t.rem64(0x1000), Some(10));
    assert_eq!(t.rem32(0x1000), Some(10));
    assert_eq!(t.buffer(0x1000), Some(&b"pack bytes"[..]));
    assert_eq!(t.open_fd(0x1000), Some(-1));
    assert_eq!(t.is_allocated(0x1000), Some(0));
}

#[test]
fn read_advances_and_remaining_shrinks() {
    let mut t = table_with(1, b"abcdef");
    let mut out = [0u8; 4];
    assert_eq!(t.read(1, &mut out), Some(4));
    assert_eq!(&out, b"abcd");
    assert_eq!(t.rem64(1), Some(2));
    assert_eq!(t.read(1, &mut out), Some(2));
    assert_eq!(&out[..2], b"ef");
    assert_eq!(t.rem64(1), Some(0));
    assert_eq!(t.read(1, &mut out), Some(0));
}

#[test]
fn seek_and_tell() {
    let mut t = table_with(1, b"abcdef");
    assert_eq!(t.seek64(1, 2, SEEK_SET), Some(2));
    assert_eq!(t.seek64(1, 0, SEEK_CUR), Some(2));
    assert_eq!(t.seek64(1, -1, SEEK_END), Some(5));
    assert_eq!(t.rem64(1), Some(1));
    assert_eq!(t.seek64(1, -9, SEEK_CUR), Some(-1));
    assert_eq!(t.seek64(1, 0, 42), Some(-1));
    assert_eq!(t.seek32(1, 1, SEEK_SET), Some(1));
    let mut out = [0u8; 2];
    assert_eq!(t.read(1, &mut out), Some(2));
    assert_eq!(&out, b"bc");
}

#[test]
fn remaining_past_end_is_zero() {
    let mut t = table_with(1, b"abc");
    assert_eq!(t.seek64(1, 10, SEEK_SET), Some(10));
    assert_eq!(t.rem64(1), Some(0));
    assert_eq!(t.rem32(1), Some(0));
    assert_eq!(t.len64(1), Some(3));
}

#[test]
fn seek32_reports_minus_one_past_i32() {
    let mut t = table_with(1, b"abc");
    assert_eq!(t.seek64(1, i32::MAX as i64, SEEK_SET), Some(i32::MAX as i64));
    assert_eq!(t.seek32(1, 1, SEEK_CUR), Some(-1));
    assert_eq!(t.seek64(1, 0, SEEK_CUR), Some(i32::MAX as i64 + 1));
}

#[test]
fn close_forgets_asset_only() {
    let mut t = table_with(1, b"one");
    t.open(2, Some(b"two".to_vec()));
    t.close(1);
    assert!(!t.contains(1));
    assert_eq!(t.len64(1), None);
    assert_eq!(t.len64(2), Some(3));
    t.close(1);
    assert!(t.contains(2));
}

#[test]
fn reopen_replaces_buffer() {
    let mut t = table_with(1, b"old");
    t.seek64(1, 2, SEEK_SET);
    t.open(1, Some(b"newer".to_vec()));
    assert_eq!(t.len64(1), Some(5));
    assert_eq!(t.rem64(1), Some(5));
}

#[test]
fn operations_on_one_asset_leave_others() {
    let mut t = table_with(1, b"abcdef");
    t.open(2, Some(b"xyz".to_vec()));
    t.seek64(1, 4, SEEK_SET);
    let mut out = [0u8; 1];
    t.read(1, &mut out);
    assert_eq!(t.rem64(2), Some(3));
    assert_eq!(t.seek64(2, 0, SEEK_CUR), Some(0));
}

#[test]
fn narrowing_reports_minus_one() {
    assert_eq!(narrow_i32(5), 5);
    assert_eq!(narrow_i32(-5), -5);
    assert_eq!(narrow_i32(i32::MAX as i64 + 1), -1);
    assert_eq!(narrow_i32(i32::MIN as i64 - 1), -1);
    assert_eq!(unsigned_to_i64(u64::MAX), -1);
    assert_eq!(unsigned_to_i64(7), 7);
    assert_eq!(unsigned_to_i32(1 << 31), -1);
    assert_eq!(unsigned_to_i32(9), 9);
}

#[test]
fn length_kept_across_seeks_and_reads() {
    let mut t = table_with(9, b"0123456789");
    let mut out = [0u8; 3];
    t.seek64(9, 4, SEEK_SET);
    t.read(9, &mut out);
    t.seek64(9, -1, SEEK_END);
    t.read(9, &mut out);
    assert_eq!(t.len64(9), Some(10));
}

#[test]
fn remaining_after_seek_and_read() {
    let mut t = table_with(9, b"0123456789");
    assert_eq!(t.seek64(9, 3, SEEK_SET), Some(3));
    assert_eq!(t.rem64(9), Some(7));
    let r0 = t.rem64(9).unwrap();
    let mut out = [0u8; 4];
    let n = t.read(9, &mut out).unwrap();
    assert_eq!(t.rem64(9), Some(r0 - n as i64));
    assert_eq!(t.seek64(9, 0, SEEK_END), Some(10));
    assert_eq!(t.rem64(9), Some(0));
}

#[test]
fn only_opened_unclosed_assets_are_served() {
    let mut t = AssetTable::new();
    t.open(1, Some(b"a".to_vec()));
    t.open(2, None);
    t.open(3, Some(b"c".to_vec()));
    t.close(3);
    assert!(t.contains(1));
    assert!(!t.contains(2));
    assert!(!t.contains(3));
}
