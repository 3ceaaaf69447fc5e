use std::io::Seek;
use mbl2::buffer::{checked_add_signed, seek_facade, AssetBuffer, SeekError, SeekFrom, SEEK_CUR, SEEK_END, SEEK_SET};

fn buf(data: &[u8]) -> AssetBuffer {
    AssetBuffer::new(data.to_vec())
}

#[test]
fn new_buffer_starts_at_zero() {
    let b = buf(b"hello");
    assert_eq!(b.position(), 0);
    assert_eq!(b.len(), 5);
    assert_eq!(b.get_ref(), b"hello");
}

#[test]
fn seek_set_moves_to_offset() {
    let mut b = buf(b"hello");
    assert_eq!(seek_facade(3, SEEK_SET, &mut b), 3);
    assert_eq!(b.position(), 3);
}

#[test]
fn seek_set_negative_is_refused() {
    let mut b = buf(b"hello");
    seek_facade(2, SEEK_SET, &mut b);
    assert_eq!(seek_facade(-1, SEEK_SET, &mut b), -1);
    assert_eq!(b.position(), 2);
}

#[test]
fn seek_set_past_end_is_allowed() {
    let mut b = buf(b"hello");
    assert_eq!(seek_facade(100, SEEK_SET, &mut b), 100);
    assert_eq!(b.position(), 100);
}

#[test]
fn seek_cur_moves_relative() {
    let mut b = buf(b"hello");
    seek_facade(2, SEEK_SET, &mut b);
    assert_eq!(seek_facade(2, SEEK_CUR, &mut b), 4);
    assert_eq!(seek_facade(-3, SEEK_CUR, &mut b), 1);
}

#[test]
fn seek_cur_zero_tells_position() {
    let mut b = buf(b"hello");
    seek_facade(4, SEEK_SET, &mut b);
    assert_eq!(seek_facade(0, SEEK_CUR, &mut b), 4);
    assert_eq!(b.position(), 4);
}

#[test]
fn seek_cur_before_start_is_refused() {
    let mut b = buf(b"hello");
    seek_facade(1, SEEK_SET, &mut b);
    assert_eq!(seek_facade(-2, SEEK_CUR, &mut b), -1);
    assert_eq!(b.position(), 1);
}

#[test]
fn seek_end_moves_from_end() {
    let mut b = buf(b"hello");
    assert_eq!(seek_facade(0, SEEK_END, &mut b), 5);
    assert_eq!(seek_facade(-2, SEEK_END, &mut b), 3);
    assert_eq!(seek_facade(-6, SEEK_END, &mut b), -1);
    assert_eq!(b.position(), 3);
}

#[test]
fn unknown_whence_is_refused() {
    let mut b = buf(b"hello");
    seek_facade(2, SEEK_SET, &mut b);
    assert_eq!(seek_facade(1, 7, &mut b), -1);
    assert_eq!(b.position(), 2);
}

#[test]
fn position_beyond_i64_reports_minus_one_but_moves() {
    let mut b = buf(b"hello");
    assert_eq!(b.seek(SeekFrom::Start(u64::MAX - 1)), Ok(u64::MAX - 1));
    assert_eq!(seek_facade(1, SEEK_CUR, &mut b), -1);
    assert_eq!(b.position(), u64::MAX);
}

#[test]
fn cursor_seek_overflow_is_refused() {
    let mut b = buf(b"hello");
    assert_eq!(b.seek(SeekFrom::Start(u64::MAX)), Ok(u64::MAX));
    assert_eq!(b.seek(SeekFrom::Current(1)), Err(SeekError::InvalidPosition));
    assert_eq!(b.position(), u64::MAX);
    assert_eq!(b.seek(SeekFrom::End(-5)), Ok(0));
}

#[test]
fn checked_add_signed_matches_std() {
    for &(base, off) in &[(0u64, 0i64), (5, -5), (5, -6), (u64::MAX, 1), (u64::MAX, -1), (3, i64::MIN), (u64::MAX, i64::MIN), (0, i64::MAX)] {
        assert_eq!(checked_add_signed(base, off), base.checked_add_signed(off));
    }
}

#[test]
fn read_takes_what_fits() {
    let mut b = buf(b"hello");
    let mut out = [0u8; 3];
    assert_eq!(b.read(&mut out), 3);
    assert_eq!(&out, b"hel");
    assert_eq!(b.position(), 3);
    let mut out = [9u8; 4];
    assert_eq!(b.read(&mut out), 2);
    assert_eq!(&out, &[b'l', b'o', 9, 9]);
    assert_eq!(b.position(), 5);
    assert_eq!(b.read(&mut out), 0);
}

#[test]
fn read_past_end_reads_nothing() {
    let mut b = buf(b"hello");
    seek_facade(10, SEEK_SET, &mut b);
    let mut out = [7u8; 2];
    assert_eq!(b.read(&mut out), 0);
    assert_eq!(out, [7, 7]);
    assert_eq!(b.position(), 10);
}

#[test]
fn seek_then_read_reads_from_offset() {
    let mut b = buf(b"0123456789");
    assert_eq!(seek_facade(6, SEEK_SET, &mut b), 6);
    let mut out = [0u8; 10];
    assert_eq!(b.read(&mut out), 4);
    assert_eq!(&out[..4], b"6789");
}

#[test]
fn seek_matches_std_cursor() {
    let data = b"abcdefgh".to_vec();
    let cases: &[SeekFrom] = &[SeekFrom::Start(3), SeekFrom::Current(2), SeekFrom::End(-1), SeekFrom::Current(-10), SeekFrom::End(4), SeekFrom::Start(0)];
    let mut ours = AssetBuffer::new(data.clone());
    let mut theirs = std::io::Cursor::new(data);
    for c in cases {
        let std_style = match *c {
            SeekFrom::Start(n) => std::io::SeekFrom::Start(n),
            SeekFrom::End(n) => std::io::SeekFrom::End(n),
            SeekFrom::Current(n) => std::io::SeekFrom::Current(n),
        };
        let a = ours.seek(*c).ok();
        let b = theirs.seek(std_style).ok();
        assert_eq!(a, b);
        assert_eq!(ours.position(), theirs.position());
    }
}

#[test]
fn whence_values_are_the_c_library_ones() {
    assert_eq!(SEEK_SET, libc::SEEK_SET);
    assert_eq!(SEEK_CUR, libc::SEEK_CUR);
    assert_eq!(SEEK_END, libc::SEEK_END);
}
