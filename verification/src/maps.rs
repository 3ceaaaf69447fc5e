//! Reading `/proc/self/maps`: the executable regions that belong to the
//! game's library, found from the text of the file.
use crate::fields::{
    byte_lines, ends_with, find_last_ws_end, find_ws, holds_byte, is_ascii_whitespace, is_ws,
    lemma_ws_before, lemma_ws_fields_front, lemma_ws_fields_last, lemma_ws_from, slice_contains,
    slice_ends_with, split_lines, split_once, split_once_str, ws_before, ws_fields, ws_from,
};
use vstd::prelude::*;
use vstd::wrapping::usize_specs;

verus! {

/// The file name that marks the game's library in a mapping line.
pub open spec fn library_file_name() -> Seq<u8> {
    seq![
        0x6cu8, 0x69u8, 0x62u8, 0x6du8, 0x69u8, 0x6eu8, 0x65u8, 0x63u8, 0x72u8, 0x61u8, 0x66u8,
        0x74u8, 0x70u8, 0x65u8, 0x2eu8, 0x73u8, 0x6fu8,
    ]
}

/// `libminecraftpe.so`, the file name that marks the game's library.
pub fn library_file_name_bytes() -> (r: Vec<u8>)
    ensures
        r@ == library_file_name(),
{
    let r = vec![
        0x6cu8, 0x69u8, 0x62u8, 0x6du8, 0x69u8, 0x6eu8, 0x65u8, 0x63u8, 0x72u8, 0x61u8, 0x66u8,
        0x74u8, 0x70u8, 0x65u8, 0x2eu8, 0x73u8, 0x6fu8,
    ];
    assert(r@ =~= library_file_name());
    r
}

/// The byte `-` that joins the two ends of an address range.
pub open spec fn dash() -> Seq<u8> {
    seq![0x2du8]
}

/// The permission byte of an executable mapping.
pub open spec fn exec_flag() -> u8 {
    0x78u8
}

/// What `parse_range` returns for a line of `/proc/self/maps`: where the
/// line has at least three whitespace-separated fields, its second field
/// (the permissions) holds `x` and its last field (the path) ends with the
/// library's file name, the first field (the address range) split at its
/// first `-`; `None` otherwise.
pub open spec fn range_fields(line: Seq<u8>) -> Option<(Seq<u8>, Seq<u8>)> {
    let f = ws_fields(line);
    if f.len() >= 3 && holds_byte(f[1], exec_flag()) && ends_with(f.last(), library_file_name()) {
        split_once(f[0], dash())
    } else {
        None
    }
}

/// Parses one line of `/proc/self/maps`, returning the hexadecimal start
/// and end of its address range, for executable regions of the game's
/// library only.
pub fn parse_range(buf: &[u8]) -> (r: Option<(&[u8], &[u8])>)
    ensures
        r is None <==> range_fields(buf@) is None,
        r is Some ==> r.unwrap().0@ == range_fields(buf@).unwrap().0,
        r is Some ==> r.unwrap().1@ == range_fields(buf@).unwrap().1,
{
    let ghost s = buf@;
    proof {
        lemma_ws_fields_front(s);
        lemma_ws_fields_last(s);
        lemma_ws_from(s, 0);
        lemma_ws_before(s, s.len() as int);
    }
    let i0 = find_ws(buf, 0);
    if i0 >= buf.len() {
        return None;
    }
    let ghost t = s.skip(i0 + 1);
    proof {
        lemma_ws_fields_front(t);
        lemma_ws_from(s, i0 + 1);
        crate::fields::lemma_ws_from_skip(s, i0 + 1, 0);
    }
    let i1 = find_ws(buf, i0 + 1);
    if i1 >= buf.len() {
        proof {
            assert(ws_fields(t).len() == 1);
        }
        return None;
    }
    proof {
        lemma_ws_fields_front(t.skip(ws_from(t, 0) + 1));
        assert(ws_fields(s).len() >= 3);
    }
    let j = find_last_ws_end(buf);
    let addr = &buf[0..i0];
    let perms = &buf[i0 + 1..i1];
    let path = &buf[j..buf.len()];
    proof {
        assert(addr@ =~= ws_fields(s)[0]);
        assert(perms@ =~= ws_fields(s)[1]);
        assert(path@ =~= ws_fields(s).last());
    }
    let name = library_file_name_bytes();
    if slice_contains(perms, 0x78u8) && slice_ends_with(path, name.as_slice()) {
        let sep = [0x2du8];
        assert(sep@ =~= dash());
        return split_once_str(addr, sep.as_slice());
    }
    None
}

/// The value of a hexadecimal digit as `atoi` reads it (`0-9`, `a-f`,
/// `A-F`), `None` for any other byte.
pub open spec fn hex_digit(b: u8) -> Option<usize> {
    if 0x30u8 <= b <= 0x39u8 {
        Some((b - 0x30u8) as usize)
    } else if 0x61u8 <= b <= 0x66u8 {
        Some((b - 0x61u8 + 10) as usize)
    } else if 0x41u8 <= b <= 0x46u8 {
        Some((b - 0x41u8 + 10) as usize)
    } else {
        None
    }
}

/// The first index at or after `i` that is not a hexadecimal digit,
/// `s.len()` where there is none.
pub open spec fn hex_end(s: Seq<u8>, i: int) -> int
    decreases s.len() - i,
{
    if i >= s.len() {
        s.len() as int
    } else if hex_digit(s[i]) is None {
        i
    } else {
        hex_end(s, i + 1)
    }
}

/// The value of the first `n` bytes of `s` read as hexadecimal digits, in
/// `usize` arithmetic that wraps as a release build does.
pub open spec fn hex_fold(s: Seq<u8>, n: int) -> usize
    decreases n,
{
    if n <= 0 {
        0
    } else {
        usize_specs::wrapping_add(
            usize_specs::wrapping_mul(hex_fold(s, n - 1), 16),
            hex_digit(s[n - 1]).unwrap(),
        )
    }
}

/// What `usize::from_radix_16` of `atoi` returns: the value of the run of
/// hexadecimal digits that starts `s` and the length of that run (`(0, 0)`
/// where `s` does not start with one).
pub open spec fn radix16(s: Seq<u8>) -> (usize, usize) {
    (hex_fold(s, hex_end(s, 0)), hex_end(s, 0) as usize)
}

/// The value of a hexadecimal digit, `None` for any other byte.
pub fn from_hex_digit(b: u8) -> (r: Option<usize>)
    ensures
        r == hex_digit(b),
{
    if 0x30u8 <= b && b <= 0x39u8 {
        Some((b - 0x30u8) as usize)
    } else if 0x61u8 <= b && b <= 0x66u8 {
        Some((b - 0x61u8 + 10) as usize)
    } else if 0x41u8 <= b && b <= 0x46u8 {
        Some((b - 0x41u8 + 10) as usize)
    } else {
        None
    }
}

/// Reads the run of hexadecimal digits that starts `text`, as
/// `atoi::FromRadix16::from_radix_16` for `usize` does: its value (wrapping
/// past `usize::MAX`, as in a release build) and its length.
pub fn from_radix_16(text: &[u8]) -> (r: (usize, usize))
    ensures
        r == radix16(text@),
{
    let mut index: usize = 0;
    let mut number: usize = 0;
    while index < text.len()
        invariant
            index <= text.len(),
            hex_end(text@, 0) == hex_end(text@, index as int),
            number == hex_fold(text@, index as int),
        decreases text.len() - index,
    {
        match from_hex_digit(text[index]) {
            Some(digit) => {
                number = number.wrapping_mul(16).wrapping_add(digit);
                index = index + 1;
            },
            None => {
                return (number, index);
            },
        }
    }
    (number, index)
}

/// An address range of the process: its start and its size in bytes.
#[derive(Clone, Copy, Debug, PartialEq, Eq)]
pub struct SimpleMapRange {
    pub start: usize,
    pub size: usize,
}

/// Why no region of the game's library was found.
#[derive(Clone, Copy, Debug, PartialEq, Eq)]
pub enum MapsError {
    /// No line of the memory map names an executable region of the library.
    LibraryNotFound,
}

/// The message that goes with a `MapsError`.
pub open spec fn maps_error_message(e: MapsError) -> Seq<char> {
    match e {
        MapsError::LibraryNotFound => "libminecraftpe.so not found in memory maps"@,
    }
}

impl MapsError {
    /// The text of the error, as it is logged.
    pub fn message(&self) -> (r: &'static str)
        ensures
            r@ == maps_error_message(*self),
    {
        match self {
            MapsError::LibraryNotFound => "libminecraftpe.so not found in memory maps",
        }
    }
}

/// A line holds nothing but whitespace (`trim_ascii` leaves it empty).
pub open spec fn blank(line: Seq<u8>) -> bool {
    forall|i: int| 0 <= i < line.len() ==> is_ws(line[i])
}

/// The region a line of the memory map names, as start and size, where it
/// is an executable region of the game's library: start and end read as
/// hexadecimal, the size their difference (wrapping, as a release build
/// computes it).
pub open spec fn line_range(line: Seq<u8>) -> Option<(usize, usize)> {
    if blank(line) {
        None
    } else {
        match range_fields(line) {
            Some((lo, hi)) => {
                let start = radix16(lo).0;
                let end = radix16(hi).0;
                Some((start, usize_specs::wrapping_sub(end, start)))
            },
            None => None,
        }
    }
}

/// The regions named by `lines`, in order.
pub open spec fn ranges_of_lines(lines: Seq<Seq<u8>>) -> Seq<(usize, usize)>
    decreases lines.len(),
{
    if lines.len() == 0 {
        Seq::empty()
    } else {
        let before = ranges_of_lines(lines.drop_last());
        match line_range(lines.last()) {
            Some(r) => before.push(r),
            None => before,
        }
    }
}

/// The executable regions of the game's library that a memory map names,
/// in the order of its lines.
pub open spec fn library_ranges(contents: Seq<u8>) -> Seq<(usize, usize)> {
    ranges_of_lines(split_lines(contents))
}

/// The pair a `SimpleMapRange` stands for.
pub open spec fn range_pair(r: SimpleMapRange) -> (usize, usize) {
    (r.start, r.size)
}

/// Whether a line holds nothing but whitespace.
pub fn is_blank(line: &[u8]) -> (r: bool)
    ensures
        r == blank(line@),
{
    let mut i: usize = 0;
    while i < line.len()
        invariant
            i <= line.len(),
            forall|j: int| 0 <= j < i ==> is_ws(line@[j]),
        decreases line.len() - i,
    {
        if !is_ascii_whitespace(line[i]) {
            return false;
        }
        i = i + 1;
    }
    true
}

/// The region a line of the memory map names, if it is an executable
/// region of the game's library.
pub fn parse_line(line: &[u8]) -> (r: Option<SimpleMapRange>)
    ensures
        r is None <==> line_range(line@) is None,
        r is Some ==> range_pair(r.unwrap()) == line_range(line@).unwrap(),
{
    if is_blank(line) {
        return None;
    }
    match parse_range(line) {
        Some((addr_start, addr_end)) => {
            let start = from_radix_16(addr_start).0;
            let end = from_radix_16(addr_end).0;
            Some(SimpleMapRange { start, size: end.wrapping_sub(start) })
        },
        None => None,
    }
}

/// Finds, in the text of `/proc/self/maps`, the executable regions of the
/// game's library, in the order of their lines; an error where there are
/// none.
pub fn find_minecraft_library_manually(contents: &[u8]) -> (r: Result<
    Vec<SimpleMapRange>,
    MapsError,
>)
    ensures
        library_ranges(contents@).len() == 0 ==> r == Err::<Vec<SimpleMapRange>, MapsError>(
            MapsError::LibraryNotFound,
        ),
        library_ranges(contents@).len() > 0 ==> r is Ok && r.unwrap()@.map_values(
            |m: SimpleMapRange| range_pair(m),
        ) == library_ranges(contents@),
{
    let lines = byte_lines(contents);
    let ghost all = split_lines(contents@);
    let mut ranges: Vec<SimpleMapRange> = Vec::new();
    let mut i: usize = 0;
    while i < lines.len()
        invariant
            i <= lines@.len(),
            lines@.len() == all.len(),
            forall|k: int| 0 <= k < lines@.len() ==> #[trigger] lines@[k]@ == all[k],
            ranges@.map_values(|m: SimpleMapRange| range_pair(m)) == ranges_of_lines(
                all.take(i as int),
            ),
        decreases lines.len() - i,
    {
        let line = lines[i];
        let ghost prev = ranges@;
        proof {
            assert(all.take(i + 1).drop_last() =~= all.take(i as int));
            assert(all.take(i + 1).last() == line@);
        }
        match parse_line(line) {
            Some(m) => {
                ranges.push(m);
                assert(ranges@.map_values(|m: SimpleMapRange| range_pair(m)) =~= prev.map_values(
                    |m: SimpleMapRange| range_pair(m),
                ).push(range_pair(m)));
            },
            None => {},
        }
        i = i + 1;
    }
    assert(all.take(lines.len() as int) =~= all);
    if ranges.len() == 0 {
        Err(MapsError::LibraryNotFound)
    } else {
        Ok(ranges)
    }
}

/// A range that `parse_range` finds is the line's first field cut at its
/// first `-`: the two ends joined by `-` give back that field, which holds
/// no whitespace, and the start holds no `-`.
pub proof fn law_parse_range_reassembles(line: Seq<u8>)
    ensures
        range_fields(line) matches Some((lo, hi)) ==> {
            &&& lo + dash() + hi == ws_fields(line)[0]
            &&& !holds_byte(lo, 0x2du8)
            &&& forall|i: int| 0 <= i < ws_fields(line)[0].len() ==> !is_ws(ws_fields(line)[0][i])
        },
{
    lemma_ws_fields_front(line);
    lemma_ws_from(line, 0);
    let f = ws_fields(line);
    if let Some((lo, hi)) = range_fields(line) {
        crate::fields::law_split_once_reassembles(f[0], dash());
        assert forall|i: int| 0 <= i < lo.len() implies lo[i] != 0x2du8 by {
            assert(!crate::fields::occurs_at(f[0], dash(), i));
            assert(f[0] == lo + dash() + hi);
            if lo[i] == 0x2du8 {
                assert(f[0].subrange(i, i + 1) =~= dash());
            }
        }
    }
}

/// Every region found comes from a line of the memory map that names an
/// executable region of the library, and the regions keep the order of
/// their lines.
pub proof fn law_ranges_come_from_lines(lines: Seq<Seq<u8>>)
    ensures
        ranges_of_lines(lines).len() <= lines.len(),
        forall|i: int|
            #![trigger ranges_of_lines(lines)[i]]
            0 <= i < ranges_of_lines(lines).len() ==> exists|j: int|
                0 <= j < lines.len() && #[trigger] line_range(lines[j]) == Some(
                    ranges_of_lines(lines)[i],
                ),
    decreases lines.len(),
{
    if lines.len() > 0 {
        let prev = lines.drop_last();
        law_ranges_come_from_lines(prev);
        let rs = ranges_of_lines(lines);
        assert forall|i: int| #![trigger rs[i]] 0 <= i < rs.len() implies exists|j: int|
            0 <= j < lines.len() && #[trigger] line_range(lines[j]) == Some(rs[i]) by {
            if i < ranges_of_lines(prev).len() {
                let j = choose|j: int|
                    0 <= j < prev.len() && #[trigger] line_range(prev[j]) == Some(
                        ranges_of_lines(prev)[i],
                    );
                assert(lines[j] == prev[j]);
            } else {
                assert(line_range(lines[lines.len() - 1]) == Some(rs[i]));
            }
        }
    }
}

/// Only executable mappings of the game's library give a range: a line
/// whose permission field (its second field) has no `x` never does, nor a
/// line whose path (its last field) does not end with `libminecraftpe.so`,
/// nor one with fewer than three fields. Conversely a line with at least
/// three fields, an `x` among its permissions, the library's path and a
/// `-` in its first field always gives the range of that first field.
pub proof fn law_only_executable_library_regions(line: Seq<u8>)
    ensures
        range_fields(line) is Some ==> {
            &&& ws_fields(line).len() >= 3
            &&& exists|i: int| 0 <= i < ws_fields(line)[1].len() && ws_fields(line)[1][i] == 0x78u8
            &&& ends_with(ws_fields(line).last(), library_file_name())
        },
        (ws_fields(line).len() >= 3 && (exists|i: int|
            0 <= i < ws_fields(line)[1].len() && ws_fields(line)[1][i] == 0x78u8) && ends_with(
            ws_fields(line).last(),
            library_file_name(),
        ) && (exists|i: int| 0 <= i < ws_fields(line)[0].len() && ws_fields(line)[0][i] == 0x2du8))
            ==> range_fields(line) is Some,
{
    let f = ws_fields(line);
    if f.len() >= 3 && holds_byte(f[0], 0x2du8) {
        crate::fields::lemma_byte_occurs(f[0], 0x2du8);
        assert(dash() =~= seq![0x2du8]);
    }
}

} // verus!
