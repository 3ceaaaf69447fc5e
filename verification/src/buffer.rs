//! An in-memory asset served in place of an APK asset: a byte buffer with a
//! read position, read and moved with the semantics of `std::io::Cursor`.
use vstd::prelude::*;

verus! {

/// `whence` of a seek request: offset from the start of the asset
/// (`SEEK_SET` of the C library on Linux and Android).
pub const SEEK_SET: i32 = 0;

/// `whence` of a seek request: offset from the current position
/// (`SEEK_CUR` of the C library on Linux and Android).
pub const SEEK_CUR: i32 = 1;

/// `whence` of a seek request: offset from the end of the asset
/// (`SEEK_END` of the C library on Linux and Android).
pub const SEEK_END: i32 = 2;

/// Where a seek moves to, as `std::io::SeekFrom` states it.
#[derive(Clone, Copy, Debug, PartialEq, Eq)]
pub enum SeekFrom {
    Start(u64),
    End(i64),
    Current(i64),
}

/// A refused seek: the target position would be negative or would not fit
/// in a `u64`.
#[derive(Clone, Copy, Debug, PartialEq, Eq)]
pub enum SeekError {
    InvalidPosition,
}

/// The abstract state of an [`AssetBuffer`]: its bytes and its position.
/// The position may lie past the end of the bytes.
#[verifier::ext_equal]
pub struct BufferView {
    pub contents: Seq<u8>,
    pub pos: u64,
}

/// `base + offset` where it is a position (it lies in `0..=u64::MAX`).
pub open spec fn offset_position(base: int, offset: int) -> Option<u64> {
    if 0 <= base + offset <= u64::MAX {
        Some((base + offset) as u64)
    } else {
        None
    }
}

/// The position that `Cursor::seek` moves to from `view`, or `None` where it
/// refuses the request.
pub open spec fn seek_target(view: BufferView, style: SeekFrom) -> Option<u64> {
    match style {
        SeekFrom::Start(n) => Some(n),
        SeekFrom::End(off) => offset_position(view.contents.len() as int, off as int),
        SeekFrom::Current(off) => offset_position(view.pos as int, off as int),
    }
}

/// How many bytes a read into a buffer of `requested` bytes takes from
/// `view`: all that is left after the position, at most `requested`.
pub open spec fn read_count(view: BufferView, requested: nat) -> nat {
    let len = view.contents.len();
    let left: nat = if view.pos >= len { 0 } else { (len - view.pos) as nat };
    if requested <= left {
        requested
    } else {
        left
    }
}

/// The bytes from the position to the end (none where the position lies
/// past the end).
pub open spec fn remaining(view: BufferView) -> Seq<u8> {
    if view.pos >= view.contents.len() {
        Seq::empty()
    } else {
        view.contents.subrange(view.pos as int, view.contents.len() as int)
    }
}

/// An asset held in memory, read through a position.
pub struct AssetBuffer {
    data: Vec<u8>,
    pos: u64,
}

impl View for AssetBuffer {
    type V = BufferView;

    closed spec fn view(&self) -> BufferView {
        BufferView { contents: self.data@, pos: self.pos }
    }
}

/// A buffer state that a `Vec` can hold: at most `isize::MAX` bytes.
pub open spec fn valid_buffer(view: BufferView) -> bool {
    view.contents.len() <= isize::MAX
}

/// `Vec::len` of a byte vector. A `Vec` never holds more than `isize::MAX`
/// bytes (its allocation fails or panics beyond that, as std documents for
/// `Vec::with_capacity`, `reserve` and `push`), so the length is at most
/// `isize::MAX`.
#[verifier::external_body]
fn byte_vec_len(v: &Vec<u8>) -> (r: usize)
    ensures
        r == v@.len(),
        r <= isize::MAX,
{
    v.len()
}

impl AssetBuffer {
    /// The bytes fit in a `Vec`.
    #[verifier::type_invariant]
    spec fn fits(&self) -> bool {
        self.data@.len() <= isize::MAX
    }

    /// A buffer over `data`, positioned at its start.
    pub fn new(data: Vec<u8>) -> (r: Self)
        ensures
            r@.contents == data@,
            r@.pos == 0,
            valid_buffer(r@),
    {
        let _ = byte_vec_len(&data);
        AssetBuffer { data, pos: 0 }
    }

    /// The bytes of the asset.
    pub fn get_ref(&self) -> (r: &[u8])
        ensures
            r@ == self@.contents,
    {
        self.data.as_slice()
    }

    /// The number of bytes of the asset.
    pub fn len(&self) -> (r: usize)
        ensures
            r == self@.contents.len(),
    {
        self.data.len()
    }

    /// The current position.
    pub fn position(&self) -> (r: u64)
        ensures
            r == self@.pos,
    {
        self.pos
    }

    /// Moves the position as `std::io::Cursor::seek` does: to `n` for
    /// `Start(n)`; to the end or the current position moved by the offset
    /// otherwise, refused (and nothing moved) where that is negative or
    /// overflows a `u64`. Returns the new position.
    pub fn seek(&mut self, style: SeekFrom) -> (r: Result<u64, SeekError>)
        ensures
            final(self)@.contents == old(self)@.contents,
            valid_buffer(final(self)@),
            match seek_target(old(self)@, style) {
                Some(n) => r == Ok::<u64, SeekError>(n) && final(self)@.pos == n,
                None => r == Err::<u64, SeekError>(SeekError::InvalidPosition)
                    && final(self)@.pos == old(self)@.pos,
            },
    {
        proof {
            use_type_invariant(&*self);
        }
        let (base, offset): (u64, i64) = match style {
            SeekFrom::Start(n) => {
                self.pos = n;
                return Ok(n);
            },
            SeekFrom::End(off) => (self.data.len() as u64, off),
            SeekFrom::Current(off) => (self.pos, off),
        };
        match checked_add_signed(base, offset) {
            Some(n) => {
                self.pos = n;
                Ok(n)
            },
            None => Err(SeekError::InvalidPosition),
        }
    }

    /// Reads as `std::io::Cursor::read` does: copies into the front of `out`
    /// as many of the remaining bytes as fit, advances the position by that
    /// many and returns the count.
    pub fn read(&mut self, out: &mut [u8]) -> (n: usize)
        ensures
            n == read_count(old(self)@, old(out)@.len()),
            final(self)@.contents == old(self)@.contents,
            final(self)@.pos == old(self)@.pos + n,
            valid_buffer(final(self)@),
            final(out)@.len() == old(out)@.len(),
            final(out)@.subrange(0, n as int) == remaining(old(self)@).subrange(0, n as int),
            final(out)@.subrange(n as int, old(out)@.len() as int) == old(out)@.subrange(
                n as int,
                old(out)@.len() as int,
            ),
    {
        proof {
            use_type_invariant(&*self);
        }
        let len = self.data.len();
        let left: usize = if self.pos >= len as u64 {
            0
        } else {
            len - (self.pos as usize)
        };
        let n: usize = if out.len() <= left {
            out.len()
        } else {
            left
        };
        if n == 0 {
            proof {
                assert(final(out)@.subrange(0, 0) =~= remaining(old(self)@).subrange(0, 0));
                assert(out@.subrange(0, out@.len() as int) =~= out@);
            }
            return 0;
        }
        let start = self.pos as usize;
        let mut i: usize = 0;
        while i < n
            invariant
                i <= n,
                start + n <= len,
                len == self.data.len(),
                n <= out.len(),
                out@.len() == old(out)@.len(),
                forall|j: int| 0 <= j < i ==> out@[j] == self.data@[start + j],
                forall|j: int| n <= j < old(out)@.len() ==> out@[j] == old(out)@[j],
            decreases n - i,
        {
            out[i] = self.data[start + i];
            i = i + 1;
        }
        self.pos = self.pos + n as u64;
        proof {
            let rem = remaining(old(self)@);
            assert(final(out)@.subrange(0, n as int) =~= rem.subrange(0, n as int));
            assert(final(out)@.subrange(n as int, old(out)@.len() as int) =~= old(out)@.subrange(
                n as int,
                old(out)@.len() as int,
            ));
        }
        n
    }
}

/// `base + offset` as `u64::checked_add_signed` computes it: `None` where the
/// sum is negative or overflows.
pub fn checked_add_signed(base: u64, offset: i64) -> (r: Option<u64>)
    ensures
        r == offset_position(base as int, offset as int),
{
    if offset >= 0 {
        let off = offset as u64;
        if base <= u64::MAX - off {
            Some(base + off)
        } else {
            None
        }
    } else {
        let magnitude: u64 = if offset == i64::MIN {
            0x8000_0000_0000_0000u64
        } else {
            (-offset) as u64
        };
        if magnitude <= base {
            Some(base - magnitude)
        } else {
            None
        }
    }
}

/// What a C seek request does to a buffer: its state after the request and
/// the position reported, `-1` where the request is refused (nothing moves)
/// or where the new position does not fit in an `i64` (the position has then
/// moved).
pub open spec fn seek_outcome(view: BufferView, offset: i64, whence: i32) -> (BufferView, i64) {
    match facade_target(view, offset, whence) {
        None => (view, -1i64),
        Some(n) => (
            BufferView { contents: view.contents, pos: n },
            if n <= i64::MAX {
                n as i64
            } else {
                -1i64
            },
        ),
    }
}

/// The seek behind the `AAsset_seek` hooks: turns the C `whence` and offset
/// into a `SeekFrom`, seeks, and reports the new position, or `-1` where
/// `whence` is unknown, a `SEEK_SET` offset is negative, the seek is refused,
/// or the new position does not fit in an `i64`.
pub fn seek_facade(offset: i64, whence: i32, file: &mut AssetBuffer) -> (r: i64)
    ensures
        (final(file)@, r) == seek_outcome(old(file)@, offset, whence),
        valid_buffer(final(file)@),
{
    proof {
        use_type_invariant(&*file);
    }
    let style = if whence == SEEK_SET {
        if offset < 0 {
            return -1;
        }
        SeekFrom::Start(offset as u64)
    } else if whence == SEEK_CUR {
        SeekFrom::Current(offset)
    } else if whence == SEEK_END {
        SeekFrom::End(offset)
    } else {
        return -1;
    };
    match file.seek(style) {
        Ok(new_pos) => {
            if new_pos <= i64::MAX as u64 {
                new_pos as i64
            } else {
                -1i64
            }
        },
        Err(_) => -1,
    }
}

/// The `SeekFrom` that a C `whence` and offset stand for, or `None` where
/// they are refused before any seek (unknown `whence`, negative `SEEK_SET`
/// offset).
pub open spec fn facade_style(offset: i64, whence: i32) -> Option<SeekFrom> {
    if whence == SEEK_SET {
        if offset < 0 {
            None
        } else {
            Some(SeekFrom::Start(offset as u64))
        }
    } else if whence == SEEK_CUR {
        Some(SeekFrom::Current(offset))
    } else if whence == SEEK_END {
        Some(SeekFrom::End(offset))
    } else {
        None
    }
}

/// The position a C seek request moves to, or `None` where it is refused.
pub open spec fn facade_target(view: BufferView, offset: i64, whence: i32) -> Option<u64> {
    match facade_style(offset, whence) {
        Some(style) => seek_target(view, style),
        None => None,
    }
}

/// Seeking with `SEEK_SET` to a non-negative offset `k` reports `k`, and a
/// read from there takes the bytes from `k` on: as many of them as were
/// asked for and are left.
pub proof fn law_seek_set_then_read(view: BufferView, k: i64, requested: nat)
    requires
        k >= 0,
    ensures
        ({
            let (after, reported) = seek_outcome(view, k, SEEK_SET);
            let n = read_count(after, requested);
            &&& reported == k
            &&& after.contents == view.contents
            &&& after.pos == k
            &&& n == (if k >= view.contents.len() {
                0
            } else if requested <= view.contents.len() - k {
                requested
            } else {
                (view.contents.len() - k) as nat
            })
            &&& k < view.contents.len() ==> remaining(after).subrange(0, n as int)
                == view.contents.subrange(k as int, k + n)
        }),
{
    let (after, reported) = seek_outcome(view, k, SEEK_SET);
    let n = read_count(after, requested);
    if k < view.contents.len() {
        assert(remaining(after).subrange(0, n as int) =~= view.contents.subrange(k as int, k + n));
    }
}

/// A seek by `0` from the current position moves nothing and reports the
/// position (where it fits in an `i64`).
pub proof fn law_tell(view: BufferView)
    requires
        view.pos <= i64::MAX,
    ensures
        seek_outcome(view, 0, SEEK_CUR) == (view, view.pos as i64),
{
}

/// A seek by `0` from the end moves to the end, after which nothing is left
/// to read.
pub proof fn law_seek_end(view: BufferView)
    requires
        valid_buffer(view),
    ensures
        ({
            let (after, reported) = seek_outcome(view, 0, SEEK_END);
            &&& after.pos == view.contents.len()
            &&& reported == view.contents.len()
            &&& remaining(after).len() == 0
        }),
{
}

/// A refused seek (unknown `whence`, negative `SEEK_SET` offset, or a
/// target out of range) reports `-1` and moves nothing.
pub proof fn law_refused_seek_keeps_position(view: BufferView, offset: i64, whence: i32)
    requires
        facade_target(view, offset, whence) is None,
    ensures
        seek_outcome(view, offset, whence) == (view, -1i64),
{
}

/// No seek changes the bytes of an asset.
pub proof fn law_seek_keeps_contents(view: BufferView, offset: i64, whence: i32)
    ensures
        seek_outcome(view, offset, whence).0.contents == view.contents,
{
}

/// A read never takes more than was asked for nor more than is left, and
/// after it the position has moved past exactly the bytes it took.
pub proof fn law_read_advances(view: BufferView, requested: nat)
    requires
        valid_buffer(view),
    ensures
        read_count(view, requested) <= requested,
        read_count(view, requested) <= remaining(view).len(),
        ({
            let after = BufferView {
                contents: view.contents,
                pos: (view.pos + read_count(view, requested)) as u64,
            };
            remaining(view).len() > 0 ==> remaining(after) == remaining(view).skip(
                read_count(view, requested) as int,
            )
        }),
{
    let n = read_count(view, requested);
    let after = BufferView { contents: view.contents, pos: (view.pos + n) as u64 };
    if remaining(view).len() > 0 {
        assert(remaining(after) =~= remaining(view).skip(n as int));
    }
}

} // verus!
