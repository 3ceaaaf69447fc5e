//! Byte-string helpers of the memory-map parser: whitespace-separated fields
//! (as `<[u8]>::split(u8::is_ascii_whitespace)` yields them), first and last
//! occurrences, and the two calls into `bstr`.
use bstr::ByteSlice;
use vstd::prelude::*;

verus! {

/// `u8::is_ascii_whitespace`: space, tab, line feed, form feed or carriage
/// return.
pub open spec fn is_ws(b: u8) -> bool {
    b == 0x20u8 || b == 0x09u8 || b == 0x0au8 || b == 0x0cu8 || b == 0x0du8
}

/// `u8::is_ascii_whitespace`.
pub fn is_ascii_whitespace(b: u8) -> (r: bool)
    ensures
        r == is_ws(b),
{
    b == 0x20u8 || b == 0x09u8 || b == 0x0au8 || b == 0x0cu8 || b == 0x0du8
}

/// The first index at or after `i` that holds whitespace, `s.len()` where
/// there is none.
pub open spec fn ws_from(s: Seq<u8>, i: int) -> int
    decreases s.len() - i,
{
    if i >= s.len() {
        s.len() as int
    } else if is_ws(s[i]) {
        i
    } else {
        ws_from(s, i + 1)
    }
}

/// The fields of `s` between its whitespace bytes, as
/// `s.split(|b| b.is_ascii_whitespace())` yields them: one more field than
/// whitespace bytes, empty ones included.
pub open spec fn ws_fields(s: Seq<u8>) -> Seq<Seq<u8>>
    decreases s.len(),
{
    let i = ws_from(s, 0);
    if i >= s.len() {
        seq![s]
    } else {
        proof {
            lemma_ws_from(s, 0);
        }
        seq![s.take(i)] + ws_fields(s.skip(i + 1))
    }
}

/// The last index before `k` that holds whitespace, `-1` where there is
/// none.
pub open spec fn ws_before(s: Seq<u8>, k: int) -> int
    decreases k,
{
    if k <= 0 {
        -1
    } else if is_ws(s[k - 1]) {
        k - 1
    } else {
        ws_before(s, k - 1)
    }
}

/// What `ws_from` finds: the first whitespace at or after `i`.
pub proof fn lemma_ws_from(s: Seq<u8>, i: int)
    requires
        0 <= i <= s.len(),
    ensures
        i <= ws_from(s, i) <= s.len(),
        ws_from(s, i) < s.len() ==> is_ws(s[ws_from(s, i)]),
        forall|j: int| i <= j < ws_from(s, i) ==> !is_ws(s[j]),
    decreases s.len() - i,
{
    if i < s.len() && !is_ws(s[i]) {
        lemma_ws_from(s, i + 1);
    }
}

/// What `ws_before` finds: the last whitespace before `k`.
pub proof fn lemma_ws_before(s: Seq<u8>, k: int)
    requires
        0 <= k <= s.len(),
    ensures
        -1 <= ws_before(s, k) < k,
        ws_before(s, k) >= 0 ==> is_ws(s[ws_before(s, k)]),
        forall|j: int| ws_before(s, k) < j < k ==> !is_ws(s[j]),
    decreases k,
{
    if k > 0 && !is_ws(s[k - 1]) {
        lemma_ws_before(s, k - 1);
    }
}

/// `ws_from` is fixed by what it finds.
proof fn lemma_ws_from_unique(s: Seq<u8>, i: int, r: int)
    requires
        0 <= i <= r <= s.len(),
        r < s.len() ==> is_ws(s[r]),
        forall|j: int| i <= j < r ==> !is_ws(s[j]),
    ensures
        ws_from(s, i) == r,
{
    lemma_ws_from(s, i);
    let f = ws_from(s, i);
    if f < r {
        assert(!is_ws(s[f]));
    } else if r < f {
        assert(!is_ws(s[r]));
    }
}

/// `ws_before` is fixed by what it finds.
proof fn lemma_ws_before_unique(s: Seq<u8>, k: int, r: int)
    requires
        0 <= k <= s.len(),
        -1 <= r < k,
        r >= 0 ==> is_ws(s[r]),
        forall|j: int| r < j < k ==> !is_ws(s[j]),
    ensures
        ws_before(s, k) == r,
{
    lemma_ws_before(s, k);
    let f = ws_before(s, k);
    if f < r {
        assert(!is_ws(s[r]));
    } else if r < f {
        assert(!is_ws(s[f]));
    }
}

/// The fields of `s` as the first field, then the fields after the first
/// whitespace.
pub proof fn lemma_ws_fields_front(s: Seq<u8>)
    ensures
        ws_fields(s).len() >= 1,
        ws_fields(s)[0] == s.take(ws_from(s, 0)),
        ws_from(s, 0) < s.len() ==> ws_fields(s) == seq![s.take(ws_from(s, 0))] + ws_fields(
            s.skip(ws_from(s, 0) + 1),
        ),
        ws_from(s, 0) >= s.len() ==> ws_fields(s) == seq![s],
{
    lemma_ws_from(s, 0);
    if ws_from(s, 0) >= s.len() {
        assert(s.take(s.len() as int) =~= s);
    }
}

/// Searching the bytes after `k` is searching `s` from `k` on.
pub proof fn lemma_ws_from_skip(s: Seq<u8>, k: int, i: int)
    requires
        0 <= k <= s.len(),
        0 <= i <= s.len() - k,
    ensures
        ws_from(s.skip(k), i) == ws_from(s, i + k) - k,
{
    let t = s.skip(k);
    lemma_ws_from(s, i + k);
    let f = ws_from(s, i + k);
    assert forall|j: int| i <= j < f - k implies !is_ws(t[j]) by {
        assert(t[j] == s[j + k]);
    }
    if f - k < t.len() {
        assert(t[f - k] == s[f]);
    }
    lemma_ws_from_unique(t, i, f - k);
}

/// The last whitespace of `s` after its first one, seen from the bytes that
/// follow the first one.
proof fn lemma_ws_before_skip(s: Seq<u8>, k: int)
    requires
        0 <= k <= s.len(),
    ensures
        ws_before(s.skip(k), s.len() - k) == (if ws_before(s, s.len() as int) >= k {
            ws_before(s, s.len() as int) - k
        } else {
            -1
        }),
{
    let t = s.skip(k);
    lemma_ws_before(s, s.len() as int);
    let b = ws_before(s, s.len() as int);
    let r = if b >= k {
        b - k
    } else {
        -1
    };
    assert forall|j: int| r < j < t.len() implies !is_ws(t[j]) by {
        assert(t[j] == s[j + k]);
    }
    if r >= 0 {
        assert(t[r] == s[b]);
    }
    lemma_ws_before_unique(t, t.len() as int, r);
}

/// The last field of `s` is what follows its last whitespace.
pub proof fn lemma_ws_fields_last(s: Seq<u8>)
    ensures
        ws_fields(s).len() >= 1,
        ws_fields(s).last() == s.skip(ws_before(s, s.len() as int) + 1),
    decreases s.len(),
{
    lemma_ws_fields_front(s);
    lemma_ws_from(s, 0);
    lemma_ws_before(s, s.len() as int);
    let i = ws_from(s, 0);
    if i >= s.len() {
        lemma_ws_before_unique(s, s.len() as int, -1);
        assert(s.skip(0) =~= s);
    } else {
        let t = s.skip(i + 1);
        lemma_ws_fields_last(t);
        lemma_ws_before_skip(s, i + 1);
        let b = ws_before(s, s.len() as int);
        assert(b >= i) by {
            if b < i {
                assert(!is_ws(s[i]));
            }
        }
        assert(ws_fields(s).last() == ws_fields(t).last());
        if b >= i + 1 {
            assert(t.skip(b - (i + 1) + 1) =~= s.skip(b + 1));
        } else {
            assert(t.skip(0) =~= s.skip(b + 1));
        }
    }
}

/// `s` holds `b` somewhere.
pub open spec fn holds_byte(s: Seq<u8>, b: u8) -> bool {
    exists|i: int| 0 <= i < s.len() && s[i] == b
}

/// `s` ends with `suffix`.
pub open spec fn ends_with(s: Seq<u8>, suffix: Seq<u8>) -> bool {
    suffix.len() <= s.len() && s.subrange(s.len() - suffix.len(), s.len() as int) == suffix
}

/// `<[u8]>::contains`.
pub fn slice_contains(s: &[u8], b: u8) -> (r: bool)
    ensures
        r == holds_byte(s@, b),
{
    let mut i: usize = 0;
    while i < s.len()
        invariant
            i <= s.len(),
            forall|j: int| 0 <= j < i ==> s@[j] != b,
        decreases s.len() - i,
    {
        if s[i] == b {
            return true;
        }
        i = i + 1;
    }
    false
}

/// `<[u8]>::ends_with`.
pub fn slice_ends_with(s: &[u8], suffix: &[u8]) -> (r: bool)
    ensures
        r == ends_with(s@, suffix@),
{
    if suffix.len() > s.len() {
        return false;
    }
    let base = s.len() - suffix.len();
    let mut i: usize = 0;
    while i < suffix.len()
        invariant
            base + suffix.len() == s.len(),
            i <= suffix.len(),
            forall|j: int| 0 <= j < i ==> s@[base + j] == suffix@[j],
        decreases suffix.len() - i,
    {
        if s[base + i] != suffix[i] {
            assert(s@.subrange(base as int, s@.len() as int)[i as int] != suffix@[i as int]);
            return false;
        }
        i = i + 1;
    }
    assert(s@.subrange(base as int, s@.len() as int) =~= suffix@);
    true
}

/// The first index at or after `i` that holds whitespace, `s.len()` where
/// there is none.
pub fn find_ws(s: &[u8], i: usize) -> (r: usize)
    requires
        i <= s.len(),
    ensures
        r == ws_from(s@, i as int),
{
    let mut k = i;
    while k < s.len()
        invariant
            i <= k <= s.len(),
            ws_from(s@, i as int) == ws_from(s@, k as int),
        decreases s.len() - k,
    {
        if is_ascii_whitespace(s[k]) {
            return k;
        }
        k = k + 1;
    }
    k
}

/// One past the last whitespace of `s` (`0` where there is none).
pub fn find_last_ws_end(s: &[u8]) -> (r: usize)
    ensures
        r == ws_before(s@, s@.len() as int) + 1,
{
    let mut k = s.len();
    while k > 0
        invariant
            k <= s.len(),
            ws_before(s@, s@.len() as int) == ws_before(s@, k as int),
        decreases k,
    {
        if is_ascii_whitespace(s[k - 1]) {
            return k;
        }
        k = k - 1;
    }
    0
}

/// Where `splitter` first occurs in `s` at or after `i`, if anywhere.
pub open spec fn find_sub_from(s: Seq<u8>, splitter: Seq<u8>, i: int) -> Option<int>
    decreases s.len() + 1 - i,
{
    if i < 0 || i + splitter.len() > s.len() {
        None
    } else if s.subrange(i, i + splitter.len()) == splitter {
        Some(i)
    } else {
        find_sub_from(s, splitter, i + 1)
    }
}

/// What `ByteSlice::split_once_str` returns: the bytes before and after the
/// first occurrence of `splitter`, `None` where it does not occur.
pub open spec fn split_once(s: Seq<u8>, splitter: Seq<u8>) -> Option<(Seq<u8>, Seq<u8>)> {
    match find_sub_from(s, splitter, 0) {
        Some(i) => Some((s.take(i), s.skip(i + splitter.len()))),
        None => None,
    }
}

/// `bstr::ByteSlice::split_once_str`: splits `s` at the first occurrence of
/// `splitter` into the bytes before and the bytes after it; `None` where it
/// does not occur.
#[verifier::external_body]
pub fn split_once_str<'a>(s: &'a [u8], splitter: &[u8]) -> (r: Option<(&'a [u8], &'a [u8])>)
    ensures
        r is None <==> split_once(s@, splitter@) is None,
        r is Some ==> r.unwrap().0@ == split_once(s@, splitter@).unwrap().0,
        r is Some ==> r.unwrap().1@ == split_once(s@, splitter@).unwrap().1,
{
    s.split_once_str(splitter)
}

/// A line as `bstr`'s `lines()` yields it: without a final `\n`, and
/// without the `\r` before that `\n`.
pub open spec fn trim_terminator(line: Seq<u8>) -> Seq<u8> {
    if line.len() > 0 && line.last() == 0x0au8 {
        let t = line.drop_last();
        if t.len() > 0 && t.last() == 0x0du8 {
            t.drop_last()
        } else {
            t
        }
    } else {
        line
    }
}

/// The first index at or after `i` that holds `b`, `s.len()` where there is
/// none.
pub open spec fn byte_from(s: Seq<u8>, b: u8, i: int) -> int
    decreases s.len() - i,
{
    if i >= s.len() {
        s.len() as int
    } else if s[i] == b {
        i
    } else {
        byte_from(s, b, i + 1)
    }
}

/// What `byte_from` finds.
pub proof fn lemma_byte_from(s: Seq<u8>, b: u8, i: int)
    requires
        0 <= i <= s.len(),
    ensures
        i <= byte_from(s, b, i) <= s.len(),
        byte_from(s, b, i) < s.len() ==> s[byte_from(s, b, i)] == b,
        forall|j: int| i <= j < byte_from(s, b, i) ==> s[j] != b,
    decreases s.len() - i,
{
    if i < s.len() && s[i] != b {
        lemma_byte_from(s, b, i + 1);
    }
}

/// The lines of `s` as `bstr::ByteSlice::lines` yields them: split after
/// each `\n`, each without its `\n` or `\r\n`, and no empty line after a
/// final `\n`.
pub open spec fn split_lines(s: Seq<u8>) -> Seq<Seq<u8>>
    decreases s.len(),
{
    if s.len() == 0 {
        Seq::empty()
    } else {
        let i = byte_from(s, 0x0au8, 0);
        if i >= s.len() {
            seq![s]
        } else {
            proof {
                lemma_byte_from(s, 0x0au8, 0);
            }
            seq![trim_terminator(s.take(i + 1))] + split_lines(s.skip(i + 1))
        }
    }
}

/// `bstr::ByteSlice::lines`, collected: the lines of `s`, split after each
/// `\n`, each without its `\n` or `\r\n`.
#[verifier::external_body]
pub fn byte_lines<'a>(s: &'a [u8]) -> (r: Vec<&'a [u8]>)
    ensures
        r@.len() == split_lines(s@).len(),
        forall|i: int| 0 <= i < r@.len() ==> #[trigger] r@[i]@ == split_lines(s@)[i],
{
    s.lines().collect()
}

/// `splitter` occurs in `s` at `k`.
pub open spec fn occurs_at(s: Seq<u8>, splitter: Seq<u8>, k: int) -> bool {
    0 <= k && k + splitter.len() <= s.len() && s.subrange(k, k + splitter.len()) == splitter
}

/// What `find_sub_from` finds: the first occurrence at or after `i`.
pub proof fn lemma_find_sub_from(s: Seq<u8>, splitter: Seq<u8>, i: int)
    requires
        0 <= i,
    ensures
        find_sub_from(s, splitter, i) matches Some(j) ==> {
            &&& i <= j
            &&& j + splitter.len() <= s.len()
            &&& s.subrange(j, j + splitter.len()) == splitter
            &&& forall|k: int| i <= k < j ==> !#[trigger] occurs_at(s, splitter, k)
        },
    decreases s.len() + 1 - i,
{
    if i + splitter.len() <= s.len() && s.subrange(i, i + splitter.len()) != splitter {
        lemma_find_sub_from(s, splitter, i + 1);
    }
}

/// Splitting at the first occurrence of a splitter loses nothing: the part
/// before, the splitter and the part after make up the whole, and the
/// splitter does not occur earlier.
pub proof fn law_split_once_reassembles(s: Seq<u8>, splitter: Seq<u8>)
    ensures
        split_once(s, splitter) matches Some((before, after)) ==> {
            &&& before + splitter + after == s
            &&& forall|k: int| 0 <= k < before.len() ==> !#[trigger] occurs_at(s, splitter, k)
        },
{
    lemma_find_sub_from(s, splitter, 0);
    if let Some((before, after)) = split_once(s, splitter) {
        let j = find_sub_from(s, splitter, 0).unwrap();
        assert(before + splitter + after =~= s) by {
            assert(s.subrange(j, j + splitter.len()) == splitter);
            assert forall|k: int| 0 <= k < s.len() implies (before + splitter + after)[k] == s[k] by {
                if k >= j && k < j + splitter.len() {
                    assert(s.subrange(j, j + splitter.len())[k - j] == s[k]);
                }
            }
        }
    }
}

/// An occurrence at or after `i` is found: the search from `i` succeeds.
pub proof fn lemma_occurrence_found(s: Seq<u8>, splitter: Seq<u8>, i: int, k: int)
    requires
        0 <= i <= k,
        occurs_at(s, splitter, k),
    ensures
        find_sub_from(s, splitter, i) is Some,
    decreases k - i,
{
    if i < k && !occurs_at(s, splitter, i) {
        lemma_occurrence_found(s, splitter, i + 1, k);
    }
}

/// The search finds something exactly where the splitter occurs somewhere.
pub proof fn law_find_sub_iff_occurs(s: Seq<u8>, splitter: Seq<u8>)
    ensures
        find_sub_from(s, splitter, 0) is Some <==> exists|k: int| #[trigger] occurs_at(s, splitter, k),
{
    lemma_find_sub_from(s, splitter, 0);
    if let Some(j) = find_sub_from(s, splitter, 0) {
        assert(occurs_at(s, splitter, j));
    }
    if exists|k: int| #[trigger] occurs_at(s, splitter, k) {
        let k = choose|k: int| #[trigger] occurs_at(s, splitter, k);
        lemma_occurrence_found(s, splitter, 0, k);
    }
}

/// A byte held somewhere is a one-byte splitter that occurs there.
pub proof fn lemma_byte_occurs(s: Seq<u8>, b: u8)
    requires
        holds_byte(s, b),
    ensures
        find_sub_from(s, seq![b], 0) is Some,
{
    let k = choose|k: int| 0 <= k < s.len() && s[k] == b;
    assert(s.subrange(k, k + 1) =~= seq![b]);
    assert(occurs_at(s, seq![b], k));
    lemma_occurrence_found(s, seq![b], 0, k);
}

} // verus!
