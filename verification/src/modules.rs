//! Picking the game's library among the modules loaded in the process.
use crate::fields::{find_sub_from, occurs_at};
use vstd::prelude::*;

verus! {

/// `needle` occurs somewhere in `s` (`str::contains`, byte by byte).
pub open spec fn contains_bytes(s: Seq<u8>, needle: Seq<u8>) -> bool {
    find_sub_from(s, needle, 0) is Some
}

/// Whether `s` holds `needle` at `at`.
fn matches_at(s: &[u8], needle: &[u8], at: usize) -> (r: bool)
    requires
        at + needle.len() <= s.len(),
    ensures
        r == (s@.subrange(at as int, at + needle.len()) == needle@),
{
    let mut k: usize = 0;
    while k < needle.len()
        invariant
            k <= needle.len(),
            at + needle.len() <= s.len(),
            forall|j: int| 0 <= j < k ==> s@[at + j] == needle@[j],
        decreases needle.len() - k,
    {
        if s[at + k] != needle[k] {
            assert(s@.subrange(at as int, at + needle.len())[k as int] != needle@[k as int]);
            return false;
        }
        k = k + 1;
    }
    assert(s@.subrange(at as int, at + needle.len()) =~= needle@);
    true
}

/// Where `needle` first occurs in `s`, if anywhere.
pub fn find_bytes(s: &[u8], needle: &[u8]) -> (r: Option<usize>)
    ensures
        r is None <==> find_sub_from(s@, needle@, 0) is None,
        r is Some ==> find_sub_from(s@, needle@, 0) == Some(r.unwrap() as int),
{
    if needle.len() > s.len() {
        return None;
    }
    let last = s.len() - needle.len();
    let mut i: usize = 0;
    while i <= last
        invariant
            last + needle.len() == s.len(),
            find_sub_from(s@, needle@, 0) == find_sub_from(s@, needle@, i as int),
        decreases last + 1 - i,
    {
        if matches_at(s, needle, i) {
            return Some(i);
        }
        if i == last {
            return None;
        }
        i = i + 1;
    }
    None
}

/// The index of the first name, from `i` on, that holds `needle`.
pub open spec fn first_containing(names: Seq<Seq<u8>>, needle: Seq<u8>, i: int) -> Option<int>
    decreases names.len() - i,
{
    if i < 0 || i >= names.len() {
        None
    } else if contains_bytes(names[i], needle) {
        Some(i)
    } else {
        first_containing(names, needle, i + 1)
    }
}

/// The first loaded module whose name holds `target_name`, as an index into
/// `names`; `None` where no name holds it.
pub fn find_lib(names: &Vec<Vec<u8>>, target_name: &[u8]) -> (r: Option<usize>)
    ensures
        r is None <==> first_containing(names@.map_values(|n: Vec<u8>| n@), target_name@, 0) is None,
        r is Some ==> first_containing(names@.map_values(|n: Vec<u8>| n@), target_name@, 0) == Some(
            r.unwrap() as int,
        ),
{
    let ghost views = names@.map_values(|n: Vec<u8>| n@);
    let mut i: usize = 0;
    while i < names.len()
        invariant
            i <= names.len(),
            views == names@.map_values(|n: Vec<u8>| n@),
            first_containing(views, target_name@, 0) == first_containing(views, target_name@, i as int),
        decreases names.len() - i,
    {
        assert(views[i as int] == names@[i as int]@);
        if find_bytes(names[i].as_slice(), target_name).is_some() {
            return Some(i);
        }
        i = i + 1;
    }
    None
}

/// A name found by `find_lib` holds the target: at the index found, the
/// target occurs in it, and it does not occur earlier in the name.
pub proof fn law_found_name_holds_target(name: Seq<u8>, target: Seq<u8>)
    ensures
        find_sub_from(name, target, 0) matches Some(at) ==> {
            &&& occurs_at(name, target, at)
            &&& forall|k: int| 0 <= k < at ==> !#[trigger] occurs_at(name, target, k)
        },
{
    crate::fields::lemma_find_sub_from(name, target, 0);
}

/// The module picked is a name that holds the target, with no earlier name
/// holding it; and where any name holds the target (at any place, whatever
/// its length) a module is picked.
pub proof fn law_find_lib_picks_first_holder(names: Seq<Seq<u8>>, target: Seq<u8>)
    ensures
        (exists|i: int, k: int| 0 <= i < names.len() && #[trigger] occurs_at(names[i], target, k))
            ==> first_containing(names, target, 0) is Some,
        first_containing(names, target, 0) matches Some(i) ==> {
            &&& 0 <= i < names.len()
            &&& exists|k: int| #[trigger] occurs_at(names[i], target, k)
            &&& forall|j: int, k: int| 0 <= j < i ==> !#[trigger] occurs_at(names[j], target, k)
        },
{
    lemma_first_containing(names, target, 0);
}

proof fn lemma_first_containing(names: Seq<Seq<u8>>, target: Seq<u8>, i: int)
    requires
        0 <= i <= names.len(),
    ensures
        (exists|j: int, k: int| i <= j < names.len() && #[trigger] occurs_at(names[j], target, k))
            ==> first_containing(names, target, i) is Some,
        first_containing(names, target, i) matches Some(r) ==> {
            &&& i <= r < names.len()
            &&& exists|k: int| #[trigger] occurs_at(names[r], target, k)
            &&& forall|j: int, k: int| i <= j < r ==> !#[trigger] occurs_at(names[j], target, k)
        },
    decreases names.len() - i,
{
    if i < names.len() {
        crate::fields::law_find_sub_iff_occurs(names[i], target);
        lemma_first_containing(names, target, i + 1);
        if exists|j: int, k: int| i <= j < names.len() && #[trigger] occurs_at(names[j], target, k) {
            let (j, k) = choose|j: int, k: int|
                i <= j < names.len() && #[trigger] occurs_at(names[j], target, k);
            if j == i {
                assert(contains_bytes(names[i], target));
            }
        }
        if let Some(r) = first_containing(names, target, i) {
            if r > i {
                assert forall|j: int, k: int| i <= j < r implies !#[trigger] occurs_at(
                    names[j],
                    target,
                    k,
                ) by {
                    if j == i && occurs_at(names[j], target, k) {
                        assert(contains_bytes(names[i], target));
                    }
                }
            }
        }
    }
}

} // verus!
