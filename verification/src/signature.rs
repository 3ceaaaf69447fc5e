//! The order of the signature scan that finds the resource pack manager's
//! constructor: every signature, from the newest game version on, is
//! searched for in every executable region of the library, and the first
//! hit decides. The search itself runs outside; this plan says what to
//! search next and turns a hit into a code address.
use crate::maps::SimpleMapRange;
use vstd::prelude::*;
use vstd::wrapping::usize_specs;

verus! {

/// What the scan asks for next.
#[derive(Clone, Copy, Debug, PartialEq, Eq)]
pub enum ScanStep {
    /// Search for signature `signature` in the region `start..start + size`
    /// (region number `range`).
    Search { signature: usize, range: usize, start: usize, size: usize },
    /// Every signature has been searched for in every region, with no hit.
    NotFound,
}

/// The state of a scan over `signatures` signatures and a list of regions.
pub struct SignatureScan {
    signatures: usize,
    ranges: Vec<SimpleMapRange>,
    signature: usize,
    range: usize,
}

/// The abstract state of a scan: how many signatures, which regions, and
/// the (signature, region) pair it asks for next.
pub struct ScanView {
    pub signatures: nat,
    pub ranges: Seq<SimpleMapRange>,
    pub signature: nat,
    pub range: nat,
}

/// A scan is over once every signature has been tried, or at once where
/// there is no region to search.
pub open spec fn scan_over(v: ScanView) -> bool {
    v.signature >= v.signatures || v.ranges.len() == 0
}

/// The pair after `(signature, range)`: the next region for the same
/// signature, or the first region for the next signature.
pub open spec fn next_pair(v: ScanView) -> ScanView {
    if v.range + 1 < v.ranges.len() {
        ScanView { range: v.range + 1, ..v }
    } else {
        ScanView { signature: v.signature + 1, range: 0, ..v }
    }
}

/// The code address of a hit at `offset` in a region that starts at
/// `start`: `start + offset`, one more on 32-bit ARM where the code is
/// Thumb code (wrapping, as address arithmetic on a `usize` does).
pub open spec fn hit_address(start: usize, offset: usize, thumb: bool) -> usize {
    let addr = usize_specs::wrapping_add(start, offset);
    if thumb {
        usize_specs::wrapping_add(addr, 1)
    } else {
        addr
    }
}

/// The code address of a hit at `offset` in a region that starts at `start`.
pub fn code_address(start: usize, offset: usize, thumb: bool) -> (r: usize)
    ensures
        r == hit_address(start, offset, thumb),
{
    let addr = start.wrapping_add(offset);
    if thumb {
        addr.wrapping_add(1)
    } else {
        addr
    }
}

impl View for SignatureScan {
    type V = ScanView;

    closed spec fn view(&self) -> ScanView {
        ScanView {
            signatures: self.signatures as nat,
            ranges: self.ranges@,
            signature: self.signature as nat,
            range: self.range as nat,
        }
    }
}

impl SignatureScan {
    /// The scan is well formed: the region it asks for exists while the
    /// scan is not over.
    #[verifier::type_invariant]
    spec fn wf(&self) -> bool {
        &&& self.signature <= self.signatures
        &&& (self.ranges@.len() > 0 ==> self.range < self.ranges@.len())
    }

    /// A scan of `signatures` signatures over `ranges`, starting with the
    /// first signature in the first region.
    pub fn new(signatures: usize, ranges: Vec<SimpleMapRange>) -> (r: Self)
        ensures
            r@ == (ScanView { signatures: signatures as nat, ranges: ranges@, signature: 0, range: 0 }),
    {
        SignatureScan { signatures, ranges, signature: 0, range: 0 }
    }

    /// What to search for next: the current signature in the current
    /// region, or `NotFound` once the scan is over.
    pub fn next_step(&self) -> (r: ScanStep)
        ensures
            scan_over(self@) ==> r == ScanStep::NotFound,
            !scan_over(self@) ==> r == (ScanStep::Search {
                signature: self@.signature as usize,
                range: self@.range as usize,
                start: self@.ranges[self@.range as int].start,
                size: self@.ranges[self@.range as int].size,
            }),
    {
        proof {
            use_type_invariant(self);
        }
        if self.signature >= self.signatures || self.ranges.len() == 0 {
            ScanStep::NotFound
        } else {
            let r = self.ranges[self.range];
            ScanStep::Search {
                signature: self.signature,
                range: self.range,
                start: r.start,
                size: r.size,
            }
        }
    }

    /// Takes the outcome of the search that `next_step` asked for: a hit at
    /// `found` gives the code address of the hit; no hit moves on to the
    /// next (signature, region) pair and gives `None`.
    pub fn record(&mut self, found: Option<usize>, thumb: bool) -> (r: Option<usize>)
        requires
            !scan_over(old(self)@),
        ensures
            match found {
                Some(offset) => {
                    &&& r == Some(
                        hit_address(old(self)@.ranges[old(self)@.range as int].start, offset, thumb),
                    )
                    &&& final(self)@ == old(self)@
                },
                None => r is None && final(self)@ == next_pair(old(self)@),
            },
    {
        proof {
            use_type_invariant(&*self);
        }
        match found {
            Some(offset) => Some(code_address(self.ranges[self.range].start, offset, thumb)),
            None => {
                assert(self.range < self.ranges.len() && self.signature < self.signatures);
                if self.range + 1 < self.ranges.len() {
                    self.range = self.range + 1;
                } else {
                    self.signature = self.signature + 1;
                    self.range = 0;
                }
                None
            },
        }
    }
}

/// The number of searches a scan still has to make where nothing is found.
pub open spec fn searches_left(v: ScanView) -> int {
    if scan_over(v) {
        0
    } else {
        (v.signatures - v.signature) * v.ranges.len() - v.range
    }
}

/// Every search that finds nothing brings the scan one step closer to its
/// end: a fresh scan makes one search per (signature, region) pair, in
/// order of signature, then of region, and reports `NotFound` after the last.
pub proof fn law_scan_progress(v: ScanView)
    requires
        !scan_over(v),
        v.range < v.ranges.len(),
    ensures
        searches_left(next_pair(v)) == searches_left(v) - 1,
        next_pair(v).signature > v.signature || (next_pair(v).signature == v.signature
            && next_pair(v).range == v.range + 1),
        searches_left(ScanView { signature: 0, range: 0, ..v }) == v.signatures * v.ranges.len(),
{
    let n = next_pair(v);
    let s = v.signatures - v.signature;
    let l = v.ranges.len() as int;
    assert(s >= 1);
    if v.range + 1 < l {
        assert(s * l - (v.range + 1) == s * l - v.range - 1);
    } else {
        assert((s - 1) * l == s * l - l) by (nonlinear_arith);
        if n.signature >= n.signatures {
            assert(s == 1);
            assert(s * l == l) by (nonlinear_arith)
                requires
                    s == 1,
            ;
        }
    }
}

/// The code address of a hit is the start of its region plus the offset of
/// the hit (plus one for Thumb code), for every start and offset whose sum
/// stays within the address space; past it the sum wraps around.
pub proof fn law_hit_address_is_start_plus_offset(start: usize, offset: usize, thumb: bool)
    ensures
        start + offset <= usize::MAX ==> hit_address(start, offset, false) == start + offset,
        start + offset < usize::MAX ==> hit_address(start, offset, true) == start + offset + 1,
        start + offset > usize::MAX ==> hit_address(start, offset, false) == start + offset - usize::MAX
            - 1,
{
}

} // verus!
