//! The table of intercepted assets: which `AAsset` handles are served from
//! memory, and what each `AAsset_*` hook answers for them. A hook whose
//! asset is not in the table gets `None` and hands the call on to the NDK.
use crate::buffer::{
    read_count, remaining, seek_facade, seek_outcome, valid_buffer, AssetBuffer, BufferView, SEEK_END,
    SEEK_SET,
};
use rustc_hash::FxBuildHasher;
use rustc_hash::FxHashMap;
use vstd::prelude::*;

verus! {

#[verifier::external_type_specification]
#[verifier::external_body]
pub struct ExFxBuildHasher(FxBuildHasher);

/// The map behind an [`AssetTable`].
pub type AssetMap = FxHashMap<u64, AssetBuffer>;

/// What an `FxHashMap` of intercepted assets holds, key by key.
pub uninterp spec fn asset_entries(m: AssetMap) -> Map<u64, AssetBuffer>;

/// `FxHashMap::default()`: a map that holds nothing.
#[verifier::external_body]
fn fx_map_new() -> (m: AssetMap)
    ensures
        asset_entries(m).dom() == Set::<u64>::empty(),
{
    FxHashMap::default()
}

/// `HashMap::insert` on an `FxHashMap`: afterwards `key` maps to `value` and
/// every other key is unchanged (the value it replaces is dropped).
#[verifier::external_body]
fn fx_map_insert(m: &mut AssetMap, key: u64, value: AssetBuffer)
    ensures
        asset_entries(*final(m)) == asset_entries(*old(m)).insert(key, value),
{
    m.insert(key, value);
}

/// `HashMap::remove` on an `FxHashMap`: afterwards `key` maps to nothing and
/// every other key is unchanged (the value removed is dropped).
#[verifier::external_body]
fn fx_map_remove(m: &mut AssetMap, key: u64)
    ensures
        asset_entries(*final(m)) == asset_entries(*old(m)).remove(key),
{
    m.remove(&key);
}

/// `HashMap::contains_key` on an `FxHashMap`.
#[verifier::external_body]
fn fx_map_contains_key(m: &AssetMap, key: u64) -> (r: bool)
    ensures
        r == asset_entries(*m).contains_key(key),
{
    m.contains_key(&key)
}

/// `HashMap::get` on an `FxHashMap`: the value `key` maps to, if any.
#[verifier::external_body]
fn fx_map_get(m: &AssetMap, key: u64) -> (r: Option<&AssetBuffer>)
    ensures
        asset_entries(*m).contains_key(key) ==> r == Some(&asset_entries(*m)[key]),
        !asset_entries(*m).contains_key(key) ==> r is None,
{
    m.get(&key)
}

/// `HashMap::get_mut` on an `FxHashMap`: a mutable borrow of the value `key`
/// maps to, if any; what is written through it is what the map then holds
/// for `key`, and no other key changes.
#[verifier::external_body]
fn fx_map_get_mut(m: &mut AssetMap, key: u64) -> (r: Option<&mut AssetBuffer>)
    ensures
        asset_entries(*old(m)).contains_key(key) ==> {
            &&& r.is_some()
            &&& *r.unwrap() == asset_entries(*old(m))[key]
            &&& asset_entries(*final(m)) == asset_entries(*old(m)).insert(key, *final(r.unwrap()))
        },
        !asset_entries(*old(m)).contains_key(key) ==> {
            &&& r.is_none()
            &&& asset_entries(*final(m)) == asset_entries(*old(m))
        },
{
    m.get_mut(&key)
}

/// A count or an offset as a C `int` reports it: `-1` where it does not fit.
pub open spec fn report_i32(v: int) -> i32 {
    if i32::MIN <= v <= i32::MAX {
        v as i32
    } else {
        -1i32
    }
}

/// A count or an offset as a 64-bit C offset reports it: `-1` where it does
/// not fit.
pub open spec fn report_i64(v: int) -> i64 {
    if i64::MIN <= v <= i64::MAX {
        v as i64
    } else {
        -1i64
    }
}

/// The number of bytes left after the position (none past the end).
pub open spec fn remaining_len(view: BufferView) -> nat {
    if view.pos >= view.contents.len() {
        0
    } else {
        (view.contents.len() - view.pos) as nat
    }
}

/// `v` as a C `int`, `-1` where it does not fit.
pub fn narrow_i32(v: i64) -> (r: i32)
    ensures
        r == report_i32(v as int),
{
    if i32::MIN as i64 <= v && v <= i32::MAX as i64 {
        v as i32
    } else {
        -1
    }
}

/// `v` as a 64-bit C offset, `-1` where it does not fit.
pub fn unsigned_to_i64(v: u64) -> (r: i64)
    ensures
        r == report_i64(v as int),
{
    if v <= i64::MAX as u64 {
        v as i64
    } else {
        -1
    }
}

/// `v` as a C `int`, `-1` where it does not fit.
pub fn unsigned_to_i32(v: u64) -> (r: i32)
    ensures
        r == report_i32(v as int),
{
    if v <= i32::MAX as u64 {
        v as i32
    } else {
        -1
    }
}

/// A hook call that can change the table, as its effect on the table.
pub enum TableOp {
    /// `AAssetManager_open` of `asset`, with the pack file found for it.
    Open { asset: u64, pack_file: Option<Seq<u8>> },
    /// `AAsset_close` of `asset`.
    Close { asset: u64 },
    /// `AAsset_seek` or `AAsset_seek64` on `asset`.
    Seek { asset: u64, offset: i64, whence: i32 },
    /// `AAsset_read` of at most `requested` bytes from `asset`.
    Read { asset: u64, requested: nat },
}

/// What a hook call does to the table.
pub open spec fn apply_op(table: Map<u64, BufferView>, op: TableOp) -> Map<u64, BufferView> {
    match op {
        TableOp::Open { asset, pack_file } => match pack_file {
            Some(data) => table.insert(asset, BufferView { contents: data, pos: 0 }),
            None => table,
        },
        TableOp::Close { asset } => table.remove(asset),
        TableOp::Seek { asset, offset, whence } => if table.contains_key(asset) {
            table.insert(asset, seek_outcome(table[asset], offset, whence).0)
        } else {
            table
        },
        TableOp::Read { asset, requested } => if table.contains_key(asset) {
            let v = table[asset];
            table.insert(
                asset,
                BufferView { contents: v.contents, pos: (v.pos + read_count(v, requested)) as u64 },
            )
        } else {
            table
        },
    }
}

/// What a sequence of hook calls does to the table, in order.
pub open spec fn apply_ops(table: Map<u64, BufferView>, ops: Seq<TableOp>) -> Map<u64, BufferView>
    decreases ops.len(),
{
    if ops.len() == 0 {
        table
    } else {
        apply_op(apply_ops(table, ops.drop_last()), ops.last())
    }
}

/// `pack_file` as the bytes it holds.
pub open spec fn pack_view(pack_file: Option<Vec<u8>>) -> Option<Seq<u8>> {
    match pack_file {
        Some(data) => Some(data@),
        None => None,
    }
}

/// A table state that the library can be in: finitely many assets, each
/// holding no more bytes than a `Vec` can.
pub open spec fn valid_table(table: Map<u64, BufferView>) -> bool {
    &&& table.dom().finite()
    &&& forall|k: u64| table.contains_key(k) ==> valid_buffer(#[trigger] table[k])
}

/// The map holds finitely many buffers, each one a `Vec` can hold.
spec fn entries_valid(m: AssetMap) -> bool {
    &&& asset_entries(m).dom().finite()
    &&& forall|k: u64| asset_entries(m).contains_key(k) ==> valid_buffer(#[trigger] asset_entries(m)[k]@)
}

/// The assets served from memory, keyed by the address of their `AAsset`.
pub struct AssetTable {
    assets: AssetMap,
}

impl View for AssetTable {
    type V = Map<u64, BufferView>;

    closed spec fn view(&self) -> Map<u64, BufferView> {
        asset_entries(self.assets).map_values(|b: AssetBuffer| b@)
    }
}

impl AssetTable {
    /// The table holds finitely many assets, each one a `Vec` can hold.
    #[verifier::type_invariant]
    spec fn finite_entries(&self) -> bool {
        entries_valid(self.assets)
    }

    proof fn lemma_view_valid(m: AssetMap)
        requires
            entries_valid(m),
        ensures
            valid_table(asset_entries(m).map_values(|b: AssetBuffer| b@)),
    {
        let t = asset_entries(m).map_values(|b: AssetBuffer| b@);
        assert(t.dom() =~= asset_entries(m).dom());
        assert forall|k: u64| t.contains_key(k) implies valid_buffer(#[trigger] t[k]) by {
            assert(t[k] == asset_entries(m)[k]@);
        }
    }

    proof fn lemma_view_insert(
        m: AssetMap,
        m2: AssetMap,
        key: u64,
        value: AssetBuffer,
    )
        requires
            asset_entries(m2) == asset_entries(m).insert(key, value),
        ensures
            asset_entries(m2).map_values(|b: AssetBuffer| b@) == asset_entries(m).map_values(
                |b: AssetBuffer| b@,
            ).insert(key, value@),
    {
        assert(asset_entries(m2).map_values(|b: AssetBuffer| b@) =~= asset_entries(m).map_values(
            |b: AssetBuffer| b@,
        ).insert(key, value@));
    }

    proof fn lemma_view_remove(m: AssetMap, m2: AssetMap, key: u64)
        requires
            asset_entries(m2) == asset_entries(m).remove(key),
        ensures
            asset_entries(m2).map_values(|b: AssetBuffer| b@) == asset_entries(m).map_values(
                |b: AssetBuffer| b@,
            ).remove(key),
    {
        assert(asset_entries(m2).map_values(|b: AssetBuffer| b@) =~= asset_entries(m).map_values(
            |b: AssetBuffer| b@,
        ).remove(key));
    }

    /// Moves the map out, leaving an empty one in its place.
    fn take_assets(&mut self) -> (r: AssetMap)
        ensures
            asset_entries(r) == asset_entries(old(self).assets),
            entries_valid(r),
            asset_entries(final(self).assets).dom() == Set::<u64>::empty(),
    {
        proof {
            use_type_invariant(&*self);
        }
        let mut assets = fx_map_new();
        std::mem::swap(&mut assets, &mut self.assets);
        assets
    }

    /// A table that intercepts nothing.
    pub fn new() -> (r: Self)
        ensures
            r@ == Map::<u64, BufferView>::empty(),
            valid_table(r@),
    {
        let assets = fx_map_new();
        assert(asset_entries(assets).dom() =~= Set::<u64>::empty());
        let r = AssetTable { assets };
        assert(r@ =~= Map::<u64, BufferView>::empty());
        proof {
            Self::lemma_view_valid(r.assets);
        }
        r
    }

    /// Whether `asset` is served from memory.
    pub fn contains(&self, asset: u64) -> (r: bool)
        ensures
            r == self@.contains_key(asset),
    {
        fx_map_contains_key(&self.assets, asset)
    }

    /// What `AAssetManager_open` records once the NDK has opened `asset`:
    /// where the active resource pack has a file for it, `asset` is from now
    /// on served from that file, from its start; otherwise nothing changes.
    pub fn open(&mut self, asset: u64, pack_file: Option<Vec<u8>>)
        ensures
            match pack_file {
                Some(data) => final(self)@ == old(self)@.insert(
                    asset,
                    BufferView { contents: data@, pos: 0 },
                ),
                None => final(self)@ == old(self)@,
            },
            final(self)@ == apply_op(old(self)@, (TableOp::Open { asset, pack_file: pack_view(pack_file) })),
            valid_table(final(self)@),
    {
        proof {
            use_type_invariant(&*self);
        }
        if let Some(data) = pack_file {
            let buf = AssetBuffer::new(data);
            let mut assets = self.take_assets();
            let ghost before = assets;
            fx_map_insert(&mut assets, asset, buf);
            proof {
                Self::lemma_view_insert(before, assets, asset, buf);
                assert(asset_entries(assets).dom() =~= asset_entries(before).dom().insert(asset));
                assert(entries_valid(assets));
            }
            self.assets = assets;
        }
        proof {
            Self::lemma_view_valid(self.assets);
        }
    }

    /// What `AAsset_close` does before the NDK closes `asset`: it is no
    /// longer served from memory, and its buffer is freed.
    pub fn close(&mut self, asset: u64)
        ensures
            final(self)@ == old(self)@.remove(asset),
            final(self)@ == apply_op(old(self)@, (TableOp::Close { asset })),
            valid_table(final(self)@),
    {
        proof {
            use_type_invariant(&*self);
        }
        let mut assets = self.take_assets();
        let ghost before = assets;
        fx_map_remove(&mut assets, asset);
        proof {
            Self::lemma_view_remove(before, assets, asset);
            assert(asset_entries(assets).dom() =~= asset_entries(before).dom().remove(asset));
            assert(entries_valid(assets));
        }
        self.assets = assets;
        proof {
            Self::lemma_view_valid(self.assets);
        }
    }

    /// `AAsset_seek64` on an intercepted asset: the position it reports
    /// (`-1` on a refused request). `None` where `asset` is not intercepted.
    pub fn seek64(&mut self, asset: u64, offset: i64, whence: i32) -> (r: Option<i64>)
        ensures
            !old(self)@.contains_key(asset) ==> r is None && final(self)@ == old(self)@,
            old(self)@.contains_key(asset) ==> {
                let (after, reported) = seek_outcome(old(self)@[asset], offset, whence);
                &&& r == Some(reported)
                &&& final(self)@ == old(self)@.insert(asset, after)
            },
            final(self)@ == apply_op(old(self)@, (TableOp::Seek { asset, offset, whence })),
            valid_table(final(self)@),
    {
        proof {
            use_type_invariant(&*self);
        }
        let mut assets = self.take_assets();
        let ghost before = assets;
        let r = match fx_map_get_mut(&mut assets, asset) {
            Some(file) => {
                let reported = seek_facade(offset, whence, file);
                Some(reported)
            },
            None => None,
        };
        proof {
            if asset_entries(before).contains_key(asset) {
                Self::lemma_view_insert(before, assets, asset, asset_entries(assets)[asset]);
                assert(asset_entries(assets).dom() =~= asset_entries(before).dom());
            }
            assert(entries_valid(assets));
        }
        self.assets = assets;
        proof {
            Self::lemma_view_valid(self.assets);
        }
        r
    }

    /// `AAsset_seek` where `off_t` is a 32-bit C `long`: the position it
    /// reports, `-1` on a refused request or where the position does not fit
    /// in 32 bits. `None` where `asset` is not intercepted.
    pub fn seek32(&mut self, asset: u64, offset: i32, whence: i32) -> (r: Option<i32>)
        ensures
            !old(self)@.contains_key(asset) ==> r is None && final(self)@ == old(self)@,
            old(self)@.contains_key(asset) ==> {
                let (after, reported) = seek_outcome(old(self)@[asset], offset as i64, whence);
                &&& r == Some(report_i32(reported as int))
                &&& final(self)@ == old(self)@.insert(asset, after)
            },
            final(self)@ == apply_op(
                old(self)@,
                (TableOp::Seek { asset, offset: offset as i64, whence }),
            ),
            valid_table(final(self)@),
    {
        match self.seek64(asset, offset as i64, whence) {
            Some(reported) => Some(narrow_i32(reported)),
            None => None,
        }
    }

    /// `AAsset_read` on an intercepted asset: copies into the front of `out`
    /// the next bytes from the position, as many as fit, advances the position
    /// by that many, and reports the count (`-1` where it does not fit in a
    /// C `int`; the position has then moved). `None`, with `out` untouched,
    /// where `asset` is not intercepted.
    pub fn read(&mut self, asset: u64, out: &mut [u8]) -> (r: Option<i32>)
        ensures
            !old(self)@.contains_key(asset) ==> {
                &&& r is None
                &&& final(self)@ == old(self)@
                &&& final(out)@ == old(out)@
            },
            old(self)@.contains_key(asset) ==> {
                let before = old(self)@[asset];
                let n = read_count(before, old(out)@.len());
                &&& r == Some(report_i32(n as int))
                &&& final(self)@[asset].pos == before.pos + n
                &&& final(self)@ == old(self)@.insert(
                    asset,
                    BufferView { contents: before.contents, pos: (before.pos + n) as u64 },
                )
                &&& final(out)@.len() == old(out)@.len()
                &&& final(out)@.subrange(0, n as int) == remaining(before).subrange(0, n as int)
                &&& final(out)@.subrange(n as int, old(out)@.len() as int) == old(out)@.subrange(
                    n as int,
                    old(out)@.len() as int,
                )
            },
            final(self)@ == apply_op(
                old(self)@,
                (TableOp::Read { asset, requested: old(out)@.len() }),
            ),
            valid_table(final(self)@),
    {
        proof {
            use_type_invariant(&*self);
        }
        let mut assets = self.take_assets();
        let ghost before = assets;
        let r = match fx_map_get_mut(&mut assets, asset) {
            Some(file) => {
                let n = file.read(out);
                Some(unsigned_to_i32(n as u64))
            },
            None => {
                assert(out@ =~= old(out)@);
                None
            },
        };
        proof {
            if asset_entries(before).contains_key(asset) {
                Self::lemma_view_insert(before, assets, asset, asset_entries(assets)[asset]);
                assert(asset_entries(assets).dom() =~= asset_entries(before).dom());
            }
            assert(entries_valid(assets));
        }
        self.assets = assets;
        proof {
            Self::lemma_view_valid(self.assets);
        }
        r
    }

    /// `AAsset_getLength64` on an intercepted asset: its size in bytes.
    /// `None` where `asset` is not intercepted.
    pub fn len64(&self, asset: u64) -> (r: Option<i64>)
        ensures
            !self@.contains_key(asset) ==> r is None,
            self@.contains_key(asset) ==> r == Some(report_i64(self@[asset].contents.len() as int)),
            self@.contains_key(asset) ==> r == Some(self@[asset].contents.len() as i64),
            valid_table(self@),
    {
        proof {
            use_type_invariant(self);
            Self::lemma_view_valid(self.assets);
        }
        match fx_map_get(&self.assets, asset) {
            Some(file) => Some(unsigned_to_i64(file.len() as u64)),
            None => None,
        }
    }

    /// `AAsset_getLength` where `off_t` is 32 bits: its size in bytes, `-1`
    /// where that does not fit. `None` where `asset` is not intercepted.
    pub fn len32(&self, asset: u64) -> (r: Option<i32>)
        ensures
            !self@.contains_key(asset) ==> r is None,
            self@.contains_key(asset) ==> r == Some(report_i32(self@[asset].contents.len() as int)),
    {
        match fx_map_get(&self.assets, asset) {
            Some(file) => Some(unsigned_to_i32(file.len() as u64)),
            None => None,
        }
    }

    /// The number of bytes left after the position of an intercepted asset.
    fn rem_bytes(&self, asset: u64) -> (r: Option<u64>)
        ensures
            !self@.contains_key(asset) ==> r is None,
            self@.contains_key(asset) ==> r is Some && r.unwrap() as int == remaining_len(self@[asset]),
    {
        match fx_map_get(&self.assets, asset) {
            Some(file) => {
                let total = file.len() as u64;
                Some(total.saturating_sub(file.position()))
            },
            None => None,
        }
    }

    /// `AAsset_getRemainingLength64` on an intercepted asset: the bytes left
    /// after the position, none where the position lies past the end.
    /// `None` where `asset` is not intercepted.
    pub fn rem64(&self, asset: u64) -> (r: Option<i64>)
        ensures
            !self@.contains_key(asset) ==> r is None,
            self@.contains_key(asset) ==> r == Some(report_i64(remaining_len(self@[asset]) as int)),
            self@.contains_key(asset) ==> r == Some(remaining_len(self@[asset]) as i64),
            valid_table(self@),
    {
        proof {
            use_type_invariant(self);
            Self::lemma_view_valid(self.assets);
        }
        match self.rem_bytes(asset) {
            Some(n) => Some(unsigned_to_i64(n)),
            None => None,
        }
    }

    /// `AAsset_getRemainingLength` where `off_t` is 32 bits: as
    /// [`AssetTable::rem64`], `-1` where the count does not fit.
    pub fn rem32(&self, asset: u64) -> (r: Option<i32>)
        ensures
            !self@.contains_key(asset) ==> r is None,
            self@.contains_key(asset) ==> r == Some(report_i32(remaining_len(self@[asset]) as int)),
    {
        match self.rem_bytes(asset) {
            Some(n) => Some(unsigned_to_i32(n)),
            None => None,
        }
    }

    /// `AAsset_getBuffer` on an intercepted asset: its bytes, all of them.
    /// `None` where `asset` is not intercepted.
    pub fn buffer(&self, asset: u64) -> (r: Option<&[u8]>)
        ensures
            !self@.contains_key(asset) ==> r is None,
            self@.contains_key(asset) ==> r is Some && r.unwrap()@ == self@[asset].contents,
    {
        match fx_map_get(&self.assets, asset) {
            Some(file) => Some(file.get_ref()),
            None => None,
        }
    }

    /// `AAsset_openFileDescriptor` (either width) on an intercepted asset:
    /// `-1`, since a buffer in memory has no file descriptor. `None` where
    /// `asset` is not intercepted.
    pub fn open_fd(&self, asset: u64) -> (r: Option<i32>)
        ensures
            r == (if self@.contains_key(asset) {
                Some(-1i32)
            } else {
                None
            }),
    {
        if self.contains(asset) {
            Some(-1)
        } else {
            None
        }
    }

    /// `AAsset_isAllocated` on an intercepted asset: `0` (false). `None`
    /// where `asset` is not intercepted.
    pub fn is_allocated(&self, asset: u64) -> (r: Option<i32>)
        ensures
            r == (if self@.contains_key(asset) {
                Some(0i32)
            } else {
                None
            }),
    {
        if self.contains(asset) {
            Some(0)
        } else {
            None
        }
    }
}

/// An asset just opened from a pack file is served whole from its start:
/// its length is the file's, all of it is left to read.
pub proof fn law_open_serves_whole_file(table: Map<u64, BufferView>, asset: u64, data: Seq<u8>)
    ensures
        ({
            let after = table.insert(asset, BufferView { contents: data, pos: 0 });
            &&& after.contains_key(asset)
            &&& after[asset].contents == data
            &&& remaining_len(after[asset]) == data.len()
            &&& remaining(after[asset]) == data
        }),
{
    let after = table.insert(asset, BufferView { contents: data, pos: 0 });
    if data.len() > 0 {
        assert(remaining(after[asset]) =~= data);
    }
}

/// Once an asset is closed, it is no longer served from memory (every hook
/// hands it on to the NDK) and its buffer is gone; no other asset changes.
pub proof fn law_close_forgets(table: Map<u64, BufferView>, asset: u64, other: u64)
    requires
        other != asset,
        valid_table(table),
    ensures
        !table.remove(asset).contains_key(asset),
        table.remove(asset).contains_key(other) == table.contains_key(other),
        table.contains_key(other) ==> table.remove(asset)[other] == table[other],
        table.remove(asset).dom().finite(),
        table.remove(asset).dom().len() == (if table.contains_key(asset) {
            table.dom().len() - 1
        } else {
            table.dom().len() as int
        }),
{
    assert(table.remove(asset).dom() =~= table.dom().remove(asset));
}

/// What a hook does to one asset leaves every other asset as it was.
pub proof fn law_hooks_isolated(table: Map<u64, BufferView>, asset: u64, state: BufferView, other: u64)
    requires
        other != asset,
    ensures
        table.insert(asset, state).contains_key(other) == table.contains_key(other),
        table.contains_key(other) ==> table.insert(asset, state)[other] == table[other],
{
}

/// The bytes left are the bytes after the position: with the position
/// inside the asset, the position and the count left add up to its length;
/// past the end, nothing is left.
pub proof fn law_remaining_plus_position(view: BufferView)
    ensures
        remaining_len(view) == remaining(view).len(),
        view.pos <= view.contents.len() ==> remaining_len(view) + view.pos == view.contents.len(),
        view.pos >= view.contents.len() ==> remaining_len(view) == 0,
{
}

/// Closing an asset undoes opening it: an asset that was not served
/// before is, once opened from a pack file and closed, no longer served,
/// and the table is as it was.
pub proof fn law_close_undoes_open(table: Map<u64, BufferView>, asset: u64, data: Seq<u8>)
    requires
        !table.contains_key(asset),
    ensures
        table.insert(asset, BufferView { contents: data, pos: 0 }).remove(asset) == table,
{
    assert(table.insert(asset, BufferView { contents: data, pos: 0 }).remove(asset) =~= table);
}

/// The call puts `asset` in the table afresh or takes it out.
pub open spec fn resets(op: TableOp, asset: u64) -> bool {
    match op {
        TableOp::Open { asset: a, pack_file } => a == asset && pack_file is Some,
        TableOp::Close { asset: a } => a == asset,
        _ => false,
    }
}

/// A call that does not put `asset` in afresh nor take it out leaves
/// whether it is served, and its bytes, as they were.
proof fn lemma_op_keeps(table: Map<u64, BufferView>, op: TableOp, asset: u64)
    requires
        !resets(op, asset),
    ensures
        apply_op(table, op).contains_key(asset) == table.contains_key(asset),
        table.contains_key(asset) ==> apply_op(table, op)[asset].contents == table[asset].contents,
{
}

/// While an intercepted asset is neither opened afresh nor closed, seeks
/// and reads (on it or on any other asset) keep it served with the bytes of
/// its pack file: its length stays the pack file's.
pub proof fn law_length_kept(table: Map<u64, BufferView>, ops: Seq<TableOp>, asset: u64)
    requires
        table.contains_key(asset),
        forall|i: int| 0 <= i < ops.len() ==> !resets(#[trigger] ops[i], asset),
    ensures
        apply_ops(table, ops).contains_key(asset),
        apply_ops(table, ops)[asset].contents == table[asset].contents,
        valid_buffer(table[asset]) ==> report_i64(apply_ops(table, ops)[asset].contents.len() as int)
            == table[asset].contents.len(),
    decreases ops.len(),
{
    if ops.len() > 0 {
        law_length_kept(table, ops.drop_last(), asset);
        assert(!resets(ops[ops.len() - 1], asset));
        lemma_op_keeps(apply_ops(table, ops.drop_last()), ops.last(), asset);
    }
}

/// Starting from an empty table, every asset served from memory was opened
/// with a pack file and not closed since; it is served from the bytes of
/// that pack file.
pub proof fn law_entries_come_from_opens(ops: Seq<TableOp>, asset: u64)
    ensures
        apply_ops(Map::empty(), ops).contains_key(asset) ==> exists|i: int|
            #![trigger ops[i]]
            {
                &&& 0 <= i < ops.len()
                &&& ops[i] matches TableOp::Open { asset: a, pack_file: Some(data) }
                &&& a == asset
                &&& apply_ops(Map::empty(), ops)[asset].contents == data
                &&& forall|j: int| i < j < ops.len() ==> !resets(#[trigger] ops[j], asset)
            },
    decreases ops.len(),
{
    let t = apply_ops(Map::empty(), ops);
    if ops.len() > 0 && t.contains_key(asset) {
        let prev = ops.drop_last();
        let last = ops.last();
        let tp = apply_ops(Map::empty(), prev);
        if resets(last, asset) {
            let i = ops.len() - 1;
            assert(ops[i] == last);
        } else {
            law_entries_come_from_opens(prev, asset);
            lemma_op_keeps(tp, last, asset);
            let i = choose|i: int|
                #![trigger prev[i]]
                {
                    &&& 0 <= i < prev.len()
                    &&& prev[i] matches TableOp::Open { asset: a, pack_file: Some(data) }
                    &&& a == asset
                    &&& tp[asset].contents == data
                    &&& forall|j: int| i < j < prev.len() ==> !resets(#[trigger] prev[j], asset)
                };
            assert(ops[i] == prev[i]);
            assert forall|j: int| i < j < ops.len() implies !resets(#[trigger] ops[j], asset) by {
                if j < prev.len() {
                    assert(ops[j] == prev[j]);
                }
            }
        }
    }
}

/// A read takes exactly the bytes it reports from what is left: the count
/// left after it is the count before less the bytes read, as the 64-bit
/// remaining-length hook reports them.
pub proof fn law_read_then_remaining(view: BufferView, requested: nat)
    requires
        valid_buffer(view),
    ensures
        ({
            let n = read_count(view, requested);
            let after = BufferView { contents: view.contents, pos: (view.pos + n) as u64 };
            &&& remaining_len(after) == remaining_len(view) - n
            &&& report_i64(remaining_len(after) as int) == report_i64(remaining_len(view) as int) - n
        }),
{
}

/// After a seek to `x` from the start, `len - x` bytes are left where `x`
/// lies within the asset and none where it lies at or past its end; after
/// a seek to the end none are left.
pub proof fn law_seek_then_remaining(view: BufferView, x: i64)
    requires
        valid_buffer(view),
        x >= 0,
    ensures
        ({
            let (after, reported) = seek_outcome(view, x, SEEK_SET);
            &&& reported == x
            &&& x <= view.contents.len() ==> report_i64(remaining_len(after) as int)
                == view.contents.len() - x
            &&& x >= view.contents.len() ==> remaining_len(after) == 0
        }),
        remaining_len(seek_outcome(view, 0, SEEK_END).0) == 0,
{
}

/// Hook calls keep the table in a state the library can be in, as long
/// as every pack file opened fits in a `Vec`.
pub proof fn law_ops_keep_valid(table: Map<u64, BufferView>, ops: Seq<TableOp>)
    requires
        valid_table(table),
        forall|i: int|
            0 <= i < ops.len() ==> (#[trigger] ops[i] matches TableOp::Open {
                pack_file: Some(data),
                ..
            } ==> data.len() <= isize::MAX),
    ensures
        valid_table(apply_ops(table, ops)),
    decreases ops.len(),
{
    if ops.len() > 0 {
        let prev = ops.drop_last();
        assert forall|i: int| 0 <= i < prev.len() implies (#[trigger] prev[i] matches TableOp::Open {
            pack_file: Some(data),
            ..
        } ==> data.len() <= isize::MAX) by {
            assert(prev[i] == ops[i]);
        }
        law_ops_keep_valid(table, prev);
        let t = apply_ops(table, prev);
        let last = ops.last();
        assert(ops[ops.len() - 1] == last);
        let t2 = apply_op(t, last);
        match last {
            TableOp::Close { asset } => {
                assert(t2.dom() =~= t.dom().remove(asset));
            },
            TableOp::Open { asset, pack_file } => {
                if pack_file is Some {
                    assert(t2.dom() =~= t.dom().insert(asset));
                }
            },
            TableOp::Seek { asset, .. } => {
                if t.contains_key(asset) {
                    assert(t2.dom() =~= t.dom().insert(asset));
                }
            },
            TableOp::Read { asset, .. } => {
                if t.contains_key(asset) {
                    assert(t2.dom() =~= t.dom().insert(asset));
                }
            },
        }
    }
}

/// A count or offset is reported as itself wherever it fits in a C `int`
/// (or a 64-bit C offset), and as `-1` only where it does not.
pub proof fn law_reports_exact(v: int)
    ensures
        i32::MIN <= v <= i32::MAX ==> report_i32(v) as int == v,
        !(i32::MIN <= v <= i32::MAX) ==> report_i32(v) == -1,
        i64::MIN <= v <= i64::MAX ==> report_i64(v) as int == v,
        !(i64::MIN <= v <= i64::MAX) ==> report_i64(v) == -1,
{
}

/// A read of an intercepted asset reports the number of bytes it copied
/// wherever that fits in a C `int`: a read of `n <= i32::MAX` bytes answers
/// `n`, whatever the size of the asset.
pub proof fn law_read_reports_count(view: BufferView, requested: nat)
    ensures
        read_count(view, requested) <= i32::MAX ==> report_i32(read_count(view, requested) as int)
            as int == read_count(view, requested),
        read_count(view, requested) <= requested,
{
}

} // verus!
