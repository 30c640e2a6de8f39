//! The durable regions that hold the registry's state.
//!
//! Each region is an ordered map that lives in stable memory and survives a
//! restart. The maps come from `ic_stable_structures`; nothing in this module
//! is proved. Each function below states, over a mathematical map that names
//! the region's contents, what the source of that crate shows of the method
//! it calls. The rest of the library is verified against these statements.
//!
//! A region stops the program when its memory cannot grow any further, as a
//! `Vec` does when an allocation fails.

use ic_stable_structures::memory_manager::{MemoryId, MemoryManager, VirtualMemory};
use ic_stable_structures::{DefaultMemoryImpl, StableBTreeMap};
use vstd::prelude::*;

verus! {

/// The greatest number of bytes of a key or a value that a region keeps
/// intact: it records each size in four bytes.
pub const MAX_ENTRY_LEN: usize = 0xffff_ffff;

/// The memory identifier that the memory manager keeps for itself.
pub const RESERVED_REGION: u8 = 255;

/// The region of encoded asset records, keyed by asset identifier.
#[verifier::external_body]
pub struct RecordRegion {
    inner: StableBTreeMap<u64, Vec<u8>, VirtualMemory<DefaultMemoryImpl>>,
}

/// The region that holds the identifier counter.
#[verifier::external_body]
pub struct CounterRegion {
    inner: StableBTreeMap<u8, u64, VirtualMemory<DefaultMemoryImpl>>,
}

/// The region of file blobs, keyed by content hash.
#[verifier::external_body]
pub struct BlobRegion {
    inner: StableBTreeMap<String, Vec<u8>, VirtualMemory<DefaultMemoryImpl>>,
}

/// The entries that the record region holds.
pub uninterp spec fn record_entries(region: RecordRegion) -> Map<u64, Seq<u8>>;

/// The entries that the counter region holds.
pub uninterp spec fn counter_entries(region: CounterRegion) -> Map<u8, u64>;

/// The entries that the blob region holds.
pub uninterp spec fn blob_entries(region: BlobRegion) -> Map<Seq<char>, Seq<u8>>;

/// The identifier of the memory that the memory manager handed out for the
/// record region when it was opened.
pub uninterp spec fn record_memory(region: RecordRegion) -> u8;

/// The identifier of the memory that the memory manager handed out for the
/// counter region when it was opened.
pub uninterp spec fn counter_memory(region: CounterRegion) -> u8;

/// The identifier of the memory that the memory manager handed out for the
/// blob region when it was opened.
pub uninterp spec fn blob_memory(region: BlobRegion) -> u8;

/// What a lookup of `key` in `entries` gives.
pub open spec fn lookup<K, V>(entries: Map<K, V>, key: K) -> Option<V> {
    if entries.contains_key(key) {
        Some(entries[key])
    } else {
        None
    }
}

/// Whether `entries` holds exactly `size` entries.
pub open spec fn has_size<K, V>(entries: Map<K, V>, size: u64) -> bool {
    entries.dom().finite() && entries.dom().len() == size
}

/// `MemoryManager::init` on the default memory, `MemoryManager::get` for each
/// of the three identifiers, and `StableBTreeMap::init` on each memory
/// handed out. A map is loaded if its memory holds one and is created empty
/// otherwise, so nothing is said of the contents. What is said is on which
/// memory each region was opened: `MemoryManager::get` hands out the memory
/// with the identifier it is given, and the map keeps the memory it is
/// opened on. The identifiers differ, so that no two regions share memory,
/// and none is the one that `MemoryId::new` refuses. What the other
/// functions of this module say of a region holds as long as nothing else
/// writes to its memory.
#[verifier::external_body]
pub(crate) fn open_regions(records: u8, counter: u8, blobs: u8) -> (r: (
    RecordRegion,
    CounterRegion,
    BlobRegion,
))
    requires
        records != counter,
        records != blobs,
        counter != blobs,
        records != RESERVED_REGION,
        counter != RESERVED_REGION,
        blobs != RESERVED_REGION,
    ensures
        record_memory(r.0) == records,
        counter_memory(r.1) == counter,
        blob_memory(r.2) == blobs,
{
    let manager = MemoryManager::init(DefaultMemoryImpl::default());
    (
        RecordRegion { inner: StableBTreeMap::init(manager.get(MemoryId::new(records))) },
        CounterRegion { inner: StableBTreeMap::init(manager.get(MemoryId::new(counter))) },
        BlobRegion { inner: StableBTreeMap::init(manager.get(MemoryId::new(blobs))) },
    )
}

/// `StableBTreeMap::get` on the counter region: the value kept under `key`,
/// if there is one.
#[verifier::external_body]
pub(crate) fn counter_get(region: &CounterRegion, key: u8) -> (r: Option<u64>)
    ensures
        r == lookup(counter_entries(*region), key),
{
    region.inner.get(&key)
}

/// `StableBTreeMap::insert` on the counter region: `value` is kept under
/// `key` from now on, every other entry stays, and the value that was kept
/// under `key` before is returned.
#[verifier::external_body]
pub(crate) fn counter_insert(region: &mut CounterRegion, key: u8, value: u64) -> (r: Option<u64>)
    ensures
        counter_entries(*final(region)) == counter_entries(*old(region)).insert(key, value),
        r == lookup(counter_entries(*old(region)), key),
{
    region.inner.insert(key, value)
}

/// `StableBTreeMap::get` on the record region: the bytes kept under `id`, if
/// there are any. What is read back is no longer than the size field allows.
#[verifier::external_body]
pub(crate) fn record_get(region: &RecordRegion, id: u64) -> (r: Option<Vec<u8>>)
    ensures
        r is Some <==> record_entries(*region).contains_key(id),
        r matches Some(bytes) ==> bytes@ == record_entries(*region)[id] && bytes@.len()
            <= MAX_ENTRY_LEN,
{
    region.inner.get(&id)
}

/// `StableBTreeMap::insert` on the record region: `bytes` are kept under `id`
/// from now on and every other entry stays. The source writes the length of
/// a value into four bytes, so longer values are left out.
#[verifier::external_body]
pub(crate) fn record_insert(region: &mut RecordRegion, id: u64, bytes: Vec<u8>)
    requires
        bytes@.len() <= MAX_ENTRY_LEN,
    ensures
        record_entries(*final(region)) == record_entries(*old(region)).insert(id, bytes@),
{
    region.inner.insert(id, bytes);
}

/// `StableBTreeMap::len` on the record region: the number of entries, which
/// the map counts as it inserts.
#[verifier::external_body]
pub(crate) fn record_count(region: &RecordRegion) -> (r: u64)
    ensures
        has_size(record_entries(*region), r),
{
    region.inner.len()
}

/// `StableBTreeMap::range` from `from` upwards, and the first item of the
/// iterator it returns. The iterator walks the entries whose key lies in the
/// range in rising key order, so the item is the entry with the least key
/// that is not below `from`, and there is none exactly when no key is.
#[verifier::external_body]
pub(crate) fn record_at_or_after(region: &RecordRegion, from: u64) -> (r: Option<(u64, Vec<u8>)>)
    ensures
        r matches Some((id, bytes)) ==> {
            &&& from <= id
            &&& record_entries(*region).contains_key(id)
            &&& bytes@ == record_entries(*region)[id]
            &&& forall|other: u64| from <= other < id ==> !record_entries(*region).contains_key(other)
        },
        r is None ==> forall|other: u64| from <= other ==> !record_entries(*region).contains_key(other),
{
    region.inner.range(from..).next()
}

/// `StableBTreeMap::contains_key` on the blob region.
#[verifier::external_body]
pub(crate) fn blob_contains(region: &BlobRegion, hash: &String) -> (r: bool)
    ensures
        r == blob_entries(*region).contains_key(hash@),
{
    region.inner.contains_key(hash)
}

/// `StableBTreeMap::get` on the blob region: the bytes kept under `hash`, if
/// there are any.
#[verifier::external_body]
pub(crate) fn blob_get(region: &BlobRegion, hash: &String) -> (r: Option<Vec<u8>>)
    ensures
        r is Some <==> blob_entries(*region).contains_key(hash@),
        r matches Some(bytes) ==> bytes@ == blob_entries(*region)[hash@],
{
    region.inner.get(hash)
}

/// `StableBTreeMap::insert` on the blob region: `bytes` are kept under `hash`
/// from now on and every other entry stays. The source writes the lengths of
/// a key and of a value into four bytes each, so longer ones are left out.
#[verifier::external_body]
pub(crate) fn blob_insert(region: &mut BlobRegion, hash: String, bytes: Vec<u8>)
    requires
        vstd::utf8::encode_utf8(hash@).len() <= MAX_ENTRY_LEN,
        bytes@.len() <= MAX_ENTRY_LEN,
    ensures
        blob_entries(*final(region)) == blob_entries(*old(region)).insert(hash@, bytes@),
{
    region.inner.insert(hash, bytes);
}

} // verus!
