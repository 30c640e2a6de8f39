//! The registry and its operations.
//!
//! The state of a registry is three mathematical values: the bytes kept
//! under each asset identifier ([`Registry::stored`]), the identifier handed
//! out last ([`Registry::last_id`]) and the blob kept under each content hash
//! ([`Registry::files`]). The records of a registry ([`Registry::records`])
//! are what those bytes decode to; bytes that are not the bytes of a record
//! count as no record at all.
//!
//! Every operation says what it returns and what the state is afterwards. A
//! refused operation leaves the registry as it was.

use crate::asset::{new_record, Asset, AssetInput, AssetInputView, AssetView};
use crate::codec::{
    decode, decode_record, encode, encode_record, input_texts, lemma_decode_encode,
    lemma_encode_decode, lemma_header_len, record_len, texts_of,
};
use crate::error::RegistryError;
use crate::listing::{assets_view, id_space, lemma_listing_gap, listing, Probe, Selection};
use crate::principal::{anonymous_id, Principal};
use crate::store::{
    blob_contains, blob_entries, blob_get, blob_insert, blob_memory, counter_entries,
    counter_get, counter_insert, counter_memory, has_size, lookup, open_regions,
    record_at_or_after, record_count, record_entries, record_get, record_insert,
    record_memory, BlobRegion, CounterRegion, RecordRegion, MAX_ENTRY_LEN,
};
use crate::text::fold;
use vstd::prelude::*;
use vstd::string::StringExecFns;
use vstd::utf8::encode_utf8;

verus! {

/// The key under which the counter region keeps the last identifier.
pub const COUNTER_KEY: u8 = 0;

/// The memory in which the records are kept.
pub const RECORDS_MEMORY: u8 = 0;

/// The memory in which the counter is kept.
pub const COUNTER_MEMORY: u8 = 1;

/// The memory in which the blobs are kept.
pub const BLOBS_MEMORY: u8 = 2;

/// The records that the given bytes decode to, by identifier.
pub open spec fn decoded(stored: Map<u64, Seq<u8>>) -> Map<u64, AssetView> {
    Map::new(
        |id: u64| stored.contains_key(id) && decode_record(stored[id]) is Some,
        |id: u64| decode_record(stored[id]).unwrap(),
    )
}

/// The URL under which a record refers to a blob that the registry keeps
/// itself.
pub open spec fn internal_url_of(hash: Seq<char>) -> Seq<char> {
    "canister://"@ + hash
}

/// The description `input` with the URL of the blob kept under its own file
/// hash.
pub open spec fn with_internal_url(input: AssetInputView) -> AssetInputView {
    AssetInputView { file_url: internal_url_of(input.file_hash), ..input }
}

/// Whether a blob and the hash under which it is kept are no larger than a
/// region keeps intact.
pub open spec fn blob_fits(hash: Seq<char>, data: Seq<u8>) -> bool {
    encode_utf8(hash).len() <= MAX_ENTRY_LEN && data.len() <= MAX_ENTRY_LEN
}

/// The record `record` with another price, updated at `now`.
pub open spec fn repriced(record: AssetView, price: u64, now: u64) -> AssetView {
    AssetView { price, updated_at: now, ..record }
}

/// The record `record` listed for sale or not, updated at `now`.
pub open spec fn relisted(record: AssetView, for_sale: bool, now: u64) -> AssetView {
    AssetView { is_for_sale: for_sale, updated_at: now, ..record }
}

/// The record `record` in the hands of `owner` and no longer for sale,
/// updated at `now`.
pub open spec fn handed_over(record: AssetView, owner: Seq<u8>, now: u64) -> AssetView {
    AssetView { owner, is_for_sale: false, updated_at: now, ..record }
}

/// The registry: the three durable regions together.
pub struct Registry {
    records: RecordRegion,
    counter: CounterRegion,
    blobs: BlobRegion,
}

/// Whether `after` is `before` with `record` newly kept under the next
/// identifier, which `record` carries.
pub open spec fn recorded(before: Registry, after: Registry, record: AssetView) -> bool {
    &&& record.id == before.last_id() + 1
    &&& after.last_id() == record.id
    &&& after.stored() == before.stored().insert(record.id, encode_record(record))
    &&& after.records() == before.records().insert(record.id, record)
}

/// Whether `after` is `before` with `record` kept under `id` in place of
/// what was kept there, and nothing else changed.
pub open spec fn replaced(before: Registry, after: Registry, id: u64, record: AssetView) -> bool {
    &&& after.stored() == before.stored().insert(id, encode_record(record))
    &&& after.records() == before.records().insert(id, record)
    &&& after.last_id() == before.last_id()
    &&& after.files() == before.files()
}

/// What `upload_asset` does: the anonymous identity is refused, and for
/// anyone else the record made of `input` is kept under the next identifier.
pub open spec fn asset_uploaded(
    before: Registry,
    after: Registry,
    input: AssetInputView,
    caller: Seq<u8>,
    now: u64,
    r: Result<Asset, RegistryError>,
) -> bool {
    if caller == anonymous_id() {
        r == Err::<Asset, RegistryError>(RegistryError::Unauthorized) && after == before
    } else {
        &&& r matches Ok(asset)
        &&& asset@ == new_record((before.last_id() + 1) as u64, input, caller, now)
        &&& recorded(before, after, asset@)
        &&& after.files() == before.files()
    }
}

/// What `upload_asset_with_file` does: the anonymous identity is refused,
/// and for anyone else the blob is kept under the file hash of `input`, in
/// place of what was kept there, and the record made of `input` with the
/// internal URL of that blob is kept under the next identifier.
pub open spec fn asset_uploaded_with_file(
    before: Registry,
    after: Registry,
    input: AssetInputView,
    file_data: Seq<u8>,
    caller: Seq<u8>,
    now: u64,
    r: Result<Asset, RegistryError>,
) -> bool {
    if caller == anonymous_id() {
        r == Err::<Asset, RegistryError>(RegistryError::Unauthorized) && after == before
    } else {
        &&& r matches Ok(asset)
        &&& asset@ == new_record(
            (before.last_id() + 1) as u64,
            with_internal_url(input),
            caller,
            now,
        )
        &&& recorded(before, after, asset@)
        &&& after.files() == before.files().insert(input.file_hash, file_data)
    }
}

/// What an operation does that only the owner of a record may ask for:
/// `NotFound` if nothing is kept under `id`, `Forbidden` if `caller` is not
/// the owner, and otherwise `changed` is kept in place of the record and
/// returned.
pub open spec fn changed_by_owner(
    before: Registry,
    after: Registry,
    id: u64,
    caller: Seq<u8>,
    changed: AssetView,
    r: Result<Asset, RegistryError>,
) -> bool {
    if !before.records().contains_key(id) {
        r == Err::<Asset, RegistryError>(RegistryError::NotFound) && after == before
    } else if before.records()[id].owner != caller {
        r == Err::<Asset, RegistryError>(RegistryError::Forbidden) && after == before
    } else {
        &&& r matches Ok(asset)
        &&& asset@ == changed
        &&& replaced(before, after, id, changed)
    }
}

/// What `marketplace_transfer_asset` does: `NotFound` if nothing is kept
/// under `id`, `InvalidSeller` if `seller` is not the owner, `NotForSale` if
/// the record is not listed, and otherwise the record passes to `buyer`.
pub open spec fn sold(
    before: Registry,
    after: Registry,
    id: u64,
    seller: Seq<u8>,
    buyer: Seq<u8>,
    now: u64,
    r: Result<Asset, RegistryError>,
) -> bool {
    if !before.records().contains_key(id) {
        r == Err::<Asset, RegistryError>(RegistryError::NotFound) && after == before
    } else if before.records()[id].owner != seller {
        r == Err::<Asset, RegistryError>(RegistryError::InvalidSeller) && after == before
    } else if !before.records()[id].is_for_sale {
        r == Err::<Asset, RegistryError>(RegistryError::NotForSale) && after == before
    } else {
        &&& r matches Ok(asset)
        &&& asset@ == handed_over(before.records()[id], buyer, now)
        &&& replaced(before, after, id, asset@)
    }
}

/// What `upload_file` does: `Unauthorized` for the anonymous identity,
/// `AlreadyExists` if a blob is kept under `hash`, and otherwise `data` is
/// kept under `hash` and the hash is returned.
pub open spec fn file_uploaded(
    before: Registry,
    after: Registry,
    hash: Seq<char>,
    data: Seq<u8>,
    caller: Seq<u8>,
    r: Result<String, RegistryError>,
) -> bool {
    if caller == anonymous_id() {
        r == Err::<String, RegistryError>(RegistryError::Unauthorized) && after == before
    } else if before.files().contains_key(hash) {
        r == Err::<String, RegistryError>(RegistryError::AlreadyExists) && after == before
    } else {
        &&& r matches Ok(kept)
        &&& kept@ == hash
        &&& after.files() == before.files().insert(hash, data)
        &&& after.stored() == before.stored()
        &&& after.last_id() == before.last_id()
    }
}

/// The URL under which a record refers to the blob kept under `hash`.
pub fn internal_url(hash: &String) -> (r: String)
    ensures
        r@ == internal_url_of(hash@),
{
    String::from_str("canister://").concat(hash.as_str())
}

/// Whether a blob and the hash under which it is to be kept are no larger
/// than a region keeps intact.
pub fn blob_fits_region(hash: &String, data: &Vec<u8>) -> (r: bool)
    ensures
        r == blob_fits(hash@, data@),
{
    hash.as_str().as_bytes().len() <= MAX_ENTRY_LEN && data.len() <= MAX_ENTRY_LEN
}

impl Registry {
    /// The bytes that the registry keeps under each asset identifier.
    pub closed spec fn stored(&self) -> Map<u64, Seq<u8>> {
        record_entries(self.records)
    }

    /// The file blobs that the registry keeps, by content hash.
    pub closed spec fn files(&self) -> Map<Seq<char>, Seq<u8>> {
        blob_entries(self.blobs)
    }

    /// The identifier that was handed out last, or 0 if none was.
    pub closed spec fn last_id(&self) -> u64 {
        match lookup(counter_entries(self.counter), COUNTER_KEY) {
            Some(id) => id,
            None => 0,
        }
    }

    /// The records that the registry keeps, by identifier.
    pub open spec fn records(&self) -> Map<u64, AssetView> {
        decoded(self.stored())
    }

    /// Whether the registry is as its own operations leave it: whatever is
    /// kept under an identifier is a record that carries that identifier, and
    /// the identifier was handed out.
    pub open spec fn well_formed(&self) -> bool {
        forall|id: u64| #[trigger]
            self.stored().contains_key(id) ==> {
                &&& decode_record(self.stored()[id]) is Some
                &&& decode_record(self.stored()[id]).unwrap().id == id
                &&& 1 <= id <= self.last_id()
            }
    }

    /// The memories on which the registry was opened: that of its records,
    /// that of its counter and that of its blobs.
    pub closed spec fn memories(&self) -> (u8, u8, u8) {
        (record_memory(self.records), counter_memory(self.counter), blob_memory(self.blobs))
    }

    /// Opens the registry on the default stable memory: the records on
    /// memory 0, the counter on memory 1 and the blobs on memory 2, so that
    /// a program that opens the registry again finds what it kept. What the
    /// memories already hold is kept, so nothing is said of the records,
    /// the last identifier and the blobs of the registry. A program opens
    /// the registry once and keeps it: where the default memory is the one
    /// stable memory of a canister, a second registry would write to the
    /// memory of the first.
    pub fn init() -> (r: Registry)
        ensures
            r.memories() == (RECORDS_MEMORY, COUNTER_MEMORY, BLOBS_MEMORY),
    {
        let (records, counter, blobs) = open_regions(
            RECORDS_MEMORY,
            COUNTER_MEMORY,
            BLOBS_MEMORY,
        );
        Registry { records, counter, blobs }
    }

    /// Whether another identifier can be handed out.
    pub fn has_next_id(&self) -> (r: bool)
        ensures
            r == (self.last_id() < u64::MAX),
    {
        match counter_get(&self.counter, COUNTER_KEY) {
            Some(id) => id < u64::MAX,
            None => true,
        }
    }

    /// Hands out the next identifier: one more than the last.
    pub fn get_next_asset_id(&mut self) -> (id: u64)
        requires
            old(self).last_id() < u64::MAX,
        ensures
            id == old(self).last_id() + 1,
            final(self).last_id() == id,
            final(self).stored() == old(self).stored(),
            final(self).files() == old(self).files(),
            old(self).well_formed() ==> final(self).well_formed(),
    {
        let current: u64 = match counter_get(&self.counter, COUNTER_KEY) {
            Some(id) => id,
            None => 0,
        };
        let next: u64 = current + 1;
        counter_insert(&mut self.counter, COUNTER_KEY, next);
        next
    }

    /// The record kept under `id`, with what is known of the bytes it was
    /// read from.
    fn fetch(&self, id: u64) -> (r: Option<Asset>)
        ensures
            r is Some <==> self.records().contains_key(id),
            r matches Some(asset) ==> {
                &&& asset@ == self.records()[id]
                &&& encode_record(asset@) == self.stored()[id]
                &&& encode_record(asset@).len() <= MAX_ENTRY_LEN
            },
    {
        match record_get(&self.records, id) {
            Some(bytes) => {
                proof {
                    if decode_record(bytes@) is Some {
                        lemma_encode_decode(bytes@);
                    }
                }
                decode(bytes.as_slice())
            },
            None => None,
        }
    }

    /// Keeps `asset` under `id`.
    fn keep(&mut self, id: u64, asset: &Asset)
        requires
            record_len(texts_of(asset@)) <= MAX_ENTRY_LEN,
        ensures
            decode_record(encode_record(asset@)) == Some(asset@),
            final(self).stored() == old(self).stored().insert(id, encode_record(asset@)),
            final(self).records() == old(self).records().insert(id, asset@),
            final(self).last_id() == old(self).last_id(),
            final(self).files() == old(self).files(),
    {
        let bytes = encode(asset);
        proof {
            lemma_header_len(asset@);
            lemma_decode_encode(asset@);
        }
        record_insert(&mut self.records, id, bytes);
    }

    /// Records a new asset for `caller`.
    fn record(&mut self, input: AssetInput, caller: Principal, now: u64) -> (asset: Asset)
        requires
            old(self).last_id() < u64::MAX,
            record_len(input_texts(input@)) <= MAX_ENTRY_LEN,
        ensures
            asset@ == new_record((old(self).last_id() + 1) as u64, input@, caller@, now),
            final(self).stored() == old(self).stored().insert(asset.id, encode_record(asset@)),
            final(self).records() == old(self).records().insert(asset.id, asset@),
            final(self).last_id() == asset.id,
            final(self).files() == old(self).files(),
            old(self).well_formed() ==> final(self).well_formed(),
    {
        let id = self.get_next_asset_id();
        let asset = Asset {
            id,
            name: input.name,
            description: input.description,
            owner: caller,
            file_hash: input.file_hash,
            file_url: input.file_url,
            file_type: input.file_type,
            file_size: input.file_size,
            price: input.price,
            is_for_sale: false,
            created_at: now,
            updated_at: now,
            category: input.category,
            tags: input.tags,
            preview_image_url: input.preview_image_url,
        };
        self.keep(id, &asset);
        asset
    }

    /// Records a new asset that belongs to `caller`. The anonymous identity
    /// is refused with `Unauthorized`. The record is not for sale, and
    /// `now` is when it was created and last updated.
    pub fn upload_asset(&mut self, input: AssetInput, caller: Principal, now: u64) -> (r: Result<
        Asset,
        RegistryError,
    >)
        requires
            caller@ != anonymous_id() ==> old(self).last_id() < u64::MAX && record_len(
                input_texts(input@),
            ) <= MAX_ENTRY_LEN,
        ensures
            asset_uploaded(*old(self), *final(self), input@, caller@, now, r),
            old(self).well_formed() ==> final(self).well_formed(),
    {
        if caller.is_anonymous() {
            return Err(RegistryError::Unauthorized);
        }
        Ok(self.record(input, caller, now))
    }

    /// Keeps `file_data` under the file hash of `input`, in place of what
    /// was kept there, and records a new asset that belongs to `caller` and
    /// refers to that blob by its internal URL, whatever URL `input` names.
    /// The anonymous identity is refused with `Unauthorized`.
    pub fn upload_asset_with_file(
        &mut self,
        input: AssetInput,
        file_data: Vec<u8>,
        caller: Principal,
        now: u64,
    ) -> (r: Result<Asset, RegistryError>)
        requires
            caller@ != anonymous_id() ==> {
                &&& old(self).last_id() < u64::MAX
                &&& record_len(input_texts(with_internal_url(input@))) <= MAX_ENTRY_LEN
                &&& blob_fits(input@.file_hash, file_data@)
            },
        ensures
            asset_uploaded_with_file(
                *old(self),
                *final(self),
                input@,
                file_data@,
                caller@,
                now,
                r,
            ),
            old(self).well_formed() ==> final(self).well_formed(),
    {
        if caller.is_anonymous() {
            return Err(RegistryError::Unauthorized);
        }
        let mut input = input;
        let hash = input.file_hash.clone();
        blob_insert(&mut self.blobs, hash, file_data);
        input.file_url = internal_url(&input.file_hash);
        Ok(self.record(input, caller, now))
    }

    /// The record kept under `id`, if there is one.
    pub fn get_asset(&self, id: u64) -> (r: Option<Asset>)
        ensures
            r is Some <==> self.records().contains_key(id),
            r matches Some(asset) ==> asset@ == self.records()[id],
    {
        self.fetch(id)
    }

    /// The number of entries in the region of records, which is the number
    /// of records of a well-formed registry.
    pub fn get_total_assets(&self) -> (r: u64)
        ensures
            has_size(self.stored(), r),
            self.well_formed() ==> has_size(self.records(), r),
    {
        let count = record_count(&self.records);
        proof {
            if self.well_formed() {
                assert(self.records().dom() =~= self.stored().dom());
            }
        }
        count
    }

    /// The records that `selection` picks, by rising identifier.
    fn collect(&self, probe: &Probe, Ghost(selection): Ghost<Selection>) -> (r: Vec<Asset>)
        requires
            probe.answers(selection),
        ensures
            assets_view(r@) == listing(self.records(), selection, id_space()),
    {
        let ghost records = self.records();
        let mut out: Vec<Asset> = Vec::new();
        let mut from: u64 = 0;
        let mut open = true;
        while open
            invariant
                records == self.records(),
                probe.answers(selection),
                open ==> assets_view(out@) == listing(records, selection, from as nat),
                !open ==> assets_view(out@) == listing(records, selection, id_space()),
            decreases id_space() - from + (if open { 1int } else { 0int }),
        {
            match record_at_or_after(&self.records, from) {
                None => {
                    proof {
                        lemma_listing_gap(records, selection, from as nat, id_space());
                    }
                    open = false;
                },
                Some((id, bytes)) => {
                    proof {
                        lemma_listing_gap(records, selection, from as nat, id as nat);
                    }
                    match decode(bytes.as_slice()) {
                        Some(asset) => {
                            if probe.accepts(&asset, Ghost(selection)) {
                                out.push(asset);
                            }
                        },
                        None => {},
                    }
                    if id == u64::MAX {
                        open = false;
                    } else {
                        from = id + 1;
                    }
                },
            }
        }
        out
    }

    /// The records that `owner` owns, by rising identifier.
    pub fn get_user_assets(&self, owner: &Principal) -> (r: Vec<Asset>)
        ensures
            assets_view(r@) == listing(self.records(), Selection::OwnedBy(owner@), id_space()),
    {
        self.collect(&Probe::OwnedBy(owner), Ghost(Selection::OwnedBy(owner@)))
    }

    /// All records, by rising identifier.
    pub fn get_all_assets(&self) -> (r: Vec<Asset>)
        ensures
            assets_view(r@) == listing(self.records(), Selection::All, id_space()),
    {
        self.collect(&Probe::All, Ghost(Selection::All))
    }

    /// The records that are listed for sale, by rising identifier.
    pub fn get_assets_for_sale(&self) -> (r: Vec<Asset>)
        ensures
            assets_view(r@) == listing(self.records(), Selection::ForSale, id_space()),
    {
        self.collect(&Probe::ForSale, Ghost(Selection::ForSale))
    }

    /// The records whose category is `category`, whatever the case of its
    /// letters, by rising identifier.
    pub fn get_assets_by_category(&self, category: &String) -> (r: Vec<Asset>)
        ensures
            assets_view(r@) == listing(
                self.records(),
                Selection::InCategory(category@),
                id_space(),
            ),
    {
        let folded = fold(category);
        self.collect(&Probe::InCategory(&folded), Ghost(Selection::InCategory(category@)))
    }

    /// The records in whose name, description, category or tags `query`
    /// occurs, whatever the case of its letters, by rising identifier.
    pub fn search_assets(&self, query: &String) -> (r: Vec<Asset>)
        ensures
            assets_view(r@) == listing(self.records(), Selection::Matching(query@), id_space()),
    {
        let folded = fold(query);
        self.collect(&Probe::Matching(&folded), Ghost(Selection::Matching(query@)))
    }

    /// Sets the price of the record kept under `id`. Only the owner may:
    /// `NotFound` if there is no such record, `Forbidden` if `caller` does
    /// not own it.
    pub fn update_asset_price(&mut self, id: u64, new_price: u64, caller: &Principal, now: u64) -> (r:
        Result<Asset, RegistryError>)
        ensures
            changed_by_owner(
                *old(self),
                *final(self),
                id,
                caller@,
                repriced(old(self).records()[id], new_price, now),
                r,
            ),
            old(self).well_formed() ==> final(self).well_formed(),
    {
        let mut asset = match self.fetch(id) {
            Some(asset) => asset,
            None => {
                return Err(RegistryError::NotFound);
            },
        };
        if !asset.owner.same(caller) {
            return Err(RegistryError::Forbidden);
        }
        let ghost before = asset@;
        asset.price = new_price;
        asset.updated_at = now;
        proof {
            lemma_encode_decode(old(self).stored()[id]);
            lemma_header_len(before);
        }
        self.keep(id, &asset);
        Ok(asset)
    }

    /// Lists the record kept under `id` for sale, or takes it off. Only the
    /// owner may: `NotFound` if there is no such record, `Forbidden` if
    /// `caller` does not own it.
    pub fn set_asset_for_sale(&mut self, id: u64, for_sale: bool, caller: &Principal, now: u64) -> (r:
        Result<Asset, RegistryError>)
        ensures
            changed_by_owner(
                *old(self),
                *final(self),
                id,
                caller@,
                relisted(old(self).records()[id], for_sale, now),
                r,
            ),
            old(self).well_formed() ==> final(self).well_formed(),
    {
        let mut asset = match self.fetch(id) {
            Some(asset) => asset,
            None => {
                return Err(RegistryError::NotFound);
            },
        };
        if !asset.owner.same(caller) {
            return Err(RegistryError::Forbidden);
        }
        let ghost before = asset@;
        asset.is_for_sale = for_sale;
        asset.updated_at = now;
        proof {
            lemma_encode_decode(old(self).stored()[id]);
            lemma_header_len(before);
        }
        self.keep(id, &asset);
        Ok(asset)
    }

    /// Hands the record kept under `id` over to `new_owner` and takes it off
    /// sale. Only the owner may: `NotFound` if there is no such record,
    /// `Forbidden` if `caller` does not own it.
    pub fn transfer_asset_ownership(
        &mut self,
        id: u64,
        new_owner: Principal,
        caller: &Principal,
        now: u64,
    ) -> (r: Result<Asset, RegistryError>)
        ensures
            changed_by_owner(
                *old(self),
                *final(self),
                id,
                caller@,
                handed_over(old(self).records()[id], new_owner@, now),
                r,
            ),
            old(self).well_formed() ==> final(self).well_formed(),
    {
        let mut asset = match self.fetch(id) {
            Some(asset) => asset,
            None => {
                return Err(RegistryError::NotFound);
            },
        };
        if !asset.owner.same(caller) {
            return Err(RegistryError::Forbidden);
        }
        let ghost before = asset@;
        asset.owner = new_owner;
        asset.is_for_sale = false;
        asset.updated_at = now;
        proof {
            lemma_encode_decode(old(self).stored()[id]);
            lemma_header_len(before);
        }
        self.keep(id, &asset);
        Ok(asset)
    }

    /// Hands the record kept under `id` over from `seller` to `buyer` and
    /// takes it off sale, on behalf of a marketplace. Whoever calls may:
    /// `NotFound` if there is no such record, `InvalidSeller` if `seller`
    /// does not own it, `NotForSale` if it is not listed for sale.
    pub fn marketplace_transfer_asset(
        &mut self,
        id: u64,
        seller: &Principal,
        buyer: Principal,
        now: u64,
    ) -> (r: Result<Asset, RegistryError>)
        ensures
            sold(*old(self), *final(self), id, seller@, buyer@, now, r),
            old(self).well_formed() ==> final(self).well_formed(),
    {
        let mut asset = match self.fetch(id) {
            Some(asset) => asset,
            None => {
                return Err(RegistryError::NotFound);
            },
        };
        if !asset.owner.same(seller) {
            return Err(RegistryError::InvalidSeller);
        }
        if !asset.is_for_sale {
            return Err(RegistryError::NotForSale);
        }
        let ghost before = asset@;
        asset.owner = buyer;
        asset.is_for_sale = false;
        asset.updated_at = now;
        proof {
            lemma_encode_decode(old(self).stored()[id]);
            lemma_header_len(before);
        }
        self.keep(id, &asset);
        Ok(asset)
    }

    /// Keeps `data` under `hash` and returns the hash. `Unauthorized` for
    /// the anonymous identity, `AlreadyExists` if a blob is kept under
    /// `hash` already.
    pub fn upload_file(&mut self, hash: String, data: Vec<u8>, caller: &Principal) -> (r: Result<
        String,
        RegistryError,
    >)
        requires
            caller@ != anonymous_id() ==> blob_fits(hash@, data@),
        ensures
            file_uploaded(*old(self), *final(self), hash@, data@, caller@, r),
            old(self).well_formed() ==> final(self).well_formed(),
    {
        if caller.is_anonymous() {
            return Err(RegistryError::Unauthorized);
        }
        if blob_contains(&self.blobs, &hash) {
            return Err(RegistryError::AlreadyExists);
        }
        let kept = hash.clone();
        blob_insert(&mut self.blobs, hash, data);
        Ok(kept)
    }

    /// The blob kept under `hash`, if there is one.
    pub fn get_file(&self, hash: &String) -> (r: Option<Vec<u8>>)
        ensures
            r is Some <==> self.files().contains_key(hash@),
            r matches Some(data) ==> data@ == self.files()[hash@],
    {
        blob_get(&self.blobs, hash)
    }
}

} // verus!
