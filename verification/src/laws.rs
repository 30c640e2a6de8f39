//! What holds of the registry across several of its operations.
//!
//! Each statement here is proved from the relations in which the operations
//! state what they do.

use crate::asset::{Asset, AssetView};
use crate::error::RegistryError;
use crate::listing::{id_space, listing, Selection};
use crate::principal::anonymous_id;
use crate::registry::{
    changed_by_owner, file_uploaded, handed_over, recorded, relisted, repriced, sold, Registry,
};
use crate::text::lowercase;
use vstd::prelude::*;

verus! {

/// One operation of a run: either it recorded `new` under the next
/// identifier, or it handed out no identifier at all.
pub open spec fn step(before: Registry, after: Registry, new: Option<AssetView>) -> bool {
    match new {
        Some(record) => recorded(before, after, record),
        None => after.last_id() == before.last_id(),
    }
}

/// A run of operations: `states` holds the registry before the first
/// operation and after each one, `news` what each operation recorded.
pub open spec fn run(states: Seq<Registry>, news: Seq<Option<AssetView>>) -> bool {
    &&& states.len() == news.len() + 1
    &&& forall|i: int| 0 <= i < news.len() ==> step(states[i], #[trigger] states[i + 1], news[i])
}

/// The last identifier never falls in the course of a run.
pub proof fn lemma_last_id_rises(
    states: Seq<Registry>,
    news: Seq<Option<AssetView>>,
    from: int,
    to: int,
)
    requires
        run(states, news),
        0 <= from <= to < states.len(),
    ensures
        states[from].last_id() <= states[to].last_id(),
    decreases to - from,
{
    if from < to {
        lemma_last_id_rises(states, news, from, to - 1);
        assert(step(states[to - 1], states[to - 1 + 1], news[to - 1]));
    }
}

/// In a run of operations, whatever else happens between them, each upload
/// returns a greater identifier than every upload before it: identifiers
/// rise strictly and none is handed out twice.
pub proof fn law_identifiers_rise(
    states: Seq<Registry>,
    news: Seq<Option<AssetView>>,
    earlier: int,
    later: int,
)
    requires
        run(states, news),
        0 <= earlier < later < news.len(),
        news[earlier] is Some,
        news[later] is Some,
    ensures
        news[earlier].unwrap().id < news[later].unwrap().id,
{
    assert(step(states[later], states[later + 1], news[later]));
    lemma_last_id_rises(states, news, earlier + 1, later);
}

/// After a transfer of ownership that succeeded, the record kept under the
/// same identifier belongs to the new owner and is not for sale, whether or
/// not it was for sale before.
pub proof fn law_transfer_takes_off_sale(
    before: Registry,
    after: Registry,
    id: u64,
    new_owner: Seq<u8>,
    caller: Seq<u8>,
    now: u64,
    r: Result<Asset, RegistryError>,
)
    requires
        changed_by_owner(
            before,
            after,
            id,
            caller,
            handed_over(before.records()[id], new_owner, now),
            r,
        ),
        r is Ok,
    ensures
        after.records().contains_key(id),
        after.records()[id].owner == new_owner,
        !after.records()[id].is_for_sale,
        after.records()[id].id == before.records()[id].id,
{
}

/// An operation that only the owner may ask for, asked for by someone else,
/// is refused with `Forbidden` and leaves the registry as it was, whatever
/// change was asked for.
pub proof fn law_owner_only(
    before: Registry,
    after: Registry,
    id: u64,
    caller: Seq<u8>,
    changed: AssetView,
    r: Result<Asset, RegistryError>,
)
    requires
        changed_by_owner(before, after, id, caller, changed, r),
        before.records().contains_key(id),
        before.records()[id].owner != caller,
    ensures
        r == Err::<Asset, RegistryError>(RegistryError::Forbidden),
        after == before,
        after.stored() == before.stored(),
{
}

/// Whether two records agree in what a record is given when it is made and
/// keeps for good: its identifier, its texts, what it says of its file, and
/// the time of its making.
pub open spec fn same_making(one: AssetView, other: AssetView) -> bool {
    &&& one.id == other.id
    &&& one.name == other.name
    &&& one.description == other.description
    &&& one.file_hash == other.file_hash
    &&& one.file_url == other.file_url
    &&& one.file_type == other.file_type
    &&& one.file_size == other.file_size
    &&& one.created_at == other.created_at
    &&& one.category == other.category
    &&& one.tags == other.tags
    &&& one.preview_image_url == other.preview_image_url
}

/// A change of price, of listing or of owner leaves a record what it was
/// made as, and sets the time of its last update to the time of the change.
/// A change of price keeps owner and listing, a change of listing keeps
/// owner and price, and a change of owner keeps the price.
pub proof fn law_changes_keep_the_making(
    record: AssetView,
    price: u64,
    for_sale: bool,
    owner: Seq<u8>,
    now: u64,
)
    ensures
        same_making(record, repriced(record, price, now)),
        same_making(record, relisted(record, for_sale, now)),
        same_making(record, handed_over(record, owner, now)),
        repriced(record, price, now).updated_at == now,
        relisted(record, for_sale, now).updated_at == now,
        handed_over(record, owner, now).updated_at == now,
        repriced(record, price, now).owner == record.owner,
        repriced(record, price, now).is_for_sale == record.is_for_sale,
        relisted(record, for_sale, now).owner == record.owner,
        relisted(record, for_sale, now).price == record.price,
        handed_over(record, owner, now).price == record.price,
{
}

/// A blob is kept once: after an upload under a hash that succeeded, a
/// second upload under the same hash by an identified caller is refused
/// with `AlreadyExists`, and the blob kept under the hash is still the
/// first one.
pub proof fn law_blob_kept_once(
    before: Registry,
    between: Registry,
    after: Registry,
    hash: Seq<char>,
    first: Seq<u8>,
    second: Seq<u8>,
    first_caller: Seq<u8>,
    second_caller: Seq<u8>,
    first_result: Result<String, RegistryError>,
    second_result: Result<String, RegistryError>,
)
    requires
        file_uploaded(before, between, hash, first, first_caller, first_result),
        first_result is Ok,
        file_uploaded(between, after, hash, second, second_caller, second_result),
        second_caller != anonymous_id(),
    ensures
        second_result == Err::<String, RegistryError>(RegistryError::AlreadyExists),
        after.files().contains_key(hash),
        after.files()[hash] == first,
{
}

/// A sale through a marketplace needs both the true owner as seller and a
/// listing: with the true owner and no listing it is refused with
/// `NotForSale`, with another seller it is refused with `InvalidSeller`
/// even if the record is listed. Either way the registry stays as it was.
pub proof fn law_sale_needs_owner_and_listing(
    before: Registry,
    after: Registry,
    id: u64,
    seller: Seq<u8>,
    buyer: Seq<u8>,
    now: u64,
    r: Result<Asset, RegistryError>,
)
    requires
        sold(before, after, id, seller, buyer, now, r),
        before.records().contains_key(id),
    ensures
        before.records()[id].owner != seller ==> r == Err::<Asset, RegistryError>(
            RegistryError::InvalidSeller,
        ) && after == before,
        before.records()[id].owner == seller && !before.records()[id].is_for_sale ==> r == Err::<
            Asset,
            RegistryError,
        >(RegistryError::NotForSale) && after == before,
        r is Ok ==> before.records()[id].owner == seller && before.records()[id].is_for_sale,
{
}

/// A record that was sold cannot be sold again as it stands: after a sale
/// that succeeded, the same sale is refused, with `NotForSale` if seller
/// and buyer are the same identity and with `InvalidSeller` otherwise.
pub proof fn law_sold_once(
    before: Registry,
    between: Registry,
    after: Registry,
    id: u64,
    seller: Seq<u8>,
    buyer: Seq<u8>,
    first_time: u64,
    second_time: u64,
    first_result: Result<Asset, RegistryError>,
    second_result: Result<Asset, RegistryError>,
)
    requires
        sold(before, between, id, seller, buyer, first_time, first_result),
        first_result is Ok,
        sold(between, after, id, seller, buyer, second_time, second_result),
    ensures
        seller == buyer ==> second_result == Err::<Asset, RegistryError>(
            RegistryError::NotForSale,
        ),
        seller != buyer ==> second_result == Err::<Asset, RegistryError>(
            RegistryError::InvalidSeller,
        ),
        after == between,
{
}

/// Two searches whose queries differ only in the case of their letters
/// return the same records.
pub proof fn law_search_ignores_case(
    records: Map<u64, AssetView>,
    query: Seq<char>,
    other: Seq<char>,
    below: nat,
)
    requires
        lowercase(query) == lowercase(other),
    ensures
        listing(records, Selection::Matching(query), below) == listing(
            records,
            Selection::Matching(other),
            below,
        ),
    decreases below,
{
    if below > 0 {
        law_search_ignores_case(records, query, other, (below - 1) as nat);
    }
}

/// Two category queries that differ only in the case of their letters
/// return the same records.
pub proof fn law_category_ignores_case(
    records: Map<u64, AssetView>,
    category: Seq<char>,
    other: Seq<char>,
    below: nat,
)
    requires
        lowercase(category) == lowercase(other),
    ensures
        listing(records, Selection::InCategory(category), below) == listing(
            records,
            Selection::InCategory(other),
            below,
        ),
    decreases below,
{
    if below > 0 {
        law_category_ignores_case(records, category, other, (below - 1) as nat);
    }
}

/// In a well-formed registry the identifier that the next upload returns is
/// not in use.
pub proof fn law_next_identifier_is_free(registry: Registry)
    requires
        registry.well_formed(),
        registry.last_id() < u64::MAX,
    ensures
        !registry.stored().contains_key((registry.last_id() + 1) as u64),
        !registry.records().contains_key((registry.last_id() + 1) as u64),
{
}

/// A listing holds the records that the selection picks, each once, by
/// rising identifier, and nothing else: `ids` names the identifier under
/// which each record of the listing is kept.
pub proof fn law_listing_is_exact(
    records: Map<u64, AssetView>,
    selection: Selection,
    below: nat,
) -> (ids: Seq<u64>)
    requires
        below <= id_space(),
    ensures
        ids.len() == listing(records, selection, below).len(),
        forall|i: int|
            0 <= i < ids.len() ==> {
                &&& (#[trigger] ids[i]) < below
                &&& records.contains_key(ids[i])
                &&& selection.selects(records[ids[i]])
                &&& listing(records, selection, below)[i] == records[ids[i]]
            },
        forall|i: int, j: int| 0 <= i < j < ids.len() ==> ids[i] < ids[j],
        forall|id: u64|
            id < below && records.contains_key(id) && selection.selects(records[id])
                ==> ids.contains(id),
    decreases below,
{
    if below == 0 {
        Seq::empty()
    } else {
        let id = (below - 1) as u64;
        let before = law_listing_is_exact(records, selection, (below - 1) as nat);
        if records.contains_key(id) && selection.selects(records[id]) {
            let ids = before.push(id);
            assert forall|other: u64|
                other < below && records.contains_key(other) && selection.selects(
                    records[other],
                ) implies ids.contains(other) by {
                if other == id {
                    assert(ids[before.len() as int] == id);
                } else {
                    assert(before.contains(other));
                    let k = choose|k: int| 0 <= k < before.len() && before[k] == other;
                    assert(ids[k] == other);
                }
            }
            ids
        } else {
            assert forall|other: u64|
                other < below && records.contains_key(other) && selection.selects(
                    records[other],
                ) implies before.contains(other) by {
            }
            before
        }
    }
}

/// In a well-formed registry a record carries the identifier under which it
/// is kept, and that identifier was handed out.
pub proof fn law_record_carries_its_identifier(registry: Registry, id: u64)
    requires
        registry.well_formed(),
        registry.records().contains_key(id),
    ensures
        registry.records()[id].id == id,
        1 <= id <= registry.last_id(),
{
}

} // verus!
