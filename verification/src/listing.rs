//! Which records a query returns, and in what order.
//!
//! A query walks the records by rising identifier and keeps those that its
//! selection picks.

use crate::asset::{texts_view, Asset, AssetView};
use crate::principal::Principal;
use crate::text::{contains, contains_any, fold, lowercase, occurs_in, same_text};
use vstd::prelude::*;

verus! {

/// What a query asks for.
pub enum Selection {
    /// Every record.
    All,
    /// The records that the given identity owns.
    OwnedBy(Seq<u8>),
    /// The records that are listed for sale.
    ForSale,
    /// The records whose category is the given one, whatever the case of
    /// its letters.
    InCategory(Seq<char>),
    /// The records in whose name, description, category or tags the given
    /// text occurs, whatever the case of its letters.
    Matching(Seq<char>),
}

/// Whether `query`, already in lower case, occurs in the lower-case form of
/// the name, the description, the category or a tag of `record`.
pub open spec fn mentions(record: AssetView, query: Seq<char>) -> bool {
    ||| occurs_in(query, lowercase(record.name))
    ||| occurs_in(query, lowercase(record.description))
    ||| occurs_in(query, lowercase(record.category))
    ||| exists|i: int|
        0 <= i < record.tags.len() && occurs_in(query, lowercase(#[trigger] record.tags[i]))
}

impl Selection {
    /// Whether the selection picks `record`.
    pub open spec fn selects(self, record: AssetView) -> bool {
        match self {
            Selection::All => true,
            Selection::OwnedBy(owner) => record.owner == owner,
            Selection::ForSale => record.is_for_sale,
            Selection::InCategory(category) => lowercase(record.category) == lowercase(category),
            Selection::Matching(query) => mentions(record, lowercase(query)),
        }
    }
}

/// One more than the greatest identifier.
pub open spec fn id_space() -> nat {
    (u64::MAX + 1) as nat
}

/// The records with an identifier below `below` that `selection` picks, by
/// rising identifier.
pub open spec fn listing(records: Map<u64, AssetView>, selection: Selection, below: nat) -> Seq<
    AssetView,
>
    recommends
        below <= id_space(),
    decreases below,
{
    if below == 0 {
        Seq::empty()
    } else {
        let id = (below - 1) as u64;
        let before = listing(records, selection, (below - 1) as nat);
        if records.contains_key(id) && selection.selects(records[id]) {
            before.push(records[id])
        } else {
            before
        }
    }
}

/// What a list of records holds, as mathematical values.
pub open spec fn assets_view(assets: Seq<Asset>) -> Seq<AssetView> {
    assets.map_values(|asset: Asset| asset@)
}

/// Identifiers under which nothing is kept add nothing to a listing.
pub proof fn lemma_listing_gap(
    records: Map<u64, AssetView>,
    selection: Selection,
    from: nat,
    to: nat,
)
    requires
        from <= to <= id_space(),
        forall|id: u64| from <= id < to ==> !records.contains_key(id),
    ensures
        listing(records, selection, to) == listing(records, selection, from),
    decreases to - from,
{
    if from < to {
        lemma_listing_gap(records, selection, from, (to - 1) as nat);
    }
}

/// What is tested of each record while a query walks the records.
pub(crate) enum Probe<'a> {
    All,
    OwnedBy(&'a Principal),
    ForSale,
    InCategory(&'a String),
    Matching(&'a String),
}

impl<'a> Probe<'a> {
    /// Whether the probe tests what `selection` asks for. The texts of a
    /// probe are in lower case already.
    pub(crate) open spec fn answers(self, selection: Selection) -> bool {
        match (self, selection) {
            (Probe::All, Selection::All) => true,
            (Probe::OwnedBy(owner), Selection::OwnedBy(wanted)) => owner@ == wanted,
            (Probe::ForSale, Selection::ForSale) => true,
            (Probe::InCategory(folded), Selection::InCategory(category)) => folded@ == lowercase(
                category,
            ),
            (Probe::Matching(folded), Selection::Matching(query)) => folded@ == lowercase(query),
            _ => false,
        }
    }

    pub(crate) fn accepts(&self, asset: &Asset, Ghost(selection): Ghost<Selection>) -> (r: bool)
        requires
            self.answers(selection),
        ensures
            r == selection.selects(asset@),
    {
        match self {
            Probe::All => true,
            Probe::OwnedBy(owner) => asset.owner.same(owner),
            Probe::ForSale => asset.is_for_sale,
            Probe::InCategory(folded) => {
                let category = fold(&asset.category);
                same_text(&category, folded)
            },
            Probe::Matching(folded) => {
                let name = fold(&asset.name);
                let description = fold(&asset.description);
                let category = fold(&asset.category);
                let tags = fold_all(&asset.tags);
                let found = mentioned_in(&name, &description, &category, &tags, folded);
                proof {
                    let record = asset@;
                    assert(record.tags.len() == tags@.len());
                    assert forall|i: int| 0 <= i < tags@.len() implies (#[trigger] tags@[i])@
                        == lowercase(record.tags[i]) by {
                        assert(record.tags[i] == asset.tags@[i]@);
                    }
                    if exists|i: int|
                        0 <= i < tags@.len() && occurs_in(folded@, (#[trigger] tags@[i])@) {
                        let i = choose|i: int|
                            0 <= i < tags@.len() && occurs_in(folded@, (#[trigger] tags@[i])@);
                        assert(occurs_in(folded@, lowercase(record.tags[i])));
                    }
                    if exists|i: int|
                        0 <= i < record.tags.len() && occurs_in(
                            folded@,
                            lowercase(#[trigger] record.tags[i]),
                        ) {
                        let i = choose|i: int|
                            0 <= i < record.tags.len() && occurs_in(
                                folded@,
                                lowercase(#[trigger] record.tags[i]),
                            );
                        assert(occurs_in(folded@, tags@[i]@));
                    }
                }
                found
            },
        }
    }
}

/// The lower-case forms of the given texts.
pub(crate) fn fold_all(texts: &Vec<String>) -> (r: Vec<String>)
    ensures
        r@.len() == texts@.len(),
        forall|i: int| 0 <= i < r@.len() ==> (#[trigger] r@[i])@ == lowercase(texts@[i]@),
{
    let mut folded: Vec<String> = Vec::new();
    let mut i: usize = 0;
    while i < texts.len()
        invariant
            i <= texts@.len(),
            folded@.len() == i,
            forall|k: int| 0 <= k < i ==> (#[trigger] folded@[k])@ == lowercase(texts@[k]@),
        decreases texts@.len() - i,
    {
        folded.push(fold(&texts[i]));
        i += 1;
    }
    folded
}

/// Whether `query` occurs in the name, the description, the category or one
/// of the tags. All five are taken as they are: a caller that wants a match
/// without regard to case hands them over in lower case.
pub fn mentioned_in(
    name: &String,
    description: &String,
    category: &String,
    tags: &Vec<String>,
    query: &String,
) -> (r: bool)
    ensures
        r == (occurs_in(query@, name@) || occurs_in(query@, description@) || occurs_in(
            query@,
            category@,
        ) || exists|i: int| 0 <= i < tags@.len() && occurs_in(query@, (#[trigger] tags@[i])@)),
{
    if contains(name, query) {
        return true;
    }
    if contains(description, query) {
        return true;
    }
    if contains(category, query) {
        return true;
    }
    let found = contains_any(tags, query);
    proof {
        let views = texts_view(tags@);
        if found {
            let i = choose|i: int| 0 <= i < views.len() && occurs_in(query@, #[trigger] views[i]);
            assert(views[i] == tags@[i]@);
        } else {
            assert forall|i: int| 0 <= i < tags@.len() implies !occurs_in(
                query@,
                (#[trigger] tags@[i])@,
            ) by {
                assert(views[i] == tags@[i]@);
            }
        }
    }
    found
}

} // verus!
