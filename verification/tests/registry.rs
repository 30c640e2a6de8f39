use asset_registry::asset::{Asset, AssetInput};
use asset_registry::error::RegistryError;
use asset_registry::principal::Principal;
use asset_registry::registry::{blob_fits_region, internal_url, Registry};

fn identity(byte: u8) -> Principal {
    Principal::from_slice(&[byte, 1, 2, 3]).unwrap()
}

fn input(name: &str, category: &str, price: u64) -> AssetInput {
    AssetInput {
        name: name.to_string(),
        description: format!("{} in three dimensions", name),
        file_hash: format!("hash-{}", name),
        file_url: format!("https://example.org/{}.glb", name),
        file_type: "glb".to_string(),
        file_size: 2048,
        price,
        category: category.to_string(),
        tags: vec!["mesh".to_string(), "Low-Poly".to_string()],
        preview_image_url: Some(format!("https://example.org/{}.png", name)),
    }
}

fn names(assets: &[Asset]) -> Vec<String> {
    let mut out = Vec::new();
    for asset in assets {
        out.push(asset.name.clone());
    }
    out
}

#[test]
fn identifiers_count_up_from_one() {
    let mut registry = Registry::init();
    assert!(registry.has_next_id());
    assert_eq!(registry.get_next_asset_id(), 1);
    assert_eq!(registry.get_next_asset_id(), 2);
    assert_eq!(registry.get_next_asset_id(), 3);
}

#[test]
fn uploads_return_rising_identifiers() {
    let mut registry = Registry::init();
    let mut last = 0;
    for round in 0..20u64 {
        let owner = identity((round % 3) as u8);
        let asset = registry.upload_asset(input("ship", "Vehicles", round), owner, 1_000 + round).unwrap();
        assert!(asset.id > last);
        assert_eq!(asset.id, round + 1);
        last = asset.id;
    }
    assert_eq!(registry.get_total_assets(), 20);
}

#[test]
fn upload_makes_the_record_of_the_input() {
    let mut registry = Registry::init();
    let owner = identity(7);
    let asset = registry.upload_asset(input("castle", "Buildings", 100), owner.clone(), 42).unwrap();
    let expected = Asset {
        id: 1,
        name: "castle".to_string(),
        description: "castle in three dimensions".to_string(),
        owner,
        file_hash: "hash-castle".to_string(),
        file_url: "https://example.org/castle.glb".to_string(),
        file_type: "glb".to_string(),
        file_size: 2048,
        price: 100,
        is_for_sale: false,
        created_at: 42,
        updated_at: 42,
        category: "Buildings".to_string(),
        tags: vec!["mesh".to_string(), "Low-Poly".to_string()],
        preview_image_url: Some("https://example.org/castle.png".to_string()),
    };
    assert_eq!(asset, expected);
    assert_eq!(registry.get_asset(1), Some(expected));
    assert_eq!(registry.get_asset(2), None);
    assert_eq!(registry.get_asset(0), None);
}

#[test]
fn anonymous_upload_is_refused_and_writes_nothing() {
    let mut registry = Registry::init();
    let refused = registry.upload_asset(input("ghost", "Props", 1), Principal::anonymous(), 5);
    assert_eq!(refused, Err(RegistryError::Unauthorized));
    let refused = registry.upload_asset_with_file(
        input("ghost", "Props", 1),
        vec![1, 2, 3],
        Principal::anonymous(),
        5,
    );
    assert_eq!(refused, Err(RegistryError::Unauthorized));
    assert_eq!(registry.get_total_assets(), 0);
    assert_eq!(registry.get_all_assets(), vec![]);
    assert_eq!(registry.get_file(&"hash-ghost".to_string()), None);
    let first = registry.upload_asset(input("real", "Props", 1), identity(1), 6).unwrap();
    assert_eq!(first.id, 1);
}

#[test]
fn transfer_changes_owner_and_takes_off_sale() {
    let mut registry = Registry::init();
    let seller = identity(1);
    let heir = identity(2);
    let asset = registry.upload_asset(input("sword", "Weapons", 10), seller.clone(), 1).unwrap();
    registry.set_asset_for_sale(asset.id, true, &seller, 2).unwrap();
    assert!(registry.get_asset(asset.id).unwrap().is_for_sale);
    let moved = registry.transfer_asset_ownership(asset.id, heir.clone(), &seller, 3).unwrap();
    assert_eq!(moved.owner, heir);
    assert!(!moved.is_for_sale);
    assert_eq!(moved.updated_at, 3);
    assert_eq!(moved.created_at, 1);
    let kept = registry.get_asset(asset.id).unwrap();
    assert_eq!(kept, moved);
    assert_eq!(kept.owner, heir);
    assert!(!kept.is_for_sale);

    let plain = registry.upload_asset(input("shield", "Weapons", 10), seller.clone(), 4).unwrap();
    let moved = registry.transfer_asset_ownership(plain.id, heir.clone(), &seller, 5).unwrap();
    assert_eq!(moved.owner, heir);
    assert!(!registry.get_asset(plain.id).unwrap().is_for_sale);
}

#[test]
fn only_the_owner_may_change_a_record() {
    let mut registry = Registry::init();
    let owner = identity(1);
    let stranger = identity(2);
    let asset = registry.upload_asset(input("lamp", "Props", 10), owner.clone(), 1).unwrap();
    let before = registry.get_asset(asset.id).unwrap();

    assert_eq!(
        registry.update_asset_price(asset.id, 999, &stranger, 2),
        Err(RegistryError::Forbidden)
    );
    assert_eq!(registry.get_asset(asset.id).unwrap(), before);
    assert_eq!(
        registry.set_asset_for_sale(asset.id, true, &stranger, 3),
        Err(RegistryError::Forbidden)
    );
    assert_eq!(registry.get_asset(asset.id).unwrap(), before);
    assert_eq!(
        registry.transfer_asset_ownership(asset.id, stranger.clone(), &stranger, 4),
        Err(RegistryError::Forbidden)
    );
    assert_eq!(registry.get_asset(asset.id).unwrap(), before);
    assert_eq!(
        registry.update_asset_price(asset.id, 999, &Principal::anonymous(), 5),
        Err(RegistryError::Forbidden)
    );
    assert_eq!(registry.get_asset(asset.id).unwrap(), before);
}

#[test]
fn changes_to_a_missing_record_are_not_found() {
    let mut registry = Registry::init();
    let owner = identity(1);
    registry.upload_asset(input("lamp", "Props", 10), owner.clone(), 1).unwrap();
    assert_eq!(registry.update_asset_price(2, 5, &owner, 2), Err(RegistryError::NotFound));
    assert_eq!(registry.set_asset_for_sale(0, true, &owner, 2), Err(RegistryError::NotFound));
    assert_eq!(
        registry.transfer_asset_ownership(u64::MAX, identity(2), &owner, 2),
        Err(RegistryError::NotFound)
    );
    assert_eq!(
        registry.marketplace_transfer_asset(77, &owner, identity(2), 2),
        Err(RegistryError::NotFound)
    );
    assert_eq!(registry.get_total_assets(), 1);
}

#[test]
fn owner_changes_price_and_listing() {
    let mut registry = Registry::init();
    let owner = identity(1);
    let asset = registry.upload_asset(input("lamp", "Props", 10), owner.clone(), 1).unwrap();
    let priced = registry.update_asset_price(asset.id, 250, &owner, 8).unwrap();
    assert_eq!(priced.price, 250);
    assert_eq!(priced.updated_at, 8);
    assert_eq!(priced.created_at, 1);
    assert_eq!(priced.name, "lamp");
    assert!(!priced.is_for_sale);
    assert_eq!(registry.get_asset(asset.id).unwrap(), priced);
    let listed = registry.set_asset_for_sale(asset.id, true, &owner, 9).unwrap();
    assert!(listed.is_for_sale);
    assert_eq!(listed.price, 250);
    assert_eq!(listed.updated_at, 9);
    assert_eq!(registry.get_asset(asset.id).unwrap(), listed);
    let unlisted = registry.set_asset_for_sale(asset.id, false, &owner, 10).unwrap();
    assert!(!unlisted.is_for_sale);
    assert_eq!(registry.get_total_assets(), 1);
}

#[test]
fn a_blob_is_kept_once() {
    let mut registry = Registry::init();
    let caller = identity(1);
    let hash = "abc123".to_string();
    assert_eq!(registry.get_file(&hash), None);
    assert_eq!(registry.upload_file(hash.clone(), vec![1, 2, 3], &caller), Ok(hash.clone()));
    assert_eq!(
        registry.upload_file(hash.clone(), vec![9, 9], &identity(2)),
        Err(RegistryError::AlreadyExists)
    );
    assert_eq!(registry.get_file(&hash), Some(vec![1, 2, 3]));
    assert_eq!(registry.get_file(&"abc12".to_string()), None);
    assert_eq!(registry.upload_file("other".to_string(), vec![], &caller), Ok("other".to_string()));
    assert_eq!(registry.get_file(&"other".to_string()), Some(vec![]));
}

#[test]
fn anonymous_file_upload_is_refused() {
    let mut registry = Registry::init();
    let hash = "abc123".to_string();
    assert_eq!(
        registry.upload_file(hash.clone(), vec![1], &Principal::anonymous()),
        Err(RegistryError::Unauthorized)
    );
    assert_eq!(registry.get_file(&hash), None);
}

#[test]
fn search_ignores_case() {
    let mut registry = Registry::init();
    let owner = identity(1);
    let robot = registry.upload_asset(input("robot", "Sci-Fi", 1), owner.clone(), 1).unwrap();
    registry.upload_asset(input("oak", "Nature", 1), owner.clone(), 2).unwrap();
    assert_eq!(registry.search_assets(&"sci-fi".to_string()), vec![robot.clone()]);
    assert_eq!(registry.search_assets(&"SCI-FI".to_string()), vec![robot.clone()]);
    assert_eq!(registry.search_assets(&"Sci-Fi".to_string()), vec![robot.clone()]);
    assert_eq!(registry.search_assets(&"sci-fy".to_string()), vec![]);
    assert_eq!(names(&registry.search_assets(&"LOW-poly".to_string())), vec!["robot", "oak"]);
    assert_eq!(names(&registry.search_assets(&"THREE dim".to_string())), vec!["robot", "oak"]);
    assert_eq!(names(&registry.search_assets(&"OA".to_string())), vec!["oak"]);
    assert_eq!(names(&registry.search_assets(&"".to_string())), vec!["robot", "oak"]);
}

#[test]
fn search_does_not_look_at_other_fields() {
    let mut registry = Registry::init();
    registry.upload_asset(input("robot", "Sci-Fi", 1), identity(1), 1).unwrap();
    assert_eq!(registry.search_assets(&"glb".to_string()), vec![]);
    assert_eq!(registry.search_assets(&"hash-".to_string()), vec![]);
    assert_eq!(registry.search_assets(&"example.org".to_string()), vec![]);
}

#[test]
fn category_is_matched_whole_and_without_case() {
    let mut registry = Registry::init();
    let owner = identity(1);
    registry.upload_asset(input("robot", "Sci-Fi", 1), owner.clone(), 1).unwrap();
    registry.upload_asset(input("oak", "Nature", 1), owner.clone(), 2).unwrap();
    registry.upload_asset(input("laser", "sci-fi", 1), owner.clone(), 3).unwrap();
    assert_eq!(names(&registry.get_assets_by_category(&"SCI-FI".to_string())), vec!["robot", "laser"]);
    assert_eq!(names(&registry.get_assets_by_category(&"nature".to_string())), vec!["oak"]);
    assert_eq!(names(&registry.get_assets_by_category(&"sci".to_string())), Vec::<String>::new());
    assert_eq!(names(&registry.get_assets_by_category(&"".to_string())), Vec::<String>::new());
}

#[test]
fn marketplace_sale_needs_owner_and_listing() {
    let mut registry = Registry::init();
    let owner = identity(1);
    let other = identity(2);
    let buyer = identity(3);
    let asset = registry.upload_asset(input("vase", "Props", 100), owner.clone(), 1).unwrap();
    assert_eq!(
        registry.marketplace_transfer_asset(asset.id, &owner, buyer.clone(), 2),
        Err(RegistryError::NotForSale)
    );
    assert_eq!(registry.get_asset(asset.id).unwrap(), asset);
    let listed = registry.set_asset_for_sale(asset.id, true, &owner, 3).unwrap();
    assert_eq!(
        registry.marketplace_transfer_asset(asset.id, &other, buyer.clone(), 4),
        Err(RegistryError::InvalidSeller)
    );
    assert_eq!(registry.get_asset(asset.id).unwrap(), listed);
    let unlisted = registry.set_asset_for_sale(asset.id, false, &owner, 5).unwrap();
    assert_eq!(
        registry.marketplace_transfer_asset(asset.id, &other, buyer.clone(), 6),
        Err(RegistryError::InvalidSeller)
    );
    assert_eq!(registry.get_asset(asset.id).unwrap(), unlisted);
}

#[test]
fn listed_asset_is_sold_once() {
    let mut registry = Registry::init();
    let first_owner = identity(1);
    let second_owner = identity(2);
    let asset = registry.upload_asset(input("vase", "Props", 100), first_owner.clone(), 1).unwrap();
    assert_eq!(asset.price, 100);
    assert!(!asset.is_for_sale);
    let listed = registry.set_asset_for_sale(asset.id, true, &first_owner, 2).unwrap();
    assert!(listed.is_for_sale);
    let sold = registry
        .marketplace_transfer_asset(asset.id, &first_owner, second_owner.clone(), 3)
        .unwrap();
    assert_eq!(sold.owner, second_owner);
    assert!(!sold.is_for_sale);
    assert_eq!(sold.updated_at, 3);
    assert_eq!(registry.get_asset(asset.id).unwrap(), sold);
    let again = registry.marketplace_transfer_asset(asset.id, &first_owner, second_owner.clone(), 4);
    assert_eq!(again, Err(RegistryError::InvalidSeller));
    let by_new_owner =
        registry.marketplace_transfer_asset(asset.id, &second_owner, first_owner.clone(), 5);
    assert_eq!(by_new_owner, Err(RegistryError::NotForSale));
    assert_eq!(registry.get_asset(asset.id).unwrap(), sold);
}

#[test]
fn sale_to_oneself_then_fails_for_want_of_a_listing() {
    let mut registry = Registry::init();
    let owner = identity(1);
    let asset = registry.upload_asset(input("vase", "Props", 100), owner.clone(), 1).unwrap();
    registry.set_asset_for_sale(asset.id, true, &owner, 2).unwrap();
    let sold = registry.marketplace_transfer_asset(asset.id, &owner, owner.clone(), 3).unwrap();
    assert_eq!(sold.owner, owner);
    assert!(!sold.is_for_sale);
    assert_eq!(
        registry.marketplace_transfer_asset(asset.id, &owner, owner.clone(), 4),
        Err(RegistryError::NotForSale)
    );
}

#[test]
fn queries_list_by_rising_identifier() {
    let mut registry = Registry::init();
    let ann = identity(1);
    let bob = identity(2);
    registry.upload_asset(input("a", "One", 1), ann.clone(), 1).unwrap();
    registry.upload_asset(input("b", "Two", 1), bob.clone(), 2).unwrap();
    registry.upload_asset(input("c", "One", 1), ann.clone(), 3).unwrap();
    registry.upload_asset(input("d", "Two", 1), bob.clone(), 4).unwrap();
    registry.set_asset_for_sale(4, true, &bob, 5).unwrap();
    registry.set_asset_for_sale(1, true, &ann, 6).unwrap();
    assert_eq!(names(&registry.get_all_assets()), vec!["a", "b", "c", "d"]);
    assert_eq!(names(&registry.get_user_assets(&ann)), vec!["a", "c"]);
    assert_eq!(names(&registry.get_user_assets(&bob)), vec!["b", "d"]);
    assert_eq!(names(&registry.get_user_assets(&identity(3))), Vec::<String>::new());
    assert_eq!(names(&registry.get_assets_for_sale()), vec!["a", "d"]);
    assert_eq!(registry.get_total_assets(), 4);
    registry.transfer_asset_ownership(1, bob.clone(), &ann, 7).unwrap();
    assert_eq!(names(&registry.get_user_assets(&bob)), vec!["a", "b", "d"]);
    assert_eq!(names(&registry.get_assets_for_sale()), vec!["d"]);
    let all = registry.get_all_assets();
    for (index, asset) in all.iter().enumerate() {
        assert_eq!(asset.id, index as u64 + 1);
        assert_eq!(registry.get_asset(asset.id).as_ref(), Some(asset));
    }
}

#[test]
fn empty_registry_answers_with_nothing() {
    let registry = Registry::init();
    assert_eq!(registry.get_total_assets(), 0);
    assert_eq!(registry.get_all_assets(), vec![]);
    assert_eq!(registry.get_assets_for_sale(), vec![]);
    assert_eq!(registry.search_assets(&"".to_string()), vec![]);
    assert_eq!(registry.get_asset(1), None);
}

#[test]
fn upload_with_file_keeps_the_blob_and_names_it() {
    let mut registry = Registry::init();
    let owner = identity(1);
    let asset = registry
        .upload_asset_with_file(input("tree", "Nature", 5), vec![7, 8, 9], owner.clone(), 11)
        .unwrap();
    assert_eq!(asset.id, 1);
    assert_eq!(asset.file_hash, "hash-tree");
    assert_eq!(asset.file_url, "canister://hash-tree");
    assert_eq!(asset.owner, owner);
    assert!(!asset.is_for_sale);
    assert_eq!(asset.created_at, 11);
    assert_eq!(asset.updated_at, 11);
    assert_eq!(registry.get_file(&"hash-tree".to_string()), Some(vec![7, 8, 9]));
    assert_eq!(registry.get_asset(1), Some(asset));
}

#[test]
fn upload_with_file_replaces_a_blob_that_is_there() {
    let mut registry = Registry::init();
    let owner = identity(1);
    let hash = "hash-tree".to_string();
    assert_eq!(registry.upload_file(hash.clone(), vec![1], &owner), Ok(hash.clone()));
    let asset = registry
        .upload_asset_with_file(input("tree", "Nature", 5), vec![2, 2], owner.clone(), 11)
        .unwrap();
    assert_eq!(asset.id, 1);
    assert_eq!(registry.get_file(&hash), Some(vec![2, 2]));
    assert_eq!(
        registry.upload_file(hash.clone(), vec![3], &owner),
        Err(RegistryError::AlreadyExists)
    );
    assert_eq!(registry.get_file(&hash), Some(vec![2, 2]));
}

#[test]
fn internal_url_names_the_hash() {
    assert_eq!(internal_url(&"abc".to_string()), "canister://abc");
    assert_eq!(internal_url(&"".to_string()), "canister://");
}

#[test]
fn small_blobs_fit() {
    assert!(blob_fits_region(&"abc".to_string(), &vec![1, 2, 3]));
    assert!(blob_fits_region(&"".to_string(), &vec![]));
}

#[test]
fn many_records_are_walked_in_order() {
    let mut registry = Registry::init();
    let ann = identity(1);
    let bob = identity(2);
    for round in 0..400u64 {
        let owner = if round % 4 == 0 { ann.clone() } else { bob.clone() };
        let mut described = input("piece", "Set", round);
        described.name = format!("piece {}", round);
        described.description = "x".repeat((round as usize % 7) * 300);
        let asset = registry.upload_asset(described, owner, round).unwrap();
        assert_eq!(asset.id, round + 1);
        if round % 10 == 0 {
            registry.set_asset_for_sale(asset.id, true, &asset.owner, round).unwrap();
        }
    }
    assert_eq!(registry.get_total_assets(), 400);
    let all = registry.get_all_assets();
    assert_eq!(all.len(), 400);
    for (index, asset) in all.iter().enumerate() {
        assert_eq!(asset.id, index as u64 + 1);
        assert_eq!(asset.name, format!("piece {}", index));
    }
    let owned = registry.get_user_assets(&ann);
    assert_eq!(owned.len(), 100);
    for (index, asset) in owned.iter().enumerate() {
        assert_eq!(asset.id, 4 * index as u64 + 1);
    }
    let listed = registry.get_assets_for_sale();
    assert_eq!(listed.len(), 40);
    for (index, asset) in listed.iter().enumerate() {
        assert_eq!(asset.id, 10 * index as u64 + 1);
        assert!(asset.is_for_sale);
    }
    assert_eq!(names(&registry.search_assets(&"PIECE 39".to_string())).len(), 11);
    assert_eq!(registry.get_asset(400).unwrap().price, 399);
    assert_eq!(registry.get_asset(401), None);
}

#[test]
fn files_and_records_do_not_touch_each_other() {
    let mut registry = Registry::init();
    let owner = identity(1);
    registry.upload_file("h".to_string(), vec![1], &owner).unwrap();
    assert_eq!(registry.get_total_assets(), 0);
    let asset = registry.upload_asset(input("a", "One", 1), owner.clone(), 1).unwrap();
    assert_eq!(asset.id, 1);
    assert_eq!(registry.get_file(&"h".to_string()), Some(vec![1]));
    assert_eq!(registry.get_file(&"hash-a".to_string()), None);
}
