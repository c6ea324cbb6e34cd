use stellar_nebula_nomad::dex_integration::{cancel_listing, get_offer, harvest_and_list, DexStore};
use stellar_nebula_nomad::resource_minter::{
    auto_list_on_dex, cell_type_to_asset, get_resource_balance, harvest_resources, next_harvest_id, CellType,
    HarvestError, NebulaCell, NebulaLayout, ResourceStore,
};
use stellar_nebula_nomad::types::Address;

/// A scanned nebula whose cells are taken from a seed byte.
fn layout_from(seed: u8) -> NebulaLayout {
    let kinds = [
        CellType::Empty,
        CellType::StellarDust,
        CellType::Asteroid,
        CellType::GasCloud,
        CellType::DarkMatter,
        CellType::ExoticMatter,
        CellType::Wormhole,
    ];
    let mut cells = Vec::new();
    for i in 0..16u8 {
        let k = (seed.wrapping_add(i)) as usize % kinds.len();
        cells.push(NebulaCell { cell_type: kinds[k], energy: (i as u32 % 5) * 10 + 5 });
    }
    NebulaLayout { cells }
}

fn setup() -> (DexStore, ResourceStore, Address) {
    (DexStore::new(), ResourceStore::new(), Address::from_id(1))
}

#[test]
fn test_harvest_and_list_creates_offer() {
    let (mut dex, mut res, player) = setup();
    let layout = layout_from(42);
    let resource = String::from("dust");
    let (harvest, offer) = harvest_and_list(&mut dex, &mut res, &player, 1, Some(player), &layout, &resource, 100i128).unwrap();
    assert!(harvest.total_harvested > 0);
    assert!(offer.active);
    assert_eq!(offer.asset_id, resource);
    assert_eq!(offer.min_price, 100);
}

#[test]
fn test_cancel_listing_deactivates_offer() {
    let (mut dex, mut res, player) = setup();
    let layout = layout_from(42);
    let resource = String::from("dust");
    let (_, offer) = harvest_and_list(&mut dex, &mut res, &player, 1, Some(player), &layout, &resource, 50i128).unwrap();
    let cancelled = cancel_listing(&mut dex, &mut res, &player, offer.offer_id).unwrap();
    assert!(!cancelled.active);
}

#[test]
fn test_cancel_already_cancelled_fails() {
    let (mut dex, mut res, player) = setup();
    let layout = layout_from(42);
    let resource = String::from("dust");
    let (_, offer) = harvest_and_list(&mut dex, &mut res, &player, 1, Some(player), &layout, &resource, 50i128).unwrap();
    cancel_listing(&mut dex, &mut res, &player, offer.offer_id).unwrap();
    let result = cancel_listing(&mut dex, &mut res, &player, offer.offer_id);
    assert!(result.is_err());
}

#[test]
fn test_harvest_and_list_invalid_price_fails() {
    let (mut dex, mut res, player) = setup();
    let layout = layout_from(42);
    let resource = String::from("dust");
    let result = harvest_and_list(&mut dex, &mut res, &player, 1, Some(player), &layout, &resource, 0i128);
    assert!(result.is_err());
}

#[test]
fn test_burst_limit_enforced() {
    let (mut dex, mut res, player) = setup();
    let resource = String::from("dust");
    for i in 0..5u8 {
        let layout = layout_from(i + 1);
        let result = harvest_and_list(&mut dex, &mut res, &player, i as u64, Some(player), &layout, &resource, 10i128);
        assert!(result.is_ok(), "Listing {} should succeed", i);
    }
    let layout6 = layout_from(99);
    let result = harvest_and_list(&mut dex, &mut res, &player, 6, Some(player), &layout6, &resource, 10i128);
    assert!(result.is_err());
}

#[test]
fn harvest_credits_each_asset() {
    let mut res = ResourceStore::new();
    let owner = Address::from_id(5);
    let layout = NebulaLayout {
        cells: vec![
            NebulaCell { cell_type: CellType::StellarDust, energy: 7 },
            NebulaCell { cell_type: CellType::Empty, energy: 100 },
            NebulaCell { cell_type: CellType::Wormhole, energy: 3 },
            NebulaCell { cell_type: CellType::StellarDust, energy: 0 },
            NebulaCell { cell_type: CellType::StellarDust, energy: 2 },
        ],
    };
    let h = harvest_resources(&mut res, 9, Some(owner), &layout).unwrap();
    assert_eq!(h.ship_id, 9);
    assert_eq!(h.total_harvested, 12);
    let got: Vec<(String, u32)> = h.resources.iter().map(|r| (r.asset_id.clone(), r.amount)).collect();
    assert_eq!(got, vec![(String::from("dust"), 7), (String::from("worm"), 3), (String::from("dust"), 2)]);
    assert_eq!(get_resource_balance(&res, &owner, &String::from("dust")), 9);
    assert_eq!(get_resource_balance(&res, &owner, &String::from("worm")), 3);
    assert_eq!(get_resource_balance(&res, &owner, &String::from("ore")), 0);
    assert_eq!(get_resource_balance(&res, &owner, &String::from("iron")), 0);
    assert_eq!(harvest_resources(&mut res, 9, None, &layout).unwrap_err(), HarvestError::ShipNotFound);
    let empty = NebulaLayout { cells: vec![NebulaCell { cell_type: CellType::Empty, energy: 8 }] };
    assert_eq!(harvest_resources(&mut res, 9, Some(owner), &empty).unwrap_err(), HarvestError::EmptyHarvest);
    assert_eq!(cell_type_to_asset(&CellType::GasCloud), Some(String::from("gas")));
    assert_eq!(cell_type_to_asset(&CellType::Empty), None);
    assert_eq!(next_harvest_id(&mut res), 1);
    assert_eq!(next_harvest_id(&mut res), 2);
}

#[test]
fn listing_rules() {
    let (mut dex, mut res, player) = setup();
    let layout = NebulaLayout {
        cells: vec![
            NebulaCell { cell_type: CellType::Asteroid, energy: 4 },
            NebulaCell { cell_type: CellType::Asteroid, energy: 6 },
            NebulaCell { cell_type: CellType::GasCloud, energy: 1 },
        ],
    };
    // An asset the layout does not yield: nothing is listed and nothing credited.
    assert_eq!(
        harvest_and_list(&mut dex, &mut res, &player, 1, Some(player), &layout, &String::from("dust"), 5).unwrap_err(),
        HarvestError::AssetNotHarvested
    );
    assert_eq!(get_resource_balance(&res, &player, &String::from("ore")), 0);
    let (h, offer) = harvest_and_list(&mut dex, &mut res, &player, 1, Some(player), &layout, &String::from("ore"), 5).unwrap();
    assert_eq!(h.total_harvested, 11);
    assert_eq!(offer.amount, 10);
    assert_eq!(offer.offer_id, 1);
    // The whole harvest is credited; the offer records the listed amount.
    assert_eq!(get_resource_balance(&res, &player, &String::from("ore")), 10);
    assert_eq!(get_resource_balance(&res, &player, &String::from("gas")), 1);
    assert_eq!(get_offer(&dex, 1).unwrap().amount, 10);
    // Only the lister may cancel.
    assert_eq!(cancel_listing(&mut dex, &mut res, &Address::from_id(2), 1).unwrap_err(), HarvestError::DexFailure);
    assert_eq!(cancel_listing(&mut dex, &mut res, &player, 7).unwrap_err(), HarvestError::DexFailure);
    // Cancelling refunds the listed ore to the lister, once.
    assert!(!cancel_listing(&mut dex, &mut res, &player, 1).unwrap().active);
    assert_eq!(get_resource_balance(&res, &player, &String::from("ore")), 20);
    assert_eq!(cancel_listing(&mut dex, &mut res, &player, 1).unwrap_err(), HarvestError::DexFailure);
    assert_eq!(get_resource_balance(&res, &player, &String::from("ore")), 20);
    let listed = auto_list_on_dex(&mut res, &String::from("gas"), 3).unwrap();
    assert_eq!((listed.offer_id, listed.amount, listed.active), (1, 0, true));
    assert_eq!(auto_list_on_dex(&mut res, &String::from("gas"), 0).unwrap_err(), HarvestError::InvalidPrice);
}
