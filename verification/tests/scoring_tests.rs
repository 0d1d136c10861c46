//! The scoring engine and the composite map, driven end to end through the
//! in-memory storage engine.

use tilescore::engine::InMemoryStore;
use tilescore::errors::StoreError;
use tilescore::pagination::{HouseFilter, HouseRequestFilter, PaginationParams, list_houses};
use tilescore::requirement_item::{MapTile, RequirementItem};
use tilescore::scoring::{
    Location, RequirementScore, ScoreRequest, TravelMode, aggregate_requirements,
    build_composite_map, compute_tile_scores, load_requirements, score_and_store,
};
use tilescore::spatial_distance_item::SpatialDistanceItem;
use tilescore::house_item::HouseItem;
use tilescore::uid::UuidValue;

fn uuid(n: u128) -> UuidValue {
    UuidValue { bits: n }
}

fn location(h3: &str) -> Location {
    Location {
        id: 1,
        address: "somewhere".to_string(),
        h3_index: h3.to_string(),
    }
}

fn distance(src: &str, dst: &str, drive: i32) -> SpatialDistanceItem {
    SpatialDistanceItem::new(
        "ADL".to_string(),
        src.to_string(),
        dst.to_string(),
        drive * 4,
        drive * 2,
        drive,
        drive * 3,
    )
}

fn tiles(names: &[&str]) -> Vec<String> {
    names.iter().map(|s| s.to_string()).collect()
}

#[test]
fn anchor_tile_scores_hundred_found_pair_scales_absent_pair_zero() {
    // anchors {A}; tiles {A, B, C}; drive A to B takes 600 s, A to C is
    // absent; tolerated 1200 s by drive:
    // score(A) = 100, score(B) = 100 - min(100, 50) = 50, score(C) = 0
    let locations = vec![location("A")];
    let rows = vec![distance("A", "B", 600)];
    let city = tiles(&["A", "B", "C"]);
    let scored = compute_tile_scores(&locations, &rows, &city, &TravelMode::Driving, 1200);
    assert_eq!(scored.len(), 3);
    assert_eq!(scored[0].h3_index, "A".to_string());
    assert_eq!(scored[0].score, 100);
    assert_eq!(scored[1].h3_index, "B".to_string());
    assert_eq!(scored[1].score, 50);
    assert_eq!(scored[2].h3_index, "C".to_string());
    assert_eq!(scored[2].score, 0);
}

#[test]
fn minimum_across_anchors_and_mode_selection() {
    let locations = vec![location("A"), location("B")];
    let rows = vec![
        distance("A", "C", 900),
        distance("B", "C", 300),
        // a later row for the same pair wins
        distance("A", "C", 1200),
    ];
    let city = tiles(&["C"]);
    let by_drive = compute_tile_scores(&locations, &rows, &city, &TravelMode::Driving, 1200);
    // min(1200, 300) = 300; 100 - 100 * 300 / 1200 = 75
    assert_eq!(by_drive[0].score, 75);
    let by_cycle = compute_tile_scores(&locations, &rows, &city, &TravelMode::Bicycling, 1200);
    // cycle durations are twice drive: min(2400, 600) = 600
    assert_eq!(by_cycle[0].score, 50);
    let beyond = compute_tile_scores(&locations, &rows, &city, &TravelMode::Walking, 1200);
    // walk durations are four times drive: min(4800, 1200) = 1200 scores 0
    assert_eq!(beyond[0].score, 0);
}

fn seed_requirement(
    store: &mut InMemoryStore,
    id: UuidValue,
    scores: &[(&str, i32)],
) -> RequirementItem {
    let item = RequirementItem::new(
        "ADL".to_string(),
        id,
        scores
            .iter()
            .map(|(h3, s)| MapTile {
                h3_index: h3.to_string(),
                score: *s,
            })
            .collect(),
    );
    assert!(store.write_single(item.save()).is_ok());
    item
}

#[test]
fn score_and_store_persists_the_requirement() {
    let mut store = InMemoryStore::new();
    for row in [distance("A", "B", 600)] {
        assert!(store.write_single(row.save()).is_ok());
    }
    let request = ScoreRequest {
        requirement_id: uuid(7),
        city_code: "ADL".to_string(),
        travel_mode: TravelMode::Driving,
        locations: vec![location("A")],
        tolerated_duration: 1200,
    };
    let city = tiles(&["A", "B", "C"]);
    let item = score_and_store(&mut store, &request, &city).unwrap();
    assert_eq!(item.map_tiles.len(), 3);
    assert_eq!(item.map_tiles[1].score, 50);

    // the stored copy reads back identical
    let loaded = load_requirements(&store, &vec![uuid(7)]).unwrap();
    assert_eq!(loaded.len(), 1);
    assert_eq!(loaded[0].city_code, "ADL".to_string());
    assert_eq!(loaded[0].requirement_id, uuid(7));
    assert_eq!(loaded[0].map_tiles.len(), 3);
    assert_eq!(loaded[0].map_tiles[0].h3_index, "A".to_string());
    assert_eq!(loaded[0].map_tiles[0].score, 100);
    assert_eq!(loaded[0].map_tiles[1].score, 50);
    assert_eq!(loaded[0].map_tiles[2].score, 0);

    // resubmission fully replaces the stored tile list
    let smaller_city = tiles(&["B"]);
    let replaced = score_and_store(&mut store, &request, &smaller_city).unwrap();
    assert_eq!(replaced.map_tiles.len(), 1);
    let reloaded = load_requirements(&store, &vec![uuid(7)]).unwrap();
    assert_eq!(reloaded[0].map_tiles.len(), 1);
    assert_eq!(reloaded[0].map_tiles[0].h3_index, "B".to_string());
}

#[test]
fn composite_takes_the_minimum_per_tile() {
    // two requirements score tile B with 50 and 80; the composite is 50
    let mut store = InMemoryStore::new();
    seed_requirement(&mut store, uuid(1), &[("B", 50), ("C", 70)]);
    seed_requirement(&mut store, uuid(2), &[("B", 80)]);
    let aggs = build_composite_map(&store, &tiles(&["A", "B", "C"]), &vec![uuid(1), uuid(2)])
        .unwrap();
    assert_eq!(aggs.len(), 2);
    assert_eq!(aggs[0].h3_index, "B".to_string());
    assert_eq!(aggs[0].score, 50);
    assert_eq!(aggs[0].requirement_scores.len(), 2);
    assert_eq!(aggs[0].requirement_scores[0].requirement_id, uuid(1));
    assert_eq!(aggs[0].requirement_scores[0].score, 50);
    assert_eq!(aggs[0].requirement_scores[1].requirement_id, uuid(2));
    assert_eq!(aggs[0].requirement_scores[1].score, 80);
    assert_eq!(aggs[1].h3_index, "C".to_string());
    assert_eq!(aggs[1].score, 70);
    // tile A was scored by nobody and is omitted from a non-empty
    // aggregation
    assert!(aggs.iter().all(|a| a.h3_index != "A".to_string()));
}

#[test]
fn missing_requirement_fails_whole_aggregation() {
    let mut store = InMemoryStore::new();
    seed_requirement(&mut store, uuid(1), &[("B", 50)]);
    let r = build_composite_map(&store, &tiles(&["A", "B"]), &vec![uuid(1), uuid(9)]);
    assert_eq!(r.err(), Some(StoreError::RequirementNotFound));
}

#[test]
fn empty_aggregation_returns_all_tiles_at_zero() {
    let store = InMemoryStore::new();
    let aggs = build_composite_map(&store, &tiles(&["A", "B"]), &vec![]).unwrap();
    assert_eq!(aggs.len(), 2);
    for (agg, name) in aggs.iter().zip(["A", "B"]) {
        assert_eq!(agg.h3_index, name.to_string());
        assert_eq!(agg.score, 0);
        assert!(agg.requirement_scores.is_empty());
    }
}

#[test]
fn aggregate_requirements_groups_in_first_seen_order() {
    let a = RequirementItem::new(
        "ADL".to_string(),
        uuid(1),
        vec![
            MapTile { h3_index: "X".to_string(), score: 30 },
            MapTile { h3_index: "Y".to_string(), score: 90 },
        ],
    );
    let b = RequirementItem::new(
        "ADL".to_string(),
        uuid(2),
        vec![
            MapTile { h3_index: "Y".to_string(), score: 10 },
            MapTile { h3_index: "Z".to_string(), score: 60 },
        ],
    );
    let aggs = aggregate_requirements(&vec![a, b]);
    let names: Vec<String> = aggs.iter().map(|t| t.h3_index.clone()).collect();
    assert_eq!(names, vec!["X".to_string(), "Y".to_string(), "Z".to_string()]);
    assert_eq!(aggs[1].score, 10);
    let contributors: Vec<(UuidValue, i32)> = aggs[1]
        .requirement_scores
        .iter()
        .map(|c: &RequirementScore| (c.requirement_id, c.score))
        .collect();
    assert_eq!(contributors, vec![(uuid(1), 90), (uuid(2), 10)]);
}

fn house(h3: &str, address: &str, city: &str) -> HouseItem {
    HouseItem {
        h3_index: h3.to_string(),
        address: address.to_string(),
        city_code: city.to_string(),
        url: "https://listing.example/1".to_string(),
        lat: "-34.9285".to_string(),
        lng: "138.6007".to_string(),
        price_lower: 500000,
        price_upper: 550000,
        num_bathrooms: 2,
        num_bedrooms: 3,
        num_carspaces: 1,
        property_type: "House".to_string(),
    }
}

#[test]
fn house_listing_pages_by_city() {
    let mut store = InMemoryStore::new();
    for (h3, addr) in [("T1", "1 First St"), ("T1", "2 First St"), ("T2", "9 Other St")] {
        assert!(store.write_single(house(h3, addr, "ADL").save(1700000000)).is_ok());
    }
    assert!(store.write_single(house("T9", "5 Away Rd", "SYD").save(1700000000)).is_ok());

    let filter = HouseRequestFilter {
        city_code: Some("ADL".to_string()),
        h3_index: None,
    };
    let selected = match filter.selector() {
        Some(f) => f,
        None => panic!("one filter was given"),
    };
    let mut start = PaginationParams {
        limit: Some(2),
        last_evaluated_key: None,
    };
    let first = list_houses(&store, &selected, Some(2), &start).unwrap();
    assert_eq!(first.items.len(), 2);
    let token = tilescore::pagination::encode_page_token(&first).unwrap();
    start.last_evaluated_key = Some(token);
    let second = list_houses(&store, &selected, Some(2), &start).unwrap();
    assert_eq!(second.items.len(), 1);
    assert!(second.last_evaluated_key.is_none());

    let mut addresses: Vec<String> = first
        .items
        .iter()
        .chain(second.items.iter())
        .map(|h| h.address.clone())
        .collect();
    addresses.sort();
    assert_eq!(
        addresses,
        vec![
            "1 First St".to_string(),
            "2 First St".to_string(),
            "9 Other St".to_string(),
        ]
    );
}

#[test]
fn house_listing_by_tile_and_bad_token() {
    let mut store = InMemoryStore::new();
    assert!(store.write_single(house("T1", "1 First St", "ADL").save(1700000000)).is_ok());
    let page = list_houses(
        &store,
        &HouseFilter::ByH3Index("T1".to_string()),
        None,
        &PaginationParams {
            limit: None,
            last_evaluated_key: None,
        },
    )
    .unwrap();
    assert_eq!(page.items.len(), 1);
    assert_eq!(page.items[0].lat, "-34.9285".to_string());

    let bad = list_houses(
        &store,
        &HouseFilter::ByH3Index("T1".to_string()),
        None,
        &PaginationParams {
            limit: None,
            last_evaluated_key: Some("///not a cursor///".to_string()),
        },
    );
    assert_eq!(bad.err(), Some(StoreError::InvalidCursor));
}

#[test]
fn filter_selector_demands_exactly_one_path() {
    let both = HouseRequestFilter {
        city_code: Some("ADL".to_string()),
        h3_index: Some("T1".to_string()),
    };
    assert!(both.selector().is_none());
    let neither = HouseRequestFilter {
        city_code: None,
        h3_index: None,
    };
    assert!(neither.selector().is_none());
}

#[test]
fn requirement_tiles_survive_their_stored_text() {
    let item = RequirementItem::new(
        "ADL".to_string(),
        uuid(3),
        vec![
            MapTile { h3_index: "a-1".to_string(), score: 0 },
            MapTile { h3_index: "b \"2\"".to_string(), score: 100 },
        ],
    );
    let text = item.serialise_map_tiles();
    let back = RequirementItem::deserialise_map_tiles(text.as_str()).unwrap();
    assert_eq!(back.len(), 2);
    assert_eq!(back[0].h3_index, "a-1".to_string());
    assert_eq!(back[0].score, 0);
    assert_eq!(back[1].h3_index, "b \"2\"".to_string());
    assert_eq!(back[1].score, 100);
}

#[test]
fn travel_mode_names() {
    assert_eq!(TravelMode::Driving.as_str(), "driving");
    assert_eq!(TravelMode::Walking.as_str(), "walking");
    assert_eq!(TravelMode::Bicycling.as_str(), "bicycling");
    assert_eq!(TravelMode::PublicTransport.as_str(), "transit");
}

#[test]
fn point_lookups_through_the_entities() {
    let mut store = InMemoryStore::new();
    let row = distance("A", "B", 240);
    assert!(store.write_single(row.save()).is_ok());
    let found = SpatialDistanceItem::from_db(&"A".to_string(), &"B".to_string(), &store)
        .unwrap()
        .unwrap();
    assert_eq!(found.city_code, "ADL".to_string());
    assert_eq!(found.duration_drive, 240);
    assert_eq!(found.duration_walk, 960);
    let missing =
        SpatialDistanceItem::from_db(&"B".to_string(), &"A".to_string(), &store).unwrap();
    assert!(missing.is_none());

    seed_requirement(&mut store, uuid(4), &[("B", 42)]);
    let req = RequirementItem::from_db(&uuid(4), &store).unwrap().unwrap();
    assert_eq!(req.map_tiles.len(), 1);
    assert_eq!(req.map_tiles[0].score, 42);
    assert!(RequirementItem::from_db(&uuid(5), &store).unwrap().is_none());
}

#[test]
fn spatial_rows_list_by_source_and_city() {
    let mut store = InMemoryStore::new();
    for row in [distance("A", "B", 100), distance("A", "C", 200), distance("B", "C", 300)] {
        assert!(store.write_single(row.save()).is_ok());
    }
    let from_a = SpatialDistanceItem::list_by_source_from_db(&"A".to_string(), &store).unwrap();
    assert_eq!(from_a.len(), 2);
    let whole_city =
        SpatialDistanceItem::list_by_city_from_db(&"ADL".to_string(), &store).unwrap();
    assert_eq!(whole_city.len(), 3);
    let other_city =
        SpatialDistanceItem::list_by_city_from_db(&"SYD".to_string(), &store).unwrap();
    assert!(other_city.is_empty());
}
