use cfrp_detector::{CfLocation, LocationSource, LocationStore};

fn place(iata: &str, lat: f64, lon: f64, city: &str, region: &str, cca2: &str) -> CfLocation {
    CfLocation {
        iata: iata.into(),
        lat_bits: lat.to_bits(),
        lon_bits: lon.to_bits(),
        city: city.into(),
        region: region.into(),
        cca2: cca2.into(),
    }
}

fn sample_locations() -> Vec<CfLocation> {
    vec![
        place("LAX", 33.9425, -118.4081, "Los Angeles", "CA", "US"),
        place("NRT", 35.7647, 140.3864, "Tokyo", "Tokyo", "JP"),
        place("LHR", 51.4706, -0.461941, "London", "ENG", "GB"),
    ]
}

#[test]
fn cf_location_fields() {
    let loc = place("LAX", 33.9425, -118.4081, "Los Angeles", "CA", "US");
    assert_eq!(loc.iata, "LAX");
    assert_eq!(loc.city, "Los Angeles");
    assert_eq!(loc.cca2, "US");
}

#[test]
fn location_store_empty_lookup_returns_none() {
    let store = LocationStore::empty();
    assert!(store.lookup("LAX").is_none());
}

#[test]
fn location_store_lookup_case_insensitive() {
    let store = LocationStore::from_locations(vec![place(
        "LAX",
        33.9425,
        -118.4081,
        "Los Angeles",
        "CA",
        "US",
    )]);
    assert!(store.lookup("lax").is_some());
    assert!(store.lookup("Lax").is_some());
    assert!(store.lookup("LAX").is_some());
    assert_eq!(store.lookup("LAX").unwrap().city, "Los Angeles");
}

#[test]
fn location_store_lookup_returns_full_struct() {
    let store = LocationStore::from_locations(sample_locations());
    let hit = store.lookup("lhr").unwrap();
    assert_eq!(hit.iata, "LHR");
    assert_eq!(hit.city, "London");
    assert_eq!(hit.cca2, "GB");
}

#[test]
fn location_store_lookup_missing_returns_none() {
    let store = LocationStore::from_locations(vec![place("LAX", 0.0, 0.0, "", "", "")]);
    assert!(store.lookup("not-there").is_none());
    assert!(store.lookup("").is_none());
}

#[test]
fn location_store_empty_lookup_always_none() {
    let store = LocationStore::empty();
    assert!(store.lookup("lax").is_none());
    assert!(store.lookup("LAX").is_none());
    assert!(store.lookup("").is_none());
}

#[test]
fn cf_location_clone_is_independent() {
    let loc = sample_locations().remove(0);
    let mut loc2 = loc.clone();
    loc2.city = "Changed".into();
    assert_ne!(loc.city, loc2.city);
    assert_eq!(loc.iata, "LAX");
}

#[test]
fn location_store_implements_location_source_trait() {
    fn use_as_source<S: LocationSource>(s: &S, key: &str) -> bool {
        s.lookup(key).is_none()
    }
    let store = LocationStore::empty();
    assert!(use_as_source(&store, "LAX"));
}

#[test]
fn lookup_on_populated_store_via_from_locations() {
    let store = LocationStore::from_locations(sample_locations());
    assert_eq!(store.lookup("nrt").unwrap().city, "Tokyo");
    assert_eq!(store.lookup("lax").unwrap().cca2, "US");
    assert_eq!(store.lookup("LHR").unwrap().region, "ENG");
}

#[test]
fn from_locations_with_empty_iter_stays_empty() {
    let store = LocationStore::from_locations(vec![]);
    assert!(store.lookup("LAX").is_none());
}

#[test]
fn from_locations_iata_key_is_uppercased() {
    let store = LocationStore::from_locations(vec![place("lax", 0.0, 0.0, "lowercase", "", "")]);
    assert!(store.lookup("LAX").is_some());
    assert_eq!(store.lookup("LAX").unwrap().city, "lowercase");
}

#[test]
fn phase4_static_locations_case_insensitive() {
    let loc = LocationStore::from_locations(sample_locations());
    assert!(loc.lookup("lax").is_some());
    assert!(loc.lookup("LAX").is_some());
    assert!(loc.lookup("Lax").is_some());
    assert!(loc.lookup("XXX").is_none());
}

#[test]
fn a_later_place_replaces_an_earlier_one_of_the_same_code() {
    let store = LocationStore::from_locations(vec![
        place("LAX", 1.5, 2.5, "first", "", ""),
        place("lax", 3.5, 4.5, "second", "", ""),
    ]);
    let hit = store.lookup("Lax").unwrap();
    assert_eq!(hit.city, "second");
    assert_eq!(f64::from_bits(hit.lat_bits), 3.5);
    assert_eq!(f64::from_bits(hit.lon_bits), 4.5);
}
