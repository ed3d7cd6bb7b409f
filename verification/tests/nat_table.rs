use nat_table::concurrent::NatTable;
use nat_table::flow::{FlowIdentifier, Ipv4Address, PROTOCOL_TCP, PROTOCOL_UDP};
use nat_table::table::{CollisionError, FlowTable};

fn internal_sample() -> FlowIdentifier {
    FlowIdentifier::new(
        PROTOCOL_TCP,
        Ipv4Address::new(10, 0, 0, 1),
        Ipv4Address::new(10, 0, 0, 2),
        1337,
        2000,
    )
}

fn external_sample() -> FlowIdentifier {
    FlowIdentifier::new(
        PROTOCOL_TCP,
        Ipv4Address::new(172, 168, 0, 1),
        Ipv4Address::new(8, 8, 8, 8),
        420,
        9593,
    )
}

fn other_internal() -> FlowIdentifier {
    FlowIdentifier::new(
        PROTOCOL_UDP,
        Ipv4Address::new(192, 168, 1, 7),
        Ipv4Address::new(10, 0, 0, 2),
        5353,
        53,
    )
}

fn other_external() -> FlowIdentifier {
    FlowIdentifier::new(
        PROTOCOL_UDP,
        Ipv4Address::new(172, 168, 0, 1),
        Ipv4Address::new(1, 1, 1, 1),
        40000,
        53,
    )
}

#[test]
fn create_empty_table() {
    let nat_table = NatTable::new();
    assert!(nat_table.is_empty());
}

#[test]
fn insert_one_row() {
    let nat_table = NatTable::new();

    // Create test tuple
    let internal_tuple = internal_sample();
    let external_tuple = external_sample();

    // Test insertion
    nat_table
        .insert(internal_tuple.clone(), external_tuple.clone())
        .unwrap();
    assert_eq!(nat_table.len(), 1);

    // Test contains
    assert!(nat_table.contains_internal(&internal_tuple));
    assert!(nat_table.contains_external(&external_tuple));

    // Test get
    assert_eq!(
        nat_table.get_internal(&external_tuple),
        Some(internal_tuple.clone())
    );
    assert_eq!(
        nat_table.get_external(&internal_tuple),
        Some(external_tuple.clone())
    );

    // Test can't overwrite
    assert!(nat_table
        .insert(internal_tuple.clone(), external_tuple.clone())
        .is_err());
    assert_eq!(nat_table.len(), 1);

    // Test can overwrite
    nat_table.insert_overwrite(internal_tuple.clone(), external_tuple.clone());
    assert_eq!(nat_table.len(), 1);
    assert_eq!(
        nat_table.get_internal(&external_tuple),
        Some(internal_tuple.clone())
    );

    // Test clear
    nat_table.clear();
    assert!(nat_table.is_empty());
}

#[test]
fn ipv4_address_value() {
    assert_eq!(Ipv4Address::new(10, 0, 0, 1).bits, 0x0A00_0001);
    assert_eq!(Ipv4Address::new(255, 255, 255, 255).bits, 0xFFFF_FFFF);
    assert_eq!(Ipv4Address::new(0, 0, 0, 0).bits, 0);
}

#[test]
fn flow_identifier_equality() {
    let a = internal_sample();
    let b = internal_sample();
    assert_eq!(a, b);
    assert_ne!(a, external_sample());
    let mut c = internal_sample();
    c.src_port = 1338;
    assert_ne!(a, c);
}

#[test]
fn insert_rejects_collisions() {
    let table = NatTable::new();
    let a = internal_sample();
    let b = external_sample();
    let x = other_external();
    let y = other_internal();

    table.insert(a, b).unwrap();

    // The identical pair, a new external for the same internal, and a new
    // internal for the same external are all rejected.
    assert_eq!(table.insert(a, b), Err(CollisionError));
    assert_eq!(table.insert(a, x), Err(CollisionError));
    assert_eq!(table.insert(y, b), Err(CollisionError));

    // The table is unchanged: same length, same lookups.
    assert_eq!(table.len(), 1);
    assert_eq!(table.get_external(&a), Some(b));
    assert_eq!(table.get_internal(&b), Some(a));
    assert!(!table.contains_internal(&y));
    assert!(!table.contains_external(&x));
}

#[test]
fn round_trip_lookup() {
    let table = NatTable::new();
    let a = internal_sample();
    let b = external_sample();
    table.insert(a, b).unwrap();
    assert_eq!(table.get_external(&a), Some(b));
    assert_eq!(table.get_internal(&b), Some(a));

    let y = other_internal();
    let x = other_external();
    table.insert(y, x).unwrap();
    assert_eq!(table.get_external(&y), Some(x));
    assert_eq!(table.get_internal(&x), Some(y));
    assert_eq!(table.len(), 2);
}

#[test]
fn overwrite_displaces() {
    let table = NatTable::new();
    let a = internal_sample();
    let b = external_sample();
    let c = other_external();

    table.insert(a, b).unwrap();
    table.insert_overwrite(a, c);

    assert_eq!(table.get_external(&a), Some(c));
    assert_eq!(table.get_internal(&b), None);
    assert_eq!(table.get_internal(&c), Some(a));
    assert_eq!(table.len(), 1);
}

#[test]
fn overwrite_evicts_unrelated_mapping() {
    let table = NatTable::new();
    let a = internal_sample();
    let b = external_sample();
    let y = other_internal();
    let x = other_external();

    table.insert(a, b).unwrap();
    table.insert(y, x).unwrap();
    assert_eq!(table.len(), 2);

    // Reusing x for a unlinks both prior mappings.
    table.insert_overwrite(a, x);
    assert_eq!(table.len(), 1);
    assert_eq!(table.get_external(&a), Some(x));
    assert_eq!(table.get_external(&y), None);
    assert_eq!(table.get_internal(&b), None);
    assert_eq!(table.get_internal(&x), Some(a));
}

#[test]
fn clear_empties() {
    let table = NatTable::new();
    let a = internal_sample();
    let b = external_sample();
    let y = other_internal();
    let x = other_external();

    table.insert(a, b).unwrap();
    table.insert(y, x).unwrap();
    assert!(!table.is_empty());

    table.clear();
    assert!(table.is_empty());
    assert_eq!(table.len(), 0);
    assert_eq!(table.get_external(&a), None);
    assert_eq!(table.get_external(&y), None);
    assert_eq!(table.get_internal(&b), None);
    assert_eq!(table.get_internal(&x), None);
    assert!(!table.contains_internal(&a));
    assert!(!table.contains_external(&b));
}

#[test]
fn remove_by_internal_side() {
    let table = NatTable::new();
    let a = internal_sample();
    let b = external_sample();
    let y = other_internal();
    let x = other_external();

    table.insert(a, b).unwrap();
    table.insert(y, x).unwrap();

    assert_eq!(table.remove_internal(&a), Some(b));
    assert_eq!(table.len(), 1);
    assert_eq!(table.get_external(&a), None);
    assert_eq!(table.get_internal(&b), None);
    assert_eq!(table.get_external(&y), Some(x));

    // Removing an absent internal identifier does nothing.
    assert_eq!(table.remove_internal(&a), None);
    assert_eq!(table.len(), 1);
}

#[test]
fn remove_by_external_side() {
    let table = NatTable::new();
    let a = internal_sample();
    let b = external_sample();
    let y = other_internal();
    let x = other_external();

    table.insert(a, b).unwrap();
    table.insert(y, x).unwrap();

    assert_eq!(table.remove_external(&x), Some(y));
    assert_eq!(table.len(), 1);
    assert_eq!(table.get_external(&y), None);
    assert_eq!(table.get_internal(&x), None);
    assert_eq!(table.get_internal(&b), Some(a));

    // Removing an absent external identifier does nothing.
    assert_eq!(table.remove_external(&x), None);
    assert_eq!(table.len(), 1);
}

#[test]
fn sequential_table_mirrors_concurrent_behaviour() {
    let mut table = FlowTable::new();
    let a = internal_sample();
    let b = external_sample();
    let x = other_external();

    assert!(table.is_empty());
    table.insert(a, b).unwrap();
    assert_eq!(table.insert(a, b), Err(CollisionError));
    assert_eq!(table.len(), 1);
    assert_eq!(table.get_external(&a), Some(b));
    assert_eq!(table.get_internal(&b), Some(a));

    table.insert_overwrite(a, x);
    assert_eq!(table.get_external(&a), Some(x));
    assert_eq!(table.get_internal(&b), None);

    assert_eq!(table.remove_internal(&a), Some(x));
    assert!(table.is_empty());

    table.insert(a, b).unwrap();
    assert_eq!(table.remove_external(&b), Some(a));
    assert!(table.is_empty());

    table.insert(a, b).unwrap();
    table.clear();
    assert!(table.is_empty());
}
