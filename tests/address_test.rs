use lumen::address::Address;

#[test]
fn add_below_limit() {
    let a = Address::new(1, 1);
    let b = Address::new(0, 40);
    let c = Address::new(1, 41);

    assert_eq!(a + b, c);
}

#[test]
fn add_above_limit() {
    let a = Address::new(1, 501);
    let b = Address::new(0, 40);
    let c = Address::new(2, 1);

    assert_eq!(a + b, c);
}

#[test]
fn edge_case() {
    let a = Address::new(1, 510);
    let b = Address::new(0, 2);
    let c = Address::new(1, 512);

    assert_eq!(a + b, c);
}

#[test]
fn adding_universes() {
    let a = Address::new(1, 234);
    let b = Address::new(2, 111);
    let c = Address::new(3, 345);

    assert_eq!(a + b, c);
}

#[test]
fn address_indices_count_from_zero() {
    let a = Address::new(3, 17);
    assert_eq!(a.universe_index(), 2);
    assert_eq!(a.address_index(), 16);
}
