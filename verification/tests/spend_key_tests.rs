use shielded_ledger::errors::LedgerError;
use shielded_ledger::field::FieldElement;
use shielded_ledger::spend_key::{SpendKey, SpendKeyMap};

fn fe(v: u64) -> FieldElement {
    FieldElement::from_u64(v)
}

/// A seed batch of `n` coins of value `value` each; only the second and
/// the fourth tuple fields are read by the map.
fn batch(n: u64, value: i32) -> Vec<(FieldElement, FieldElement, FieldElement, i32)> {
    (0..n).map(|i| (fe(0), fe(100 + i), fe(0), value)).collect()
}

#[test]
fn spend_marks_all_four() {
    let mut map = SpendKeyMap::new(batch(4, 1));
    assert_eq!(map.spend_coins(vec![0, 1, 2, 3]), Ok(()));
    let inner = map.inner();
    assert_eq!(inner.len(), 4);
    for (_, key) in inner {
        assert!(key.is_spent());
        assert_eq!(key.value(), 1);
    }
}

#[test]
fn spend_unknown_id_is_rejected_without_effect() {
    let mut map = SpendKeyMap::new(batch(2, 1));
    assert_eq!(
        map.spend_coins(vec![0, 9]),
        Err(LedgerError::UnknownCoinId { coin_id: 9 })
    );
    // validation precedes mutation: coin 0 is still unspent
    assert!(!map.inner()[0].1.is_spent());
}

#[test]
fn spend_single_coin() {
    let mut map = SpendKeyMap::new(batch(2, 1));
    assert_eq!(map.spend_coin(1), Ok(()));
    assert!(!map.inner()[0].1.is_spent());
    assert!(map.inner()[1].1.is_spent());
    assert_eq!(
        map.spend_coin(5),
        Err(LedgerError::UnknownCoinId { coin_id: 5 })
    );
}

#[test]
fn split_conserving_coin_succeeds() {
    let mut map = SpendKeyMap::new(batch(1, 30));
    let key_a = SpendKey::new(fe(201), false, 15);
    let key_b = SpendKey::new(fe(202), false, 15);
    assert_eq!(map.split_coin(0, key_a, key_b), Ok(()));
    let inner = map.inner();
    // the original id is gone; two new ids carry the split values
    assert_eq!(inner.len(), 2);
    assert!(inner.iter().all(|(id, _)| *id != 0));
    assert_eq!(inner[0].0, 1);
    assert_eq!(inner[1].0, 2);
    assert_eq!(inner[0].1.value() + inner[1].1.value(), 30);
}

#[test]
fn split_ids_follow_current_maximum() {
    let mut map = SpendKeyMap::new(batch(4, 10));
    let key_a = SpendKey::new(fe(201), false, 4);
    let key_b = SpendKey::new(fe(202), false, 6);
    assert_eq!(map.split_coin(1, key_a, key_b), Ok(()));
    let inner = map.inner();
    assert_eq!(inner.len(), 5);
    assert!(inner.iter().all(|(id, _)| *id != 1));
    assert!(inner.iter().any(|(id, key)| *id == 4 && key.value() == 4));
    assert!(inner.iter().any(|(id, key)| *id == 5 && key.value() == 6));
}

#[test]
fn split_violating_conservation_is_rejected() {
    let mut map = SpendKeyMap::new(batch(1, 30));
    let key_a = SpendKey::new(fe(201), false, 15);
    let key_b = SpendKey::new(fe(202), false, 14);
    match map.split_coin(0, key_a, key_b) {
        Err(LedgerError::ValueConservationViolation { expected, actual }) => {
            assert_eq!(expected, fe(30));
            assert_eq!(actual, fe(29));
        }
        other => panic!("expected a conservation violation, got {:?}", other),
    }
    // nothing changed
    assert_eq!(map.inner().len(), 1);
    assert_eq!(map.inner()[0].0, 0);
}

#[test]
fn split_unknown_id_is_rejected() {
    let mut map = SpendKeyMap::new(batch(1, 30));
    let key_a = SpendKey::new(fe(201), false, 15);
    let key_b = SpendKey::new(fe(202), false, 15);
    assert_eq!(
        map.split_coin(7, key_a, key_b),
        Err(LedgerError::UnknownCoinId { coin_id: 7 })
    );
}

#[test]
fn biggest_id_of_empty_map_is_an_error() {
    let map = SpendKeyMap::new(Vec::new());
    assert_eq!(map.find_biggest_id(), Err(LedgerError::EmptyMap));
}

#[test]
fn biggest_id_is_the_maximum() {
    let map = SpendKeyMap::new(batch(4, 1));
    assert_eq!(map.find_biggest_id(), Ok(3));
}

#[test]
fn serial_numbers_are_listed_in_order() {
    let map = SpendKeyMap::new(batch(3, 1));
    assert_eq!(map.all_serial_numbers(), vec![fe(100), fe(101), fe(102)]);
}

#[test]
fn spend_key_accessors() {
    let key = SpendKey::new(fe(5), false, 7);
    assert_eq!(key.sn(), fe(5));
    assert_eq!(key.value(), 7);
    assert!(!key.is_spent());
}

#[test]
fn to_fr_adds_fields_in_the_field() {
    // 5 + 7 + 1 = 13
    assert_eq!(SpendKey::new(fe(5), true, 7).to_fr(), fe(13));
    // unspent: 5 + 7 + 0 = 12
    assert_eq!(SpendKey::new(fe(5), false, 7).to_fr(), fe(12));
    // a negative value wraps around the modulus: 5 - 1 + 1 = 5
    assert_eq!(SpendKey::new(fe(5), true, -1).to_fr(), fe(5));
}

#[test]
fn random_coin_starts_spent() {
    let key = SpendKey::from_random();
    assert!(key.is_spent());
}
