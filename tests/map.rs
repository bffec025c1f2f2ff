use std::sync::Arc;

use systema::prelude::{Attribute, AttributeInstance, AttributeMap, AttributeModifier, AttributeSupplier, Operation};

const STRENGTH: u64 = 0;
const AGILITY: u64 = 1;
const BUFF: u64 = 0;

type MockSupplier = AttributeSupplier;
type MockMap = AttributeMap;

fn attributes() -> Arc<MockSupplier> {
    Arc::new(
        MockSupplier::builder()
            .add(
                STRENGTH,
                AttributeInstance::builder(Attribute::Value(1))
                    .modifier(BUFF, AttributeModifier::new(1, Operation::Add))
                    .into(),
            )
            .add(AGILITY, Attribute::Value(2).into())
            .build(),
    )
}

#[test]
fn test_new() {
    let map: MockMap = AttributeMap::new(attributes());
    assert_eq!(map.value(&STRENGTH), Some(2));
    assert!(!map.has_attribute(&STRENGTH));
    assert!(!map.has_attribute(&AGILITY));
}

#[test]
fn test_default() {
    let map: MockMap = AttributeMap::default();
    assert_eq!(map.value(&STRENGTH), None);
    assert!(!map.has_attribute(&STRENGTH));
    assert!(!map.has_attribute(&AGILITY));
}

#[test]
fn test_has_attribute() {
    let mut map: MockMap = AttributeMap::new(attributes());
    let attr = STRENGTH;

    assert!(!map.has_attribute(&attr));
    map.set_raw_value(&attr, 10);
    assert!(map.has_attribute(&attr));
}

#[test]
fn test_add_and_remove_modifier() {
    let mut map: MockMap = AttributeMap::new(attributes());
    let attr = STRENGTH;
    let modifier = BUFF;
    let mod_instance = AttributeModifier::new(5, Operation::Add);

    assert!(!map.has_modifier(&attr, &modifier));

    map.add_modifier(&attr, modifier, mod_instance);
    assert!(map.has_modifier(&attr, &modifier));

    map.remove_modifier(&attr, &modifier);
    assert!(!map.has_modifier(&attr, &modifier));
}

#[test]
fn test_set_raw_value() {
    let mut map: MockMap = AttributeMap::new(attributes());
    let attr = AGILITY;

    map.set_raw_value(&attr, 15);
    assert_eq!(map.base_value(&attr), Some(15));
}

#[test]
fn map_test_value_computation() {
    let map: MockMap = AttributeMap::new(attributes());

    let value = map.value(&STRENGTH);
    assert_eq!(value, Some(2));

    let base_value = map.base_value(&STRENGTH);
    assert_eq!(base_value, Some(1));
}

#[test]
fn test_remove_modifiers() {
    let mut map: MockMap = AttributeMap::new(attributes());
    let attr1 = STRENGTH;
    let attr2 = AGILITY;
    let modifier = BUFF;
    let mod_instance = AttributeModifier::new(5, Operation::Add);

    map.add_modifier(&attr1, modifier, mod_instance.clone());
    map.add_modifier(&attr2, modifier, mod_instance);

    assert!(map.has_modifier(&attr1, &modifier));
    assert!(map.has_modifier(&attr2, &modifier));

    map.remove_modifiers(&modifier);

    assert!(!map.has_modifier(&attr1, &modifier));
    assert!(!map.has_modifier(&attr2, &modifier));
}

#[test]
fn writes_to_unknown_attributes_do_nothing() {
    let mut map: MockMap = AttributeMap::new(attributes());
    map.set_raw_value(&99, 4);
    map.add_modifier(&99, BUFF, AttributeModifier::new(1, Operation::Add));
    assert!(!map.has_attribute(&99));
    assert_eq!(map.value(&99), None);
    assert_eq!(map.base_value(&99), None);

    let mut bare: MockMap = AttributeMap::default();
    bare.set_raw_value(&STRENGTH, 4);
    assert!(!bare.has_attribute(&STRENGTH));
    assert_eq!(bare.value(&STRENGTH), None);
}

#[test]
fn remove_modifier_materializes_and_drops_a_prototype_modifier() {
    let mut map: MockMap = AttributeMap::new(attributes());
    assert_eq!(map.value(&STRENGTH), Some(2));
    map.remove_modifier(&STRENGTH, &BUFF);
    assert!(map.has_attribute(&STRENGTH));
    assert!(!map.has_modifier(&STRENGTH, &BUFF));
    assert_eq!(map.value(&STRENGTH), Some(1));
    // the registry keeps its prototype: a fresh collection still sees the buff
    let fresh: MockMap = AttributeMap::new(attributes());
    assert_eq!(fresh.value(&STRENGTH), Some(2));
}

#[test]
fn remove_modifier_on_unknown_attribute_does_nothing() {
    let mut map: MockMap = AttributeMap::new(attributes());
    map.remove_modifier(&99, &BUFF);
    assert!(!map.has_attribute(&99));
    assert_eq!(map.value(&99), None);
}

#[test]
fn materialized_attribute_stays_after_its_modifiers_go() {
    let mut map: MockMap = AttributeMap::new(attributes());
    map.add_modifier(&AGILITY, BUFF, AttributeModifier::new(5, Operation::Add));
    map.remove_modifiers(&BUFF);
    assert!(map.has_attribute(&AGILITY));
    assert!(map.has_attribute(&STRENGTH) == false);
    assert_eq!(map.value(&AGILITY), Some(2));
}

#[test]
fn set_raw_value_same_value_keeps_result() {
    let mut map: MockMap = AttributeMap::new(attributes());
    map.set_raw_value(&STRENGTH, 1);
    assert_eq!(map.value(&STRENGTH), Some(2));
    map.set_raw_value(&STRENGTH, 1);
    assert_eq!(map.value(&STRENGTH), Some(2));
}

#[test]
fn cloned_collection_is_independent() {
    let mut map: MockMap = AttributeMap::new(attributes());
    map.add_modifier(&AGILITY, BUFF, AttributeModifier::new(5, Operation::Add));
    assert_eq!(map.value(&AGILITY), Some(7));
    let mut copy = map.clone();
    assert!(copy.has_attribute(&AGILITY));
    assert_eq!(copy.value(&AGILITY), Some(7));
    copy.set_raw_value(&AGILITY, 10);
    assert_eq!(copy.value(&AGILITY), Some(15));
    assert_eq!(map.value(&AGILITY), Some(7));
}

#[test]
fn add_modifier_chains() {
    let mut map: MockMap = AttributeMap::new(attributes());
    map.add_modifier(&AGILITY, BUFF, AttributeModifier::new(5, Operation::Add))
        .add_modifier(&AGILITY, 1, AttributeModifier::new(3, Operation::Sub))
        .add_modifier(&STRENGTH, 1, AttributeModifier::new(10, Operation::Add));
    assert_eq!(map.value(&AGILITY), Some(4));
    assert_eq!(map.value(&STRENGTH), Some(12));
}
