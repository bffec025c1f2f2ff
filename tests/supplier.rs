use std::sync::Arc;

use systema::prelude::{Attribute, AttributeInstance, AttributeMap, AttributeModifier, AttributeSupplier, Operation};

const STRENGTH: u64 = 0;
const AGILITY: u64 = 1;
const BUFF: u64 = 0;

type MockSupplier = AttributeSupplier;

fn mock_supplier() -> Arc<MockSupplier> {
    Arc::new(
        MockSupplier::builder()
            .add(
                STRENGTH,
                AttributeInstance::builder(Attribute::Value(1))
                    .modifier(BUFF, AttributeModifier::new(1, Operation::Add))
                    .into(),
            )
            .add(AGILITY, Attribute::Value(2).into())
            .build(),
    )
}

#[test]
fn test_supplier_builder() {
    let supplier = mock_supplier();

    assert!(supplier.create_instance(&STRENGTH).is_some());
    assert!(supplier.create_instance(&AGILITY).is_some());
    assert!(supplier.create_instance(&2).is_none());
}

#[test]
fn test_create_instance() {
    let supplier = Arc::new(MockSupplier::builder().add(STRENGTH, Attribute::Value(1).into()).build());

    let instance = supplier.create_instance(&STRENGTH);
    assert!(instance.is_some());
    assert_eq!(instance.unwrap().value(&AttributeMap::default()), 1);

    let instance_none = supplier.create_instance(&AGILITY);
    assert!(instance_none.is_none());
}

#[test]
fn supplier_test_value_computation() {
    let supplier = mock_supplier();

    let value = supplier.value(&STRENGTH, &AttributeMap::default());
    assert_eq!(value, Some(2));

    let base_value = supplier.base_value(&STRENGTH, &AttributeMap::default());
    assert_eq!(base_value, Some(1));
}

#[test]
fn test_value_not_found() {
    let supplier = MockSupplier::default();

    let non_existent_value = supplier.value(&AGILITY, &AttributeMap::default());
    assert_eq!(non_existent_value, None);
}

#[test]
fn test_default_supplier() {
    let supplier: MockSupplier = AttributeSupplier::default();
    assert!(supplier.create_instance(&STRENGTH).is_none());
    assert!(supplier.create_instance(&AGILITY).is_none());
}

#[test]
fn created_instances_are_independent_of_the_prototype() {
    let supplier = mock_supplier();
    let mut a = supplier.create_instance(&STRENGTH).unwrap();
    a.set_raw_value(50);
    let b = supplier.create_instance(&STRENGTH).unwrap();
    assert_eq!(a.raw_value(), 50);
    assert_eq!(b.raw_value(), 1);
    assert_eq!(supplier.value(&STRENGTH, &AttributeMap::default()), Some(2));
}

#[test]
fn adding_a_key_twice_keeps_the_last_prototype() {
    let supplier: MockSupplier = AttributeSupplier::builder()
        .add(STRENGTH, AttributeInstance::new(Attribute::Value(1)))
        .add(STRENGTH, AttributeInstance::new(Attribute::Value(9)))
        .build();
    assert_eq!(supplier.value(&STRENGTH, &AttributeMap::default()), Some(9));
}

#[test]
fn registry_evaluates_against_the_querying_collection() {
    let supplier = Arc::new(
        MockSupplier::builder()
            .add(STRENGTH, AttributeInstance::new(Attribute::Value(4)))
            .add(
                AGILITY,
                AttributeInstance::builder(Attribute::Derived)
                    .modifier(BUFF, AttributeModifier::new(systema::prelude::Value::Attribute(STRENGTH), Operation::Add))
                    .build(),
            )
            .build(),
    );
    let mut map = AttributeMap::new(supplier.clone());
    assert_eq!(supplier.value(&AGILITY, &map), Some(4));
    map.set_raw_value(&STRENGTH, 11);
    assert_eq!(supplier.value(&AGILITY, &map), Some(11));
    assert_eq!(supplier.value(&AGILITY, &AttributeMap::default()), Some(0));
}
