use std::sync::Arc;

use systema::prelude::{Attribute, AttributeInstance, AttributeMap, AttributeModifier, AttributeSupplier, Operation, Value};

// Attribute keys.
const MAX_HEALTH: u64 = 0;
const SPEED: u64 = 1;
const SIZE: u64 = 2;
const STAMINA: u64 = 3;
const STRENGTH: u64 = 4;
const DEXTERITY: u64 = 5;
const RENOWN_PURITY: u64 = 6;

#[derive(PartialEq, Eq, Clone, Copy)]
enum Form {
    Hishu,
    Dalu,
    Gauru,
    Urhan,
    Urshul,
}

// Modifier keys: one per form, one per attribute a modifier reads, one for tests.
fn form_key(form: Form) -> u64 {
    100 + form as u64
}

fn attribute_key(attribute: u64) -> u64 {
    200 + attribute
}

const TEST: u64 = 300;

enum ActorKind {
    Wizard,
    Werewolf,
}

fn attributes() -> Arc<AttributeSupplier> {
    Arc::new(
        AttributeSupplier::builder()
            .add(
                MAX_HEALTH,
                AttributeInstance::builder(Attribute::Derived)
                    .modifier(
                        attribute_key(STAMINA),
                        AttributeModifier::new(Value::Attribute(STAMINA), Operation::Add).base(),
                    )
                    .modifier(
                        attribute_key(SIZE),
                        AttributeModifier::new(Value::Attribute(SIZE), Operation::Add).base(),
                    )
                    .build(),
            )
            .add(
                SPEED,
                AttributeInstance::builder(Attribute::Derived)
                    .modifier(
                        attribute_key(DEXTERITY),
                        AttributeModifier::new(Value::Attribute(DEXTERITY), Operation::Add).base(),
                    )
                    .modifier(
                        attribute_key(STRENGTH),
                        AttributeModifier::new(Value::Attribute(STRENGTH), Operation::Add).base(),
                    )
                    .modifier(attribute_key(SPEED), AttributeModifier::new(Value::Value(5), Operation::Add).base())
                    .build(),
            )
            .add(SIZE, Attribute::Value(5).into())
            .add(STAMINA, Attribute::Value(1).into())
            .add(STRENGTH, AttributeInstance::new(Attribute::Value(1)))
            .add(DEXTERITY, AttributeInstance::new(Attribute::Value(1)))
            .add(RENOWN_PURITY, AttributeInstance::new(Attribute::Value(0)))
            .build(),
    )
}

struct MockActor {
    attributes: AttributeMap,
    form: Option<Form>,
}

impl MockActor {
    fn new(kind: ActorKind) -> Self {
        let mut actor = Self { attributes: AttributeMap::new(attributes()), form: None };
        match kind {
            ActorKind::Wizard => {}
            ActorKind::Werewolf => {
                actor.form = Some(Form::Hishu);
                actor.set_form(Form::Hishu);
            }
        }
        actor
    }

    fn add(&mut self, attribute: u64, form: Form, amount: i64, op: Operation) -> &mut AttributeMap {
        self.attributes.add_modifier(&attribute, form_key(form), AttributeModifier::new(Value::Value(amount), op))
    }

    fn set_form(&mut self, form: Form) {
        if let Some(form_mut) = self.form.as_mut() {
            let old_form = std::mem::replace(form_mut, form);
            self.attributes.remove_modifiers(&form_key(old_form));

            match form {
                Form::Hishu => {}
                Form::Dalu => {
                    self.add(STRENGTH, form, 1, Operation::Add).add_modifier(
                        &STAMINA,
                        form_key(form),
                        AttributeModifier::new(Value::Value(1), Operation::Add),
                    );
                    self.add(SIZE, form, 1, Operation::Add);
                }
                Form::Gauru => {
                    self.add(STRENGTH, form, 3, Operation::Add);
                    self.add(DEXTERITY, form, 1, Operation::Add);
                    self.add(STAMINA, form, 2, Operation::Add);
                    self.add(SIZE, form, 2, Operation::Add);
                }
                Form::Urhan => {
                    self.add(DEXTERITY, form, 2, Operation::Add);
                    self.add(STAMINA, form, 1, Operation::Add);
                    self.add(SIZE, form, 1, Operation::Sub);
                }
                Form::Urshul => {
                    self.add(STRENGTH, form, 2, Operation::Add);
                    self.add(DEXTERITY, form, 2, Operation::Add);
                    self.add(STAMINA, form, 2, Operation::Add);
                    self.add(SIZE, form, 1, Operation::Add);
                }
            }
        }
    }
}

#[test]
fn it_works() {
    let mut actor = MockActor::new(ActorKind::Werewolf);
    assert_eq!(Some(6), actor.attributes.value(&MAX_HEALTH));

    actor.set_form(Form::Gauru);
    assert_eq!(Some(10), actor.attributes.value(&MAX_HEALTH));

    actor.attributes.add_modifier(&MAX_HEALTH, TEST, AttributeModifier::new(Value::Value(1), Operation::Add));
    assert_eq!(Some(11), actor.attributes.value(&MAX_HEALTH));
    actor.attributes.remove_modifier(&MAX_HEALTH, &TEST);

    actor.attributes.set_raw_value(&RENOWN_PURITY, 1);
    assert_eq!(Some(10), actor.attributes.value(&MAX_HEALTH));
    assert_eq!(Some(1), actor.attributes.base_value(&RENOWN_PURITY));

    actor.attributes.set_raw_value(&RENOWN_PURITY, 2);
    assert_eq!(Some(10), actor.attributes.base_value(&MAX_HEALTH));

    actor.set_form(Form::Hishu);

    assert_eq!(actor.attributes.value(&DEXTERITY), Some(1));
    assert_eq!(actor.attributes.value(&STRENGTH), Some(1));
    assert_eq!(actor.attributes.value(&SPEED), Some(7))
}

#[test]
fn every_form_round_trips() {
    let mut actor = MockActor::new(ActorKind::Werewolf);
    let wizard = MockActor::new(ActorKind::Wizard);
    assert!(wizard.form.is_none());
    // materialize MaxHealth so that its memo cell is in play
    actor.attributes.set_raw_value(&MAX_HEALTH, 0);
    assert_eq!(actor.attributes.value(&MAX_HEALTH), Some(6));
    for form in [Form::Dalu, Form::Gauru, Form::Urhan, Form::Urshul] {
        actor.set_form(form);
        // a cached MaxHealth must follow every change of its inputs
        let stamina = actor.attributes.value(&STAMINA).unwrap();
        let size = actor.attributes.value(&SIZE).unwrap();
        assert_eq!(actor.attributes.value(&MAX_HEALTH), Some(stamina + size));
        actor.set_form(Form::Hishu);
        assert_eq!(actor.attributes.value(&MAX_HEALTH), Some(6));
        assert_eq!(actor.attributes.value(&SPEED), Some(7));
    }
}

#[test]
fn urhan_size_subtracts() {
    let mut actor = MockActor::new(ActorKind::Werewolf);
    actor.set_form(Form::Urhan);
    assert_eq!(actor.attributes.value(&SIZE), Some(4));
    assert_eq!(actor.attributes.value(&STAMINA), Some(2));
    assert_eq!(actor.attributes.value(&DEXTERITY), Some(3));
    assert_eq!(actor.attributes.value(&MAX_HEALTH), Some(6));
    assert_eq!(actor.attributes.value(&SPEED), Some(9));
}
