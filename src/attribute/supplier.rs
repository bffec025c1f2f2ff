use vstd::prelude::*;
use std::collections::HashMap;
use crate::attribute::eval::{InstanceModel, all_pure, fuel_bound, instance_value, modifiers_pure};
use crate::attribute::instance::{AttributeInstance, models};
use crate::attribute::map::AttributeMap;
use crate::attribute::modifier::CloneableFn;

verus! {

/// Gathers the prototypes of a registry before it is frozen.
pub struct AttributeSupplierBuilder<F = fn(i64, i64) -> i64> {
    instances: HashMap<u64, AttributeInstance<F>>,
    keys: Vec<u64>,
}

/// The shared, immutable catalog of attribute prototypes.
pub struct AttributeSupplier<F = fn(i64, i64) -> i64> {
    instances: HashMap<u64, AttributeInstance<F>>,
    keys: Vec<u64>,
}

impl<F> View for AttributeSupplierBuilder<F> {
    type V = Map<u64, InstanceModel<F>>;

    closed spec fn view(&self) -> Map<u64, InstanceModel<F>> {
        models(self.instances@)
    }
}

impl<F> View for AttributeSupplier<F> {
    type V = Map<u64, InstanceModel<F>>;

    closed spec fn view(&self) -> Map<u64, InstanceModel<F>> {
        models(self.instances@)
    }
}

impl<F: CloneableFn> AttributeSupplierBuilder<F> {
    /// The key list names each prototype once, and every operation is pure.
    pub closed spec fn wf(&self) -> bool {
        &&& self.keys@.no_duplicates()
        &&& forall|k: u64| self.instances@.contains_key(k) <==> self.keys@.contains(k)
        &&& all_pure(self@)
    }

    /// Freezes the gathered prototypes into a registry.
    pub fn build(self) -> (r: AttributeSupplier<F>)
        requires
            self.wf(),
        ensures
            r.wf(),
            r@ == self@,
    {
        AttributeSupplier { instances: self.instances, keys: self.keys }
    }

    /// Files `attribute` as the prototype of `id`, replacing an earlier one.
    pub fn add(self, id: u64, attribute: AttributeInstance<F>) -> (r: Self)
        requires
            self.wf(),
            modifiers_pure(attribute@.modifiers),
        ensures
            r.wf(),
            r@ == self@.insert(id, attribute@),
    {
        let mut b = self;
        let ghost before = b.instances@;
        let ghost old_keys = b.keys@;
        if !b.instances.contains_key(&id) {
            assert(!old_keys.contains(id));
            b.keys.push(id);
            assert forall|k: u64| b.keys@.contains(k) <==> (old_keys.contains(k) || k == id) by {
                if b.keys@.contains(k) && k != id {
                    let i = choose|i: int| 0 <= i < b.keys@.len() && b.keys@[i] == k;
                    assert(old_keys[i] == k);
                }
                if k == id {
                    assert(b.keys@[old_keys.len() as int] == id);
                }
                if old_keys.contains(k) {
                    let i = choose|i: int| 0 <= i < old_keys.len() && old_keys[i] == k;
                    assert(b.keys@[i] == k);
                }
            }
        }
        b.instances.insert(id, attribute);
        assert(models(b.instances@) =~= models(before).insert(id, attribute@));
        assert forall|k: u64| b@.contains_key(k) implies modifiers_pure(#[trigger] b@[k].modifiers) by {
            if k != id {
                assert(before.contains_key(k));
                assert(models(before).contains_key(k));
                assert(modifiers_pure(models(before)[k].modifiers));
            }
        }
        assert(b.keys@.no_duplicates());
        assert forall|k: u64| b.instances@.contains_key(k) <==> b.keys@.contains(k) by {
            assert(b.instances@ == before.insert(id, attribute));
            assert(before.contains_key(k) <==> old_keys.contains(k));
        }
        b
    }
}

impl<F: CloneableFn> AttributeSupplier<F> {
    /// The key list names each prototype once, and every operation is pure.
    pub closed spec fn wf(&self) -> bool {
        &&& self.keys@.no_duplicates()
        &&& forall|k: u64| self.instances@.contains_key(k) <==> self.keys@.contains(k)
        &&& all_pure(self@)
    }

    /// A well-formed registry holds only pure operations.
    pub(crate) proof fn lemma_pure(&self)
        requires
            self.wf(),
        ensures
            all_pure(self@),
    {
    }

    /// An empty builder.
    pub fn builder() -> (r: AttributeSupplierBuilder<F>)
        ensures
            r.wf(),
            r@ == Map::<u64, InstanceModel<F>>::empty(),
    {
        let r = AttributeSupplierBuilder { instances: HashMap::new(), keys: Vec::new() };
        assert(models(r.instances@) =~= Map::<u64, InstanceModel<F>>::empty());
        r
    }

    /// A fresh copy of the prototype of `attribute`, with its own empty memo cell
    /// and modifier list.
    pub fn create_instance(&self, attribute: &u64) -> (r: Option<AttributeInstance<F>>)
        ensures
            r is Some <==> self@.contains_key(*attribute),
            r matches Some(i) ==> i@ == self@[*attribute] && i.memo() is None,
    {
        match self.instances.get(attribute) {
            Some(p) => {
                let mut copy = p.clone();
                copy.set_memo(Ghost(None));
                Some(copy)
            },
            None => None,
        }
    }

    /// The prototype of `attribute`.
    pub(crate) fn prototype(&self, attribute: &u64) -> (r: Option<&AttributeInstance<F>>)
        requires
            self.wf(),
        ensures
            r is Some <==> self@.contains_key(*attribute),
            r matches Some(i) ==> i@ == self@[*attribute] && modifiers_pure(i@.modifiers),
    {
        self.instances.get(attribute)
    }

    /// Every key of the registry, once each.
    pub(crate) fn key_list(&self) -> (r: &Vec<u64>)
        ensures
            self.wf() ==> r@.no_duplicates(),
            self.wf() ==> forall|k: u64| self@.contains_key(k) <==> r@.contains(k),
    {
        &self.keys
    }

    /// The full value of the prototype of `attribute`, evaluated against the
    /// collection `attributes`; `None` for a key the registry lacks.
    pub fn value(&self, attribute: &u64, attributes: &AttributeMap<F>) -> (r: Option<i64>)
        requires
            self.wf(),
            attributes.wf(),
            self@.contains_key(*attribute) ==> instance_value(
                attributes@,
                self@[*attribute],
                false,
                fuel_bound(attributes@),
            ) is Some,
        ensures
            r == (if self@.contains_key(*attribute) {
                instance_value(attributes@, self@[*attribute], false, fuel_bound(attributes@))
            } else {
                None
            }),
    {
        match self.prototype(attribute) {
            Some(p) => Some(p.compute_value(attributes, false, Ghost(fuel_bound(attributes@)))),
            None => None,
        }
    }

    /// The base value of the prototype of `attribute`, evaluated against the
    /// collection `attributes`; `None` for a key the registry lacks.
    pub fn base_value(&self, attribute: &u64, attributes: &AttributeMap<F>) -> (r: Option<i64>)
        requires
            self.wf(),
            attributes.wf(),
            self@.contains_key(*attribute) ==> instance_value(
                attributes@,
                self@[*attribute],
                true,
                fuel_bound(attributes@),
            ) is Some,
        ensures
            r == (if self@.contains_key(*attribute) {
                instance_value(attributes@, self@[*attribute], true, fuel_bound(attributes@))
            } else {
                None
            }),
    {
        match self.prototype(attribute) {
            Some(p) => Some(p.compute_value(attributes, true, Ghost(fuel_bound(attributes@)))),
            None => None,
        }
    }
}

impl<F: CloneableFn> Default for AttributeSupplier<F> {
    /// An empty registry.
    fn default() -> (r: Self)
        ensures
            r.wf(),
            r@ == Map::<u64, InstanceModel<F>>::empty(),
    {
        let r = AttributeSupplier { instances: HashMap::new(), keys: Vec::new() };
        assert(models(r.instances@) =~= Map::<u64, InstanceModel<F>>::empty());
        r
    }
}

} // verus!
