use vstd::prelude::*;
use std::collections::HashMap;
use std::sync::Arc;
use crate::attribute::eval::{
    InstanceModel, all_pure, base_value, closed_under_dependents, full_value, fuel_bound,
    instance_value, lemma_full_value_frame, mods_read, reads_none_of,
};
use crate::attribute::instance::{
    AttributeInstance, has_key, lemma_first_index, lemma_without_key_drops_key, lemma_without_key_pure,
    models, with_modifier,
    without_key,
};
use crate::attribute::modifier::{AttributeModifier, CloneableFn};
use crate::attribute::supplier::AttributeSupplier;

verus! {

/// Attribute `k` can be evaluated: unknown, or its full value is defined
/// (no cycle is met and no operation leaves `i64`).
pub open spec fn value_defined<F: CloneableFn>(m: Map<u64, InstanceModel<F>>, k: u64) -> bool {
    m.contains_key(k) ==> full_value(m, k) is Some
}

/// Attribute `k` can be base-evaluated.
pub open spec fn base_value_defined<F: CloneableFn>(m: Map<u64, InstanceModel<F>>, k: u64) -> bool {
    m.contains_key(k) ==> base_value(m, k) is Some
}

/// Whether `k` is in `v`.
fn vec_contains(v: &Vec<u64>, k: u64) -> (r: bool)
    ensures
        r == v@.contains(k),
{
    let mut i: usize = 0;
    while i < v.len()
        invariant
            0 <= i <= v@.len(),
            forall|j: int| 0 <= j < i ==> v@[j] != k,
        decreases v@.len() - i,
    {
        if v[i] == k {
            return true;
        }
        i += 1;
    }
    false
}

/// A list without repeats, all of whose members are in another such list, is
/// no longer than it.
proof fn lemma_unique_subseq_len(a: Seq<u64>, b: Seq<u64>)
    requires
        a.no_duplicates(),
        b.no_duplicates(),
        forall|x: u64| a.contains(x) ==> b.contains(x),
    ensures
        a.len() <= b.len(),
{
    a.unique_seq_to_set();
    b.unique_seq_to_set();
    vstd::seq_lib::seq_to_set_is_finite(b);
    assert(a.to_set().subset_of(b.to_set()));
    vstd::set_lib::lemma_len_subset(a.to_set(), b.to_set());
}

/// The instance with the modifiers under `key` dropped.
pub open spec fn strip<F>(inst: InstanceModel<F>, key: u64) -> InstanceModel<F> {
    InstanceModel { modifiers: without_key(inst.modifiers, key), ..inst }
}

/// One owner's attributes: the instances it has written, over a shared
/// registry that answers for the rest.
pub struct AttributeMap<F = fn(i64, i64) -> i64> {
    supplier: Option<Arc<AttributeSupplier<F>>>,
    attributes: HashMap<u64, AttributeInstance<F>>,
}

impl<F> View for AttributeMap<F> {
    type V = Map<u64, InstanceModel<F>>;

    /// The instance each attribute is evaluated from: the materialized one,
    /// or else the registry's prototype.
    closed spec fn view(&self) -> Map<u64, InstanceModel<F>> {
        self.registry().union_prefer_right(models(self.attributes@))
    }
}

impl<F> AttributeMap<F> {
    /// The registry's prototypes; none without a registry.
    pub closed spec fn registry(&self) -> Map<u64, InstanceModel<F>> {
        match self.supplier {
            Some(s) => (*s)@,
            None => Map::empty(),
        }
    }

    /// The attributes that have been materialized.
    pub closed spec fn materialized(&self) -> Set<u64> {
        self.attributes@.dom()
    }
}

impl<F: CloneableFn> AttributeMap<F> {
    /// Only registry attributes are materialized, every operation is pure,
    /// and each memo cell is made for the full value of its attribute.
    pub closed spec fn wf(&self) -> bool {
        &&& self.structure_ok()
        &&& forall|k: u64| #[trigger]
            self.attributes@.contains_key(k) ==> self.attributes@[k].memo() == full_value(self@, k)
    }

    /// The one value that the memo cell of materialized attribute `k` may hold.
    pub closed spec fn memo_of(&self, k: u64) -> Option<i64>
        recommends
            self.materialized().contains(k),
    {
        self.attributes@[k].memo()
    }

    /// A memoized value is the full value: in a well-formed collection the
    /// memo cell of a materialized attribute can hold nothing else, so a read
    /// served from it equals one computed anew, and two reads with no change
    /// between them agree.
    pub proof fn lemma_memo_is_full_value(&self, k: u64)
        requires
            self.wf(),
            self.materialized().contains(k),
        ensures
            self.memo_of(k) == full_value(self@, k),
    {
    }

    /// In a well-formed collection every materialized attribute is a registry
    /// attribute, and the attributes the collection knows are the registry's.
    pub proof fn lemma_materialized_known(&self)
        requires
            self.wf(),
        ensures
            self.materialized().subset_of(self.registry().dom()),
            self@.dom() == self.registry().dom(),
            self.materialized().subset_of(self@.dom()),
    {
        assert(self@.dom() =~= self.registry().dom());
    }

    /// A collection over `supplier`, nothing materialized yet.
    pub fn new(supplier: Arc<AttributeSupplier<F>>) -> (r: Self)
        requires
            supplier.wf(),
        ensures
            r.wf(),
            r@ == (*supplier)@,
            r.materialized() == Set::<u64>::empty(),
    {
        let r = AttributeMap { supplier: Some(supplier), attributes: HashMap::new() };
        assert(r@ =~= (*supplier)@);
        proof {
            supplier.lemma_pure();
        }
        r
    }

    /// Whether `attribute` has been materialized here.
    pub fn has_attribute(&self, attribute: &u64) -> (r: bool)
        ensures
            r == self.materialized().contains(*attribute),
    {
        self.attributes.contains_key(attribute)
    }

    /// Whether the materialized instance of `attribute` has a modifier under
    /// `modifier`; false for an attribute not materialized.
    pub fn has_modifier(&self, attribute: &u64, modifier: &u64) -> (r: bool)
        requires
            self.wf(),
        ensures
            r == (self.materialized().contains(*attribute) && has_key(
                self@[*attribute].modifiers,
                *modifier,
            )),
    {
        match self.attributes.get(attribute) {
            Some(inst) => inst.modifier(modifier).is_some(),
            None => false,
        }
    }

    /// The full value of `attribute`; `None` when neither the collection nor
    /// its registry knows it. A materialized attribute answers from its memo
    /// cell when the cell holds a value, and otherwise computes the value and
    /// keeps it there; references are resolved through this collection.
    pub fn value(&self, attribute: &u64) -> (r: Option<i64>)
        requires
            self.wf(),
            value_defined(self@, *attribute),
        ensures
            r == full_value(self@, *attribute),
            r is None <==> !self@.contains_key(*attribute),
    {
        self.value_at(attribute, Ghost(fuel_bound(self@)))
    }

    /// The base value of `attribute`; `None` when neither the collection nor
    /// its registry knows it.
    pub fn base_value(&self, attribute: &u64) -> (r: Option<i64>)
        requires
            self.wf(),
            base_value_defined(self@, *attribute),
        ensures
            r == base_value(self@, *attribute),
            r is None <==> !self@.contains_key(*attribute),
    {
        match self.attributes.get(attribute) {
            Some(inst) => Some(inst.compute_value(self, true, Ghost(fuel_bound(self@)))),
            None => match &self.supplier {
                Some(s) => s.base_value(attribute, self),
                None => None,
            },
        }
    }

    /// Only registry attributes are materialized, and every operation is pure.
    spec fn structure_ok(&self) -> bool {
        &&& match self.supplier {
            Some(s) => s.wf() && self.attributes@.dom().subset_of(s@.dom()),
            None => self.attributes@.dom() == Set::<u64>::empty(),
        }
        &&& all_pure(self@)
    }

    /// Whether the instance that `j` is evaluated from reads `x`.
    fn reads(&self, supplier: &AttributeSupplier<F>, j: u64, x: u64) -> (r: bool)
        requires
            self.structure_ok(),
            self.supplier matches Some(s) && *s == *supplier,
        ensures
            r == (self@.contains_key(j) && mods_read(self@[j].modifiers, x)),
    {
        match self.attributes.get(&j) {
            Some(inst) => inst.depends_on(&x),
            None => match supplier.prototype(&j) {
                Some(p) => p.depends_on(&x),
                None => false,
            },
        }
    }

    /// `changed` followed by every attribute that reads one of the list,
    /// directly or through others: a list closed under dependents.
    fn dependents_closure(&self, changed: Vec<u64>) -> (marked: Vec<u64>)
        requires
            self.structure_ok(),
            self.supplier is Some,
            changed@.no_duplicates(),
            forall|k: u64| changed@.contains(k) ==> self@.contains_key(k),
        ensures
            marked@.no_duplicates(),
            forall|k: u64| changed@.contains(k) ==> marked@.contains(k),
            forall|k: u64| marked@.contains(k) ==> self@.contains_key(k),
            closed_under_dependents(self@, marked@.to_set()),
    {
        let supplier = match &self.supplier {
            Some(s) => s.clone(),
            None => {
                return changed;
            },
        };
        let keys = supplier.key_list();
        assert(self@.dom() == (*supplier)@.dom());
        let mut marked = changed;
        let mut head: usize = 0;
        proof {
            lemma_unique_subseq_len(marked@, keys@);
        }
        while head < marked.len()
            invariant
                self.structure_ok(),
                self.supplier matches Some(s) && *s == *supplier,
                keys@.no_duplicates(),
                forall|k: u64| self@.contains_key(k) <==> keys@.contains(k),
                marked@.no_duplicates(),
                forall|k: u64| changed@.contains(k) ==> marked@.contains(k),
                forall|k: u64| marked@.contains(k) ==> self@.contains_key(k),
                0 <= head <= marked@.len() <= keys@.len(),
                forall|p: int, j: u64|
                    0 <= p < head && self@.contains_key(j) && #[trigger] mods_read(self@[j].modifiers, marked@[p])
                        ==> marked@.contains(j),
            decreases keys@.len() - marked@.len(), marked@.len() - head,
        {
            let x = marked[head];
            let ghost len0 = marked@.len();
            let mut i: usize = 0;
            while i < keys.len()
                invariant
                    self.structure_ok(),
                    self.supplier matches Some(s) && *s == *supplier,
                    keys@.no_duplicates(),
                    forall|k: u64| self@.contains_key(k) <==> keys@.contains(k),
                    marked@.no_duplicates(),
                    forall|k: u64| changed@.contains(k) ==> marked@.contains(k),
                    forall|k: u64| marked@.contains(k) ==> self@.contains_key(k),
                    0 <= head < len0 <= marked@.len() <= keys@.len(),
                    x == marked@[head as int],
                    0 <= i <= keys@.len(),
                    forall|p: int, j: u64|
                        0 <= p < head && self@.contains_key(j) && #[trigger] mods_read(self@[j].modifiers, marked@[p])
                            ==> marked@.contains(j),
                    forall|q: int|
                        0 <= q < i && mods_read(self@[keys@[q]].modifiers, x) ==> marked@.contains(
                            #[trigger] keys@[q],
                        ),
                decreases keys@.len() - i,
            {
                let j = keys[i];
                assert(keys@[i as int] == j);
                assert(keys@.contains(j));
                assert(self@.contains_key(j));
                let ghost marked_before = marked@;
                if self.reads(&supplier, j, x) && !vec_contains(&marked, j) {
                    let ghost before = marked@;
                    marked.push(j);
                    proof {
                        assert forall|k: u64| before.contains(k) implies marked@.contains(k) by {
                            let t = choose|t: int| 0 <= t < before.len() && before[t] == k;
                            assert(marked@[t] == k);
                        }
                        assert(marked@[before.len() as int] == j);
                        assert forall|k: u64| marked@.contains(k) implies self@.contains_key(k) by {
                            let t = choose|t: int| 0 <= t < marked@.len() && marked@[t] == k;
                            if t < before.len() {
                                assert(before[t] == k);
                                assert(before.contains(k));
                            } else {
                                assert(k == j);
                            }
                        }
                        lemma_unique_subseq_len(marked@, keys@);
                    }
                }
                proof {
                    assert(forall|k: u64| marked_before.contains(k) ==> marked@.contains(k));
                    assert forall|q: int|
                        0 <= q < i + 1 && mods_read(self@[keys@[q]].modifiers, x) implies marked@.contains(
                        #[trigger] keys@[q],
                    ) by {
                        if q < i {
                            assert(marked_before.contains(keys@[q]));
                        }
                    }
                    assert forall|p: int, j2: u64|
                        0 <= p < head && self@.contains_key(j2) && #[trigger] mods_read(
                            self@[j2].modifiers,
                            marked@[p],
                        ) implies marked@.contains(j2) by {
                        assert(marked@[p] == marked_before[p]);
                        assert(marked_before.contains(j2));
                    }
                }
                i += 1;
            }
            proof {
                assert forall|p: int, j: u64|
                    0 <= p < head + 1 && self@.contains_key(j) && #[trigger] mods_read(self@[j].modifiers, marked@[p])
                        implies marked@.contains(j) by {
                    if p == head {
                        assert(keys@.contains(j));
                        let q = choose|q: int| 0 <= q < keys@.len() && keys@[q] == j;
                        assert(mods_read(self@[keys@[q]].modifiers, x));
                    }
                }
            }
            head += 1;
        }
        proof {
            assert forall|j: u64| self@.contains_key(j) && !marked@.to_set().contains(j) implies
                reads_none_of(
                #[trigger] self@[j].modifiers,
                marked@.to_set(),
            ) by {
                assert forall|k: u64| marked@.to_set().contains(k) implies !mods_read(
                    self@[j].modifiers,
                    k,
                ) by {
                    let p = choose|p: int| 0 <= p < marked@.len() && marked@[p] == k;
                }
            }
        }
        marked
    }

    /// The state after a change confined to `changed`: every other attribute
    /// is evaluated from the same instance as in `before`, and every other
    /// memo cell is made for its full value in `before`.
    spec fn changed_only(&self, before: Map<u64, InstanceModel<F>>, changed: Seq<u64>) -> bool {
        &&& self.structure_ok()
        &&& self@.dom() == before.dom()
        &&& changed.no_duplicates()
        &&& forall|k: u64| changed.contains(k) ==> self@.contains_key(k)
        &&& forall|j: u64| self@.contains_key(j) && !changed.contains(j) ==> self@[j] == before[j]
        &&& forall|j: u64|
            self.attributes@.contains_key(j) && !changed.contains(j) ==> #[trigger] self.attributes@[j].memo()
                == full_value(before, j)
    }

    /// Remakes the memo cells of `changed` and of all their dependents, so
    /// that each cell is again made for its attribute's full value.
    fn invalidate(&mut self, changed: Vec<u64>, Ghost(before): Ghost<Map<u64, InstanceModel<F>>>)
        requires
            old(self).changed_only(before, changed@),
        ensures
            final(self).wf(),
            final(self)@ == old(self)@,
            final(self).materialized() == old(self).materialized(),
            final(self).supplier == old(self).supplier,
    {
        if self.supplier.is_none() {
            return;
        }
        let marked = self.dependents_closure(changed);
        let ghost now = self@;
        let ghost d = marked@.to_set();
        proof {
            assert forall|j: u64|
                self.attributes@.contains_key(j) && !marked@.contains(j) implies #[trigger] self.attributes@[j].memo()
                    == full_value(now, j) by {
                assert(!changed@.contains(j));
                assert(self@.contains_key(j));
                lemma_full_value_frame(before, now, d, j);
            }
        }
        let mut p: usize = 0;
        while p < marked.len()
            invariant
                self.structure_ok(),
                self@ == now,
                self.attributes@.dom() == old(self).attributes@.dom(),
                self.supplier == old(self).supplier,
                0 <= p <= marked@.len(),
                forall|j: u64|
                    self.attributes@.contains_key(j) && (!marked@.contains(j) || marked@.take(
                        p as int,
                    ).contains(j)) ==> #[trigger] self.attributes@[j].memo() == full_value(now, j),
            decreases marked@.len() - p,
        {
            let j = marked[p];
            let ghost attrs = self.attributes@;
            if self.attributes.contains_key(&j) {
                let mut inst = self.attributes.remove(&j).unwrap();
                inst.set_memo(Ghost(full_value(now, j)));
                self.attributes.insert(j, inst);
                assert(models(self.attributes@) =~= models(attrs));
                assert(self@ =~= now);
            }
            proof {
                assert forall|k: u64| marked@.take(p + 1).contains(k) <==> (marked@.take(p as int).contains(k) || k == j) by {
                    if marked@.take(p + 1).contains(k) {
                        let t = choose|t: int| 0 <= t < p + 1 && #[trigger] marked@.take(p + 1)[t] == k;
                        if t < p {
                            assert(marked@.take(p as int)[t] == k);
                        }
                    }
                    if marked@.take(p as int).contains(k) {
                        let t = choose|t: int| 0 <= t < p && #[trigger] marked@.take(p as int)[t] == k;
                        assert(marked@.take(p + 1)[t] == k);
                    }
                    if k == j {
                        assert(marked@.take(p + 1)[p as int] == k);
                    }
                }
                assert forall|k: u64|
                    self.attributes@.contains_key(k) && (!marked@.contains(k) || marked@.take(
                        p + 1,
                    ).contains(k)) implies #[trigger] self.attributes@[k].memo() == full_value(now, k) by {
                    if k != j {
                        assert(self.attributes@[k] == attrs[k]);
                    }
                }
            }
            p += 1;
        }
        proof {
            assert(marked@.take(p as int) =~= marked@);
        }
    }

    /// Makes `attribute` materialized when the registry has it; true when it
    /// is materialized afterwards.
    fn materialize(&mut self, attribute: u64) -> (r: bool)
        requires
            old(self).wf(),
        ensures
            final(self).wf(),
            final(self)@ == old(self)@,
            r == old(self)@.contains_key(attribute),
            r ==> final(self).attributes@.contains_key(attribute),
            final(self).attributes@.dom() == (if r {
                old(self).attributes@.dom().insert(attribute)
            } else {
                old(self).attributes@.dom()
            }),
            forall|j: u64| j != attribute && old(self).attributes@.contains_key(j) ==> final(self).attributes@[j] == old(self).attributes@[j],
            final(self).supplier == old(self).supplier,
    {
        if self.attributes.contains_key(&attribute) {
            assert(self.attributes@.dom().insert(attribute) =~= self.attributes@.dom());
            return true;
        }
        let fresh = match &self.supplier {
            Some(s) => s.create_instance(&attribute),
            None => None,
        };
        match fresh {
            Some(inst) => {
                let mut inst = inst;
                let ghost before = self@;
                let ghost attrs = self.attributes@;
                inst.set_memo(Ghost(full_value(before, attribute)));
                self.attributes.insert(attribute, inst);
                assert(models(self.attributes@) =~= models(attrs).insert(attribute, inst@));
                assert(self@ =~= before);
                assert forall|k: u64| #[trigger]
                    self.attributes@.contains_key(k) implies self.attributes@[k].memo() == full_value(self@, k) by {
                    if k != attribute {
                        assert(attrs.contains_key(k));
                    }
                }
                true
            },
            None => false,
        }
    }

    /// Replaces the raw value of `attribute`, materializing it first; the
    /// memo cells of it and of its dependents are remade.
    pub fn set_raw_value(&mut self, attribute: &u64, value: i64)
        requires
            old(self).wf(),
        ensures
            final(self).wf(),
            final(self).registry() == old(self).registry(),
            final(self)@ == (if old(self)@.contains_key(*attribute) {
                old(self)@.insert(
                    *attribute,
                    InstanceModel { raw_value: value, ..old(self)@[*attribute] },
                )
            } else {
                old(self)@
            }),
            final(self).materialized() == (if old(self)@.contains_key(*attribute) {
                old(self).materialized().insert(*attribute)
            } else {
                old(self).materialized()
            }),
    {
        let k = *attribute;
        if self.materialize(k) {
            let ghost before = self@;
            let ghost attrs = self.attributes@;
            let mut inst = self.attributes.remove(&k).unwrap();
            inst.set_raw_value(value);
            self.attributes.insert(k, inst);
            assert(models(self.attributes@) =~= models(attrs).insert(k, inst@));
            assert(self@ =~= before.insert(k, inst@));
            proof {
                self.lemma_changed_one(before, attrs, k);
            }
            self.invalidate(vec![k], Ghost(before));
        }
    }

    /// Files `instance` under `modifier` on `attribute`, materializing it
    /// first: it replaces the modifier already under `modifier` in its place,
    /// or else comes after all others. The memo cells of it and of its
    /// dependents are remade.
    pub fn add_modifier(&mut self, attribute: &u64, modifier: u64, instance: AttributeModifier<F>) -> (r:
        &mut Self)
        requires
            old(self).wf(),
            instance.op.is_pure(),
        ensures
            *final(self) == *final(r),
            r.wf(),
            r.registry() == old(self).registry(),
            r@ == (if old(self)@.contains_key(*attribute) {
                old(self)@.insert(
                    *attribute,
                    InstanceModel {
                        modifiers: with_modifier(old(self)@[*attribute].modifiers, modifier, instance),
                        ..old(self)@[*attribute]
                    },
                )
            } else {
                old(self)@
            }),
            r.materialized() == (if old(self)@.contains_key(*attribute) {
                old(self).materialized().insert(*attribute)
            } else {
                old(self).materialized()
            }),
    {
        let k = *attribute;
        if self.materialize(k) {
            let ghost before = self@;
            let ghost attrs = self.attributes@;
            let mut inst = self.attributes.remove(&k).unwrap();
            inst.add_modifier(modifier, instance);
            self.attributes.insert(k, inst);
            assert(models(self.attributes@) =~= models(attrs).insert(k, inst@));
            assert(self@ =~= before.insert(k, inst@));
            proof {
                let mods = inst@.modifiers;
                let old_mods = before[k].modifiers;
                if has_key(old_mods, modifier) {
                    lemma_first_index(old_mods, modifier);
                }
                assert forall|i: int| 0 <= i < mods.len() implies (#[trigger] mods[i]).1.op.is_pure() by {
                    if i < old_mods.len() && mods[i] != (modifier, instance) {
                        assert(mods[i] == old_mods[i]);
                    }
                }
                self.lemma_changed_one(before, attrs, k);
            }
            self.invalidate(vec![k], Ghost(before));
        }
        self
    }

    /// Drops the modifiers under `modifier` from `attribute`, materializing it
    /// first; the memo cells of it and of its dependents are remade.
    pub fn remove_modifier(&mut self, attribute: &u64, modifier: &u64)
        requires
            old(self).wf(),
        ensures
            final(self).wf(),
            final(self).registry() == old(self).registry(),
            final(self)@ == (if old(self)@.contains_key(*attribute) {
                old(self)@.insert(*attribute, strip(old(self)@[*attribute], *modifier))
            } else {
                old(self)@
            }),
            final(self).materialized() == (if old(self)@.contains_key(*attribute) {
                old(self).materialized().insert(*attribute)
            } else {
                old(self).materialized()
            }),
            old(self)@.contains_key(*attribute) ==> !has_key(final(self)@[*attribute].modifiers, *modifier),
    {
        let k = *attribute;
        if self.materialize(k) {
            let ghost before = self@;
            let ghost attrs = self.attributes@;
            let mut inst = self.attributes.remove(&k).unwrap();
            inst.remove_modifier(modifier);
            self.attributes.insert(k, inst);
            assert(models(self.attributes@) =~= models(attrs).insert(k, inst@));
            assert(self@ =~= before.insert(k, inst@));
            assert(self.attributes@.dom() =~= attrs.dom());
            proof {
                lemma_without_key_pure(before[k].modifiers, *modifier);
                lemma_without_key_drops_key(before[k].modifiers, *modifier);
                self.lemma_changed_one(before, attrs, k);
            }
            self.invalidate(vec![k], Ghost(before));
        }
    }

    /// Drops the modifiers under `modifier` from every materialized
    /// attribute; the memo cells of those that had one, and of their
    /// dependents, are remade.
    pub fn remove_modifiers(&mut self, modifier: &u64)
        requires
            old(self).wf(),
        ensures
            final(self).wf(),
            final(self).registry() == old(self).registry(),
            final(self)@.dom() == old(self)@.dom(),
            forall|k: u64| #[trigger]
                old(self)@.contains_key(k) ==> final(self)@[k] == (if old(self).materialized().contains(k) {
                    strip(old(self)@[k], *modifier)
                } else {
                    old(self)@[k]
                }),
            final(self).materialized() == old(self).materialized(),
            forall|k: u64| #[trigger]
                final(self).materialized().contains(k) ==> !has_key(final(self)@[k].modifiers, *modifier),
    {
        let supplier = match &self.supplier {
            Some(s) => s.clone(),
            None => {
                return;
            },
        };
        let keys = supplier.key_list();
        let ghost before = self@;
        let ghost local = self.attributes@;
        let mut changed: Vec<u64> = Vec::new();
        let mut i: usize = 0;
        while i < keys.len()
            invariant
                self.supplier matches Some(s) && *s == *supplier,
                supplier.wf(),
                self.attributes@.dom() == local.dom(),
                local.dom().subset_of((*supplier)@.dom()),
                keys@.no_duplicates(),
                forall|k: u64| (*supplier)@.contains_key(k) <==> keys@.contains(k),
                before == (*supplier)@.union_prefer_right(models(local)),
                all_pure(before),
                forall|j: u64| #[trigger]
                    local.contains_key(j) ==> local[j].memo() == full_value(before, j),
                0 <= i <= keys@.len(),
                self@.dom() == before.dom(),
                forall|j: u64| #[trigger]
                    self@.contains_key(j) ==> self@[j] == (if local.contains_key(j) && keys@.take(
                        i as int,
                    ).contains(j) {
                        strip(before[j], *modifier)
                    } else {
                        before[j]
                    }),
                changed@.no_duplicates(),
                forall|k: u64| changed@.contains(k) ==> local.contains_key(k) && keys@.take(i as int).contains(k),
                forall|j: u64|
                    local.contains_key(j) && !changed@.contains(j) ==> self@[j] == before[j]
                        && #[trigger] self.attributes@[j].memo() == full_value(before, j),
            decreases keys@.len() - i,
        {
            let j = keys[i];
            let ghost attrs = self.attributes@;
            let ghost view0 = self@;
            let ghost c_start = changed@;
            proof {
                assert forall|k: u64| keys@.take(i + 1).contains(k) <==> (keys@.take(i as int).contains(k) || k == j) by {
                    if keys@.take(i + 1).contains(k) {
                        let t = choose|t: int| 0 <= t < i + 1 && #[trigger] keys@.take(i + 1)[t] == k;
                        if t < i {
                            assert(keys@.take(i as int)[t] == k);
                        }
                    }
                    if keys@.take(i as int).contains(k) {
                        let t = choose|t: int| 0 <= t < i && #[trigger] keys@.take(i as int)[t] == k;
                        assert(keys@.take(i + 1)[t] == k);
                    }
                    if k == j {
                        assert(keys@.take(i + 1)[i as int] == k);
                    }
                }
                assert(!keys@.take(i as int).contains(j)) by {
                    if keys@.take(i as int).contains(j) {
                        let t = choose|t: int| 0 <= t < i && #[trigger] keys@.take(i as int)[t] == j;
                        assert(keys@[t] == keys@[i as int]);
                    }
                }
            }
            if self.attributes.contains_key(&j) {
                let mut inst = self.attributes.remove(&j).unwrap();
                let removed = inst.remove_modifier(modifier);
                self.attributes.insert(j, inst);
                assert(models(self.attributes@) =~= models(attrs).insert(j, inst@));
                assert(self@ =~= view0.insert(j, inst@));
                assert(self.attributes@.dom() =~= attrs.dom());
                if removed {
                    let ghost c0 = changed@;
                    assert(!c0.contains(j));
                    changed.push(j);
                    proof {
                        assert forall|k: u64| changed@.contains(k) <==> (c0.contains(k) || k == j) by {
                            if changed@.contains(k) {
                                let t = choose|t: int| 0 <= t < changed@.len() && changed@[t] == k;
                                if t < c0.len() {
                                    assert(c0[t] == k);
                                }
                            }
                            if c0.contains(k) {
                                let t = choose|t: int| 0 <= t < c0.len() && c0[t] == k;
                                assert(changed@[t] == k);
                            }
                            if k == j {
                                assert(changed@[c0.len() as int] == k);
                            }
                        }
                    }
                }
            }
            proof {
                assert forall|k: u64| #[trigger]
                    self@.contains_key(k) implies self@[k] == (if local.contains_key(k) && keys@.take(
                        i + 1,
                    ).contains(k) {
                        strip(before[k], *modifier)
                    } else {
                        before[k]
                    }) by {
                    if k != j {
                        assert(self@[k] == view0[k]);
                    }
                }
                assert(changed@ == c_start || (changed@ == c_start.push(j) && local.contains_key(j)));
                assert forall|k: u64| changed@.contains(k) implies local.contains_key(k) && keys@.take(i + 1).contains(k) by {
                    if changed@ != c_start {
                        let t = choose|t: int| 0 <= t < changed@.len() && changed@[t] == k;
                        if t < c_start.len() {
                            assert(c_start[t] == k);
                        }
                    }
                    if c_start.contains(k) {
                        assert(keys@.take(i as int).contains(k));
                    } else {
                        assert(k == j);
                    }
                }
            }
            i += 1;
        }
        proof {
            assert(keys@.take(i as int) =~= keys@);
            assert forall|k: u64| #[trigger]
                before.contains_key(k) implies self@[k] == (if local.contains_key(k) {
                    strip(before[k], *modifier)
                } else {
                    before[k]
                }) by {
                if local.contains_key(k) {
                    assert(keys@.contains(k));
                }
            }
            assert forall|j: u64| self@.contains_key(j) implies crate::attribute::eval::modifiers_pure(
                #[trigger] self@[j].modifiers,
            ) by {
                assert(before.contains_key(j));
                lemma_without_key_pure(before[j].modifiers, *modifier);
            }
            assert forall|k: u64| changed@.contains(k) implies self@.contains_key(k) by {
                assert(local.contains_key(k));
            }
            assert forall|k: u64| self@.contains_key(k) && !changed@.contains(k) implies self@[k] == before[k] by {
                if local.contains_key(k) {
                    assert(self.attributes@[k].memo() == full_value(before, k));
                }
            }
            assert(self.structure_ok());
            assert forall|k: u64| #[trigger]
                self.attributes@.contains_key(k) implies !has_key(self@[k].modifiers, *modifier) by {
                assert(local.contains_key(k));
                assert(before.contains_key(k));
                lemma_without_key_drops_key(before[k].modifiers, *modifier);
            }
        }
        self.invalidate(changed, Ghost(before));
    }

    /// After one materialized instance `k` changed in a well-formed collection
    /// whose prior local instances were `attrs`, the change is confined to `k`.
    proof fn lemma_changed_one(
        &self,
        before: Map<u64, InstanceModel<F>>,
        attrs: Map<u64, AttributeInstance<F>>,
        k: u64,
    )
        requires
            self.attributes@.dom() == attrs.dom(),
            attrs.contains_key(k),
            forall|j: u64| j != k && attrs.contains_key(j) ==> self.attributes@[j] == attrs[j],
            forall|j: u64| #[trigger] attrs.contains_key(j) ==> attrs[j].memo() == full_value(before, j),
            self@ == before.insert(k, self@[k]),
            before.contains_key(k),
            all_pure(before),
            crate::attribute::eval::modifiers_pure(self@[k].modifiers),
            match self.supplier {
                Some(s) => s.wf() && self.attributes@.dom().subset_of(s@.dom()),
                None => self.attributes@.dom() == Set::<u64>::empty(),
            },
        ensures
            self.changed_only(before, seq![k]),
    {
        assert forall|j: u64| self@.contains_key(j) implies crate::attribute::eval::modifiers_pure(#[trigger] self@[j].modifiers) by {
            if j != k {
                assert(before.contains_key(j));
            }
        }
        assert(self@.dom() =~= before.dom());
        assert forall|j: u64| #[trigger] seq![k].contains(j) <==> j == k by {
            if j == k {
                assert(seq![k][0] == k);
            }
        }
    }

    /// The full value of `attribute` at `fuel` levels of references; the memo
    /// cell of a materialized instance is read and filled.
    pub(crate) fn value_at(&self, attribute: &u64, Ghost(fuel): Ghost<nat>) -> (r: Option<i64>)
        requires
            self.wf(),
            fuel <= fuel_bound(self@),
            self@.contains_key(*attribute) ==> instance_value(
                self@,
                self@[*attribute],
                false,
                fuel,
            ) is Some,
        ensures
            r == (if self@.contains_key(*attribute) {
                instance_value(self@, self@[*attribute], false, fuel)
            } else {
                None
            }),
        decreases fuel, 2nat,
    {
        match self.attributes.get(attribute) {
            Some(inst) => Some(inst.memo_value(self, Ghost(fuel))),
            None => match &self.supplier {
                Some(s) => match s.prototype(attribute) {
                    Some(p) => Some(p.compute_value(self, false, Ghost(fuel))),
                    None => None,
                },
                None => None,
            },
        }
    }
}

impl<F: CloneableFn> Clone for AttributeMap<F> {
    /// An independent collection over the same registry, with copies of the
    /// materialized instances and of their memo cells.
    fn clone(&self) -> (r: Self)
        ensures
            self.wf() ==> r.wf() && r@ == self@ && r.materialized() == self.materialized(),
    {
        let supplier = match &self.supplier {
            Some(s) => s.clone(),
            None => {
                let r = AttributeMap { supplier: None, attributes: HashMap::new() };
                proof {
                    if self.wf() {
                        assert(self.attributes@ =~= r.attributes@);
                        assert(r@ =~= self@);
                    }
                }
                return r;
            },
        };
        let keys = supplier.key_list();
        let mut attributes: HashMap<u64, AttributeInstance<F>> = HashMap::new();
        let mut i: usize = 0;
        while i < keys.len()
            invariant
                self.supplier matches Some(s) && *s == *supplier,
                supplier.wf() ==> forall|k: u64| (*supplier)@.contains_key(k) <==> keys@.contains(k),
                0 <= i <= keys@.len(),
                forall|k: u64| #[trigger]
                    attributes@.contains_key(k) <==> self.attributes@.contains_key(k) && keys@.take(
                        i as int,
                    ).contains(k),
                forall|k: u64| #[trigger]
                    attributes@.contains_key(k) ==> attributes@[k]@ == self.attributes@[k]@
                        && attributes@[k].memo() == self.attributes@[k].memo(),
            decreases keys@.len() - i,
        {
            let k = keys[i];
            proof {
                assert forall|j: u64| keys@.take(i + 1).contains(j) <==> (keys@.take(i as int).contains(j) || j == k) by {
                    if keys@.take(i + 1).contains(j) {
                        let t = choose|t: int| 0 <= t < i + 1 && #[trigger] keys@.take(i + 1)[t] == j;
                        if t < i {
                            assert(keys@.take(i as int)[t] == j);
                        }
                    }
                    if keys@.take(i as int).contains(j) {
                        let t = choose|t: int| 0 <= t < i && #[trigger] keys@.take(i as int)[t] == j;
                        assert(keys@.take(i + 1)[t] == j);
                    }
                    if j == k {
                        assert(keys@.take(i + 1)[i as int] == j);
                    }
                }
            }
            match self.attributes.get(&k) {
                Some(inst) => {
                    attributes.insert(k, inst.clone());
                },
                None => {},
            }
            i += 1;
        }
        let r = AttributeMap { supplier: Some(supplier), attributes };
        proof {
            assert(keys@.take(i as int) =~= keys@);
            if self.wf() {
                assert forall|k: u64| #[trigger] self.attributes@.contains_key(k) implies keys@.contains(k) by {
                    assert((*supplier)@.contains_key(k));
                }
                assert(r.attributes@.dom() =~= self.attributes@.dom());
                assert(models(r.attributes@) =~= models(self.attributes@));
                assert(r@ =~= self@);
            }
        }
        r
    }
}

impl<F: CloneableFn> Default for AttributeMap<F> {
    /// A collection without a registry: it knows no attribute.
    fn default() -> (r: Self)
        ensures
            r.wf(),
            r@ == Map::<u64, InstanceModel<F>>::empty(),
            r.materialized() == Set::<u64>::empty(),
    {
        let r = AttributeMap { supplier: None, attributes: HashMap::new() };
        assert(r@ =~= Map::<u64, InstanceModel<F>>::empty());
        r
    }
}

} // verus!
