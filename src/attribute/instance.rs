use vstd::prelude::*;
use vstd::rwlock::{RwLock, RwLockPredicate};
use crate::attribute::Attribute;
use crate::attribute::eval::{
    InstanceModel, fold_modifiers, operand_value, fuel_bound, instance_value, lemma_fold_fuel, lemma_fold_prefix,
    mods_read, modifiers_pure,
};
use crate::attribute::map::AttributeMap;
use crate::attribute::modifier::{AttributeModifier, CloneableFn, Value};

verus! {

/// The predicate of a memo cell: empty, or holding the one value the cell was
/// made for; a cell marked ready is made for a value.
pub struct Memo {
    pub expected: Option<i64>,
}

impl RwLockPredicate<(bool, Option<i64>)> for Memo {
    open spec fn inv(self, v: (bool, Option<i64>)) -> bool {
        &&& v.0 ==> self.expected is Some
        &&& v.1 is None || v.1 == self.expected
    }
}

/// Some modifier in the list is filed under `key`.
pub open spec fn has_key<F>(mods: Seq<(u64, AttributeModifier<F>)>, key: u64) -> bool {
    exists|i: int| 0 <= i < mods.len() && (#[trigger] mods[i]).0 == key
}

/// The position of the first modifier filed under `key`.
pub open spec fn first_index<F>(mods: Seq<(u64, AttributeModifier<F>)>, key: u64) -> int {
    choose|i: int|
        0 <= i < mods.len() && mods[i].0 == key && forall|j: int| 0 <= j < i ==> mods[j].0 != key
}

/// When some modifier is filed under `key`, `first_index` names the first.
pub proof fn lemma_first_index<F>(mods: Seq<(u64, AttributeModifier<F>)>, key: u64)
    requires
        has_key(mods, key),
    ensures
        0 <= first_index(mods, key) < mods.len(),
        mods[first_index(mods, key)].0 == key,
        forall|j: int| 0 <= j < first_index(mods, key) ==> mods[j].0 != key,
    decreases mods.len(),
{
    let rest = mods.drop_last();
    if has_key(rest, key) {
        lemma_first_index(rest, key);
        let i = first_index(rest, key);
        assert(mods[i] == rest[i]);
        assert(forall|j: int| 0 <= j < i ==> mods[j] == rest[j]);
    } else {
        let w = choose|w: int| 0 <= w < mods.len() && (#[trigger] mods[w]).0 == key;
        if w < mods.len() - 1 {
            assert(rest[w] == mods[w]);
        }
        let i = mods.len() - 1;
        assert forall|j: int| 0 <= j < i implies mods[j].0 != key by {
            assert(rest[j] == mods[j]);
        }
    }
}

/// The list with `m` filed under `key`: it takes the place of the first
/// modifier under `key`, or comes last when there is none.
pub open spec fn with_modifier<F>(mods: Seq<(u64, AttributeModifier<F>)>, key: u64, m: AttributeModifier<F>) -> Seq<
    (u64, AttributeModifier<F>),
> {
    if has_key(mods, key) {
        mods.update(first_index(mods, key), (key, m))
    } else {
        mods.push((key, m))
    }
}

/// Files `m` under `key`, in place of the first modifier under `key` if any.
fn put_modifier<F>(mods: &mut Vec<(u64, AttributeModifier<F>)>, key: u64, m: AttributeModifier<F>)
    ensures
        final(mods)@ == with_modifier(old(mods)@, key, m),
{
    let mut i: usize = 0;
    while i < mods.len() && mods[i].0 != key
        invariant
            0 <= i <= mods@.len(),
            forall|j: int| 0 <= j < i ==> mods@[j].0 != key,
        decreases mods@.len() - i,
    {
        i += 1;
    }
    if i < mods.len() {
        let ghost before = mods@;
        assert(has_key(before, key));
        let ghost f = first_index(before, key);
        assert(f == i) by {
            if f < i {
                assert(before[f].0 != key);
            } else if f > i {
                assert(before[i as int].0 == key);
            }
        }
        mods.set(i, (key, m));
    } else {
        assert(!has_key(mods@, key));
        mods.push((key, m));
    }
}

/// The list without the modifiers filed under `key`, order kept.
pub open spec fn without_key<F>(mods: Seq<(u64, AttributeModifier<F>)>, key: u64) -> Seq<
    (u64, AttributeModifier<F>),
>
    decreases mods.len(),
{
    if mods.len() == 0 {
        mods
    } else {
        let rest = without_key(mods.drop_last(), key);
        if mods.last().0 != key {
            rest.push(mods.last())
        } else {
            rest
        }
    }
}

/// Dropping the modifiers under a key that no modifier carries changes nothing.
pub proof fn lemma_without_absent_key<F>(mods: Seq<(u64, AttributeModifier<F>)>, key: u64)
    requires
        !has_key(mods, key),
    ensures
        without_key(mods, key) == mods,
    decreases mods.len(),
{
    if mods.len() > 0 {
        let rest = mods.drop_last();
        assert(!has_key(rest, key)) by {
            if has_key(rest, key) {
                let i = choose|i: int| 0 <= i < rest.len() && (#[trigger] rest[i]).0 == key;
                assert(mods[i] == rest[i]);
            }
        }
        lemma_without_absent_key(rest, key);
        assert(mods[mods.len() - 1] == mods.last());
        assert(rest.push(mods.last()) =~= mods);
    }
}

/// After dropping the modifiers under a key, none is filed under it.
pub proof fn lemma_without_key_drops_key<F>(mods: Seq<(u64, AttributeModifier<F>)>, key: u64)
    ensures
        !has_key(without_key(mods, key), key),
    decreases mods.len(),
{
    if mods.len() > 0 {
        let rest = mods.drop_last();
        lemma_without_key_drops_key(rest, key);
        let w = without_key(rest, key);
        if mods.last().0 != key {
            assert forall|i: int| 0 <= i < w.len() + 1 implies (#[trigger] w.push(mods.last())[i]).0 != key by {
                if i < w.len() {
                    assert(w.push(mods.last())[i] == w[i]);
                }
            }
        }
    }
}

/// Dropping the modifiers under a key keeps every remaining operation pure.
pub proof fn lemma_without_key_pure<F: CloneableFn>(mods: Seq<(u64, AttributeModifier<F>)>, key: u64)
    requires
        modifiers_pure(mods),
    ensures
        modifiers_pure(without_key(mods, key)),
    decreases mods.len(),
{
    if mods.len() > 0 {
        let rest = mods.drop_last();
        assert forall|i: int| 0 <= i < rest.len() implies (#[trigger] rest[i]).1.op.is_pure() by {
            assert(rest[i] == mods[i]);
        }
        lemma_without_key_pure(rest, key);
        assert(mods.last() == mods[mods.len() - 1]);
        let w = without_key(rest, key);
        if mods.last().0 != key {
            assert forall|i: int| 0 <= i < w.len() + 1 implies (#[trigger] w.push(mods.last())[i]).1.op.is_pure() by {
                if i < w.len() {
                    assert(w.push(mods.last())[i] == w[i]);
                }
            }
        }
    }
}

/// The instances' models, memo cells left out.
pub open spec fn models<F>(m: Map<u64, AttributeInstance<F>>) -> Map<u64, InstanceModel<F>> {
    m.map_values(|i: AttributeInstance<F>| i@)
}

/// One owner's state for one attribute: a raw value, the modifiers in the
/// order they were added, and a memo cell for the full value, guarded by a
/// lock so that shared readers can fill it. Beside the value, the cell keeps
/// at run time whether it is made for a value, so that a computed value may
/// be stored in it.
pub struct AttributeInstance<F = fn(i64, i64) -> i64> {
    attribute: Attribute,
    modifiers: Vec<(u64, AttributeModifier<F>)>,
    raw_value: i64,
    cached_value: RwLock<(bool, Option<i64>), Memo>,
}

impl<F> View for AttributeInstance<F> {
    type V = InstanceModel<F>;

    closed spec fn view(&self) -> InstanceModel<F> {
        InstanceModel {
            attribute: self.attribute,
            modifiers: self.modifiers@,
            raw_value: self.raw_value,
        }
    }
}

/// A template with modifiers, gathered before it becomes an instance.
pub struct AttributeBuilder<F = fn(i64, i64) -> i64> {
    attribute: Attribute,
    modifiers: Vec<(u64, AttributeModifier<F>)>,
}

impl<F> View for AttributeBuilder<F> {
    type V = InstanceModel<F>;

    closed spec fn view(&self) -> InstanceModel<F> {
        InstanceModel {
            attribute: self.attribute,
            modifiers: self.modifiers@,
            raw_value: self.attribute.spec_default_value(),
        }
    }
}

impl<F: CloneableFn> AttributeBuilder<F> {
    /// Files a modifier under `key`: in place of the one already there, or
    /// after all others.
    pub fn modifier(self, key: u64, modifier: AttributeModifier<F>) -> (r: Self)
        ensures
            r@ == (InstanceModel { modifiers: with_modifier(self@.modifiers, key, modifier), ..self@ }),
    {
        let mut b = self;
        put_modifier(&mut b.modifiers, key, modifier);
        b
    }

    /// The instance: the template's default as raw value, the gathered
    /// modifiers, an empty memo cell.
    pub fn build(self) -> (r: AttributeInstance<F>)
        ensures
            r@ == self@,
            r.memo() is None,
    {
        let raw_value = self.attribute.default_value();
        AttributeInstance {
            attribute: self.attribute,
            modifiers: self.modifiers,
            raw_value,
            cached_value: RwLock::new((false, None), Ghost(Memo { expected: None })),
        }
    }
}

impl<F: CloneableFn> Clone for AttributeInstance<F> {
    /// An independent copy: same template, modifiers and raw value, and a new
    /// memo cell holding what this one holds.
    fn clone(&self) -> (r: Self)
        ensures
            r@ == self@,
            r.memo() == self.memo(),
    {
        let mut modifiers: Vec<(u64, AttributeModifier<F>)> = Vec::new();
        let mut i: usize = 0;
        while i < self.modifiers.len()
            invariant
                0 <= i <= self.modifiers@.len(),
                modifiers@ == self.modifiers@.take(i as int),
            decreases self.modifiers@.len() - i,
        {
            let e = &self.modifiers[i];
            modifiers.push((e.0, e.1.clone()));
            assert(self.modifiers@.take(i + 1) =~= self.modifiers@.take(i as int).push(
                self.modifiers@[i as int],
            ));
            i += 1;
        }
        assert(self.modifiers@.take(i as int) =~= self.modifiers@);
        let v = self.read_cell();
        AttributeInstance {
            attribute: self.attribute.clone(),
            modifiers,
            raw_value: self.raw_value,
            cached_value: RwLock::new(v, Ghost(self.cached_value.pred())),
        }
    }
}

impl<F: CloneableFn> AttributeInstance<F> {
    /// The value this instance's memo cell may hold, if any: nothing else is
    /// ever stored in it.
    pub closed spec fn memo(&self) -> Option<i64> {
        self.cached_value.pred().expected
    }

    /// A fresh instance of `attribute`: its default as raw value, no
    /// modifiers, and an empty memo cell made for the sanitized default, which
    /// is its value against any collection.
    pub fn new(attribute: Attribute) -> (r: Self)
        ensures
            r@ == (InstanceModel {
                attribute,
                modifiers: Seq::<(u64, AttributeModifier<F>)>::empty(),
                raw_value: attribute.spec_default_value(),
            }),
            r.memo() == Some(attribute.spec_sanitize_value(attribute.spec_default_value())),
    {
        let raw_value = attribute.default_value();
        AttributeInstance {
            attribute,
            modifiers: Vec::new(),
            raw_value,
            cached_value: RwLock::new(
                (true, None),
                Ghost(Memo { expected: Some(attribute.spec_sanitize_value(raw_value)) }),
            ),
        }
    }

    /// A builder for an instance of `attribute`.
    pub fn builder(attribute: Attribute) -> (r: AttributeBuilder<F>)
        ensures
            r@ == (InstanceModel {
                attribute,
                modifiers: Seq::<(u64, AttributeModifier<F>)>::empty(),
                raw_value: attribute.spec_default_value(),
            }),
    {
        AttributeBuilder { attribute, modifiers: Vec::new() }
    }

    /// The unmodified base value.
    pub fn raw_value(&self) -> (r: i64)
        ensures
            r == self@.raw_value,
    {
        self.raw_value
    }

    /// Gives the memo cell a new, empty lock made for `expected`.
    pub(crate) fn set_memo(&mut self, Ghost(expected): Ghost<Option<i64>>)
        ensures
            final(self)@ == old(self)@,
            final(self).memo() == expected,
    {
        self.cached_value = RwLock::new((false, None), Ghost(Memo { expected }));
    }

    /// Empties the memo cell; it then takes no value until it is made anew.
    fn mark_dirty(&mut self)
        ensures
            final(self)@ == old(self)@,
            final(self).memo() is None,
    {
        self.set_memo(Ghost(None));
    }

    /// What the memo cell holds now, with its readiness.
    fn read_cell(&self) -> (r: (bool, Option<i64>))
        ensures
            self.cached_value.pred().inv(r),
    {
        let handle = self.cached_value.acquire_read();
        let v = *handle.borrow();
        handle.release_read();
        v
    }

    /// What the memo cell holds now.
    fn cached(&self) -> (r: Option<i64>)
        ensures
            r is None || r == self.memo(),
    {
        self.read_cell().1
    }

    /// Stores `v` in the memo cell.
    fn store(&self, v: i64)
        requires
            self.memo() == Some(v),
    {
        let (old, handle) = self.cached_value.acquire_write();
        handle.release_write((old.0, Some(v)));
    }

    /// Replaces the raw value; an unchanged value leaves the memo cell alone.
    pub fn set_raw_value(&mut self, value: i64)
        ensures
            final(self)@ == (InstanceModel { raw_value: value, ..old(self)@ }),
            final(self).memo() == (if value == old(self)@.raw_value {
                old(self).memo()
            } else {
                None
            }),
    {
        if value != self.raw_value {
            self.raw_value = value;
            self.mark_dirty();
        }
    }

    /// Whether a modifier is filed under `modifier`.
    pub fn has_modifier(&self, modifier: &u64) -> (r: bool)
        ensures
            r == has_key(self@.modifiers, *modifier),
    {
        let mut i: usize = 0;
        while i < self.modifiers.len()
            invariant
                0 <= i <= self.modifiers@.len(),
                forall|j: int| 0 <= j < i ==> self.modifiers@[j].0 != *modifier,
            decreases self.modifiers@.len() - i,
        {
            if self.modifiers[i].0 == *modifier {
                return true;
            }
            i += 1;
        }
        false
    }

    /// The first modifier filed under `modifier`.
    pub fn modifier(&self, modifier: &u64) -> (r: Option<&AttributeModifier<F>>)
        ensures
            r is None <==> !has_key(self@.modifiers, *modifier),
            r matches Some(m) ==> exists|i: int|
                0 <= i < self@.modifiers.len() && self@.modifiers[i].0 == *modifier && *m
                    == self@.modifiers[i].1 && forall|j: int|
                    0 <= j < i ==> self@.modifiers[j].0 != *modifier,
    {
        let mut i: usize = 0;
        while i < self.modifiers.len()
            invariant
                0 <= i <= self.modifiers@.len(),
                forall|j: int| 0 <= j < i ==> self.modifiers@[j].0 != *modifier,
            decreases self.modifiers@.len() - i,
        {
            if self.modifiers[i].0 == *modifier {
                assert(self@.modifiers[i as int] == self.modifiers@[i as int]);
                return Some(&self.modifiers[i].1);
            }
            i += 1;
        }
        None
    }

    /// Files `modifier` under `id`: it replaces the modifier already under
    /// `id` in its place, or else is applied after all present ones.
    pub fn add_modifier(&mut self, id: u64, modifier: AttributeModifier<F>)
        ensures
            final(self)@ == (InstanceModel {
                modifiers: with_modifier(old(self)@.modifiers, id, modifier),
                ..old(self)@
            }),
            final(self).memo() is None,
    {
        put_modifier(&mut self.modifiers, id, modifier);
        self.mark_dirty();
    }

    /// Removes every modifier filed under `id`; true when there was one.
    pub fn remove_modifier(&mut self, id: &u64) -> (r: bool)
        ensures
            final(self)@ == (InstanceModel {
                modifiers: without_key(old(self)@.modifiers, *id),
                ..old(self)@
            }),
            r == has_key(old(self)@.modifiers, *id),
            !r ==> final(self)@ == old(self)@,
            final(self).memo() == (if r {
                None
            } else {
                old(self).memo()
            }),
    {
        let ghost mods = self.modifiers@;
        let mut kept: Vec<(u64, AttributeModifier<F>)> = Vec::new();
        let mut found = false;
        let mut i: usize = 0;
        while i < self.modifiers.len()
            invariant
                mods == self.modifiers@,
                0 <= i <= mods.len(),
                kept@ == without_key(mods.take(i as int), *id),
                found == has_key(mods.take(i as int), *id),
            decreases mods.len() - i,
        {
            let e = &self.modifiers[i];
            assert(mods.take(i + 1).drop_last() =~= mods.take(i as int));
            if e.0 != *id {
                kept.push((e.0, e.1.clone()));
            } else {
                found = true;
            }
            proof {
                let t = mods.take(i + 1);
                if has_key(t, *id) && !has_key(mods.take(i as int), *id) {
                    let j = choose|j: int| 0 <= j < t.len() && (#[trigger] t[j]).0 == *id;
                    assert(j == i);
                }
                if has_key(mods.take(i as int), *id) {
                    let j = choose|j: int| 0 <= j < i && (#[trigger] mods.take(i as int)[j]).0 == *id;
                    assert(t[j] == mods.take(i as int)[j]);
                }
                if e.0 == *id {
                    assert(t[i as int] == mods[i as int]);
                }
            }
            i += 1;
        }
        assert(mods.take(i as int) =~= mods);
        if found {
            self.modifiers = kept;
            self.mark_dirty();
        }
        proof {
            if !found {
                lemma_without_absent_key(mods, *id);
            }
        }
        found
    }

    /// The value folded from the raw value through the modifiers (only base
    /// ones with `base`), references read from `attributes`, then sanitized.
    pub(crate) fn compute_value(
        &self,
        attributes: &AttributeMap<F>,
        base: bool,
        Ghost(fuel): Ghost<nat>,
    ) -> (r: i64)
        requires
            attributes.wf(),
            modifiers_pure(self@.modifiers),
            fuel <= fuel_bound(attributes@),
            instance_value(attributes@, self@, base, fuel) is Some,
        ensures
            Some(r) == instance_value(attributes@, self@, base, fuel),
        decreases fuel, 0nat,
    {
        let ghost m = attributes@;
        let ghost mods = self.modifiers@;
        let mut value = self.raw_value;
        let mut i: usize = 0;
        assert(mods.take(0) =~= Seq::<(u64, AttributeModifier<F>)>::empty());
        while i < self.modifiers.len()
            invariant
                0 <= i <= mods.len(),
                mods == self.modifiers@,
                m == attributes@,
                attributes.wf(),
                modifiers_pure(mods),
                fuel <= fuel_bound(m),
                fold_modifiers(m, mods, self.raw_value, base, fuel) is Some,
                fold_modifiers(m, mods.take(i as int), self.raw_value, base, fuel) == Some(value),
            decreases mods.len() - i,
        {
            let md = &self.modifiers[i].1;
            proof {
                lemma_fold_prefix(m, mods, self.raw_value, base, fuel, i + 1);
                assert(mods.take(i + 1).drop_last() =~= mods.take(i as int));
                assert(mods.take(i + 1).last() == mods[i as int]);
            }
            assert(fold_modifiers(m, mods.take(i + 1), self.raw_value, base, fuel) is Some);
            if !base || md.base {
                assert(operand_value(m, md.value, fuel) is Some);
                let operand: i64 = match md.value {
                    Value::Value(x) => x,
                    Value::Attribute(k) => {
                        assert(fuel > 0);
                        match attributes.value_at(&k, Ghost((fuel - 1) as nat)) {
                            Some(x) => x,
                            None => 0,
                        }
                    },
                };
                assert(md.op.is_pure());
                value = md.op.apply(value, operand);
            }
            i += 1;
        }
        assert(mods.take(i as int) =~= mods);
        self.attribute.sanitize_value(value)
    }

    /// The full value at `fuel` levels of references, through the memo cell:
    /// a held value is returned as it is, else the value is computed and kept.
    pub(crate) fn memo_value(&self, attributes: &AttributeMap<F>, Ghost(fuel): Ghost<nat>) -> (r:
        i64)
        requires
            attributes.wf(),
            modifiers_pure(self@.modifiers),
            fuel <= fuel_bound(attributes@),
            instance_value(attributes@, self@, false, fuel) is Some,
            self.memo() == instance_value(attributes@, self@, false, fuel_bound(attributes@)),
        ensures
            Some(r) == instance_value(attributes@, self@, false, fuel),
        decreases fuel, 1nat,
    {
        proof {
            lemma_fold_fuel(
                attributes@,
                self@.modifiers,
                self@.raw_value,
                false,
                fuel,
                fuel_bound(attributes@),
            );
        }
        match self.cached() {
            Some(v) => v,
            None => {
                let v = self.compute_value(attributes, false, Ghost(fuel));
                self.store(v);
                v
            },
        }
    }

    /// The full value against `attributes`: what the memo cell holds, returned
    /// as it is, or else the value computed anew and returned; it is stored in
    /// the cell when the cell is made for it. A change to the instance empties
    /// the cell, and only the collection that owns an instance makes its cell
    /// anew, since only it knows which collection state the value belongs to.
    pub fn value(&self, attributes: &AttributeMap<F>) -> (r: i64)
        requires
            attributes.wf(),
            modifiers_pure(self@.modifiers),
            instance_value(attributes@, self@, false, fuel_bound(attributes@)) is Some,
            self.memo() is None || self.memo() == instance_value(
                attributes@,
                self@,
                false,
                fuel_bound(attributes@),
            ),
        ensures
            Some(r) == instance_value(attributes@, self@, false, fuel_bound(attributes@)),
    {
        let (ready, held) = self.read_cell();
        match held {
            Some(v) => v,
            None => {
                let v = self.compute_value(attributes, false, Ghost(fuel_bound(attributes@)));
                if ready {
                    self.store(v);
                }
                v
            },
        }
    }

    /// The base value against `attributes`: only base modifiers are folded.
    /// It is computed anew on every call.
    pub fn base_value(&self, attributes: &AttributeMap<F>) -> (r: i64)
        requires
            attributes.wf(),
            modifiers_pure(self@.modifiers),
            instance_value(attributes@, self@, true, fuel_bound(attributes@)) is Some,
        ensures
            Some(r) == instance_value(attributes@, self@, true, fuel_bound(attributes@)),
    {
        self.compute_value(attributes, true, Ghost(fuel_bound(attributes@)))
    }

    /// Whether some modifier reads the attribute `attr`.
    pub fn depends_on(&self, attr: &u64) -> (r: bool)
        ensures
            r == mods_read(self@.modifiers, *attr),
    {
        let mut i: usize = 0;
        while i < self.modifiers.len()
            invariant
                0 <= i <= self.modifiers@.len(),
                forall|j: int| 0 <= j < i ==> self.modifiers@[j].1.value != Value::Attribute(*attr),
            decreases self.modifiers@.len() - i,
        {
            if self.modifiers[i].1.value.is_attribute(attr) {
                return true;
            }
            i += 1;
        }
        false
    }
}

impl<F: CloneableFn> From<Attribute> for AttributeInstance<F> {
    /// A fresh instance of the attribute.
    fn from(attribute: Attribute) -> (r: Self)
        ensures
            r@ == (InstanceModel {
                attribute,
                modifiers: Seq::<(u64, AttributeModifier<F>)>::empty(),
                raw_value: attribute.spec_default_value(),
            }),
            r.memo() == Some(attribute.spec_sanitize_value(attribute.spec_default_value())),
    {
        AttributeInstance::new(attribute)
    }
}

impl<F: CloneableFn> vstd::std_specs::convert::FromSpecImpl<Attribute> for AttributeInstance<F> {
    open spec fn obeys_from_spec() -> bool {
        false
    }

    open spec fn from_spec(v: Attribute) -> Self {
        arbitrary()
    }
}

impl<F: CloneableFn> From<AttributeBuilder<F>> for AttributeInstance<F> {
    /// The instance the builder describes.
    fn from(builder: AttributeBuilder<F>) -> (r: Self)
        ensures
            r@ == builder@,
            r.memo() is None,
    {
        builder.build()
    }
}

impl<F: CloneableFn> vstd::std_specs::convert::FromSpecImpl<AttributeBuilder<F>> for AttributeInstance<F> {
    open spec fn obeys_from_spec() -> bool {
        false
    }

    open spec fn from_spec(v: AttributeBuilder<F>) -> Self {
        arbitrary()
    }
}

impl<F: CloneableFn> Default for AttributeInstance<F> {
    /// An instance of a plain attribute whose default is zero.
    fn default() -> (r: Self)
        ensures
            r@ == (InstanceModel {
                attribute: Attribute::Value(0),
                modifiers: Seq::<(u64, AttributeModifier<F>)>::empty(),
                raw_value: 0,
            }),
            r.memo() == Some(0i64),
    {
        AttributeInstance::new(Attribute::Value(0))
    }
}

} // verus!
