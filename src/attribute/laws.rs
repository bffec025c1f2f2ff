//! General properties of evaluation and of the collection's operations.
use vstd::prelude::*;
use crate::attribute::eval::{
    InstanceModel, base_value, fold_modifiers, fuel_bound, full_value, instance_value,
    lemma_fold_fuel, operand_value,
};
use crate::attribute::instance::{has_key, lemma_without_absent_key, with_modifier};
use crate::attribute::map::strip;
use crate::attribute::modifier::{AttributeModifier, CloneableFn, Operation, Value, fits_i64};

verus! {

/// A reference to an attribute the collection does not know reads as zero,
/// while a query for that attribute reports it absent.
pub proof fn lemma_unknown_key<F: CloneableFn>(m: Map<u64, InstanceModel<F>>, unknown: u64, fuel: nat)
    requires
        !m.contains_key(unknown),
        fuel > 0,
    ensures
        full_value(m, unknown) is None,
        base_value(m, unknown) is None,
        operand_value(m, Value::Attribute(unknown), fuel) == Some(0i64),
{
}

/// With one base modifier adding attribute `x` and then one ordinary modifier
/// adding 2, the base value folds only the first and the full value both:
/// base = sanitize(raw + x), full = sanitize(raw + x + 2), where x reads as
/// its full value (zero when unknown).
pub proof fn lemma_base_and_full<F: CloneableFn>(
    m: Map<u64, InstanceModel<F>>,
    k: u64,
    x: u64,
    key1: u64,
    key2: u64,
)
    requires
        m.contains_key(k),
        m[k].modifiers == seq![
            (key1, AttributeModifier::<F> { value: Value::Attribute(x), op: Operation::Add, base: true }),
            (key2, AttributeModifier::<F> { value: Value::Value(2), op: Operation::Add, base: false }),
        ],
        full_value(m, k) is Some,
    ensures
        ({
            let vx: int = if m.contains_key(x) {
                full_value(m, x)->0 as int
            } else {
                0
            };
            let raw = m[k].raw_value as int;
            &&& fits_i64(raw + vx)
            &&& fits_i64(raw + vx + 2)
            &&& base_value(m, k) == Some(m[k].attribute.spec_sanitize_value((raw + vx) as i64))
            &&& full_value(m, k) == Some(m[k].attribute.spec_sanitize_value((raw + vx + 2) as i64))
        }),
{
    let mods = m[k].modifiers;
    let raw = m[k].raw_value;
    let f = fuel_bound(m);
    let first = mods.drop_last();
    assert(first.drop_last() =~= Seq::<(u64, AttributeModifier<F>)>::empty());
    assert(first =~= seq![mods[0]]);
    assert(fold_modifiers(m, mods, raw, false, f) is Some);
    assert(fold_modifiers(m, first, raw, false, f) is Some);
    assert(operand_value(m, Value::Attribute(x), f) is Some);
    if m.contains_key(x) {
        let fx = (f - 1) as nat;
        assert(instance_value(m, m[x], false, fx) is Some);
        lemma_fold_fuel(m, m[x].modifiers, m[x].raw_value, false, fx, f);
        assert(instance_value(m, m[x], false, f) == instance_value(m, m[x], false, fx));
    }
    let empty = Seq::<(u64, AttributeModifier<F>)>::empty();
    assert(first.last() == mods[0]);
    assert(mods.last() == mods[1]);
    assert(fold_modifiers(m, empty, raw, true, f) == Some(raw));
    assert(fold_modifiers(m, empty, raw, false, f) == Some(raw));
    let ov = operand_value(m, Value::Attribute(x), f)->0;
    assert(fold_modifiers(m, first, raw, false, f) == Operation::<F>::Add.spec_apply(raw, ov));
    assert(fold_modifiers(m, first, raw, true, f) == Operation::<F>::Add.spec_apply(raw, ov));
    assert(fold_modifiers(m, mods, raw, true, f) == fold_modifiers(m, first, raw, true, f));
    let acc = fold_modifiers(m, first, raw, false, f)->0;
    assert(operand_value(m, Value::Value(2), f) == Some(2i64));
    assert(fold_modifiers(m, mods, raw, false, f) == Operation::<F>::Add.spec_apply(acc, 2));
}

/// Filing a modifier under a key the list does not use, then dropping the
/// modifiers under that key, gives back the instance as it was: bulk removal
/// of a tag reverts each tagged attribute to its state before the tag.
pub proof fn lemma_strip_reverts_tag<F>(inst: InstanceModel<F>, tag: u64, modifier: AttributeModifier<F>)
    requires
        !has_key(inst.modifiers, tag),
    ensures
        with_modifier(inst.modifiers, tag, modifier) == inst.modifiers.push((tag, modifier)),
        strip(InstanceModel { modifiers: with_modifier(inst.modifiers, tag, modifier), ..inst }, tag)
            == inst,
{
    let pushed = inst.modifiers.push((tag, modifier));
    assert(pushed.drop_last() =~= inst.modifiers);
    lemma_without_absent_key(inst.modifiers, tag);
}

/// `t` is `u` with one more modifier, filed under `tag`, at the end.
pub open spec fn tagged_last<F>(t: InstanceModel<F>, u: InstanceModel<F>, tag: u64) -> bool {
    &&& t.attribute == u.attribute
    &&& t.raw_value == u.raw_value
    &&& t.modifiers.len() == u.modifiers.len() + 1
    &&& t.modifiers.drop_last() == u.modifiers
    &&& t.modifiers.last().0 == tag
}

/// Dropping a tag from every attribute of a collection in which each tagged
/// attribute received its one tagged modifier last gives back the collection
/// as it was before tagging, and with it every full and base value.
pub proof fn lemma_remove_tag_reverts_values<F: CloneableFn>(
    untagged: Map<u64, InstanceModel<F>>,
    tagged: Map<u64, InstanceModel<F>>,
    stripped: Map<u64, InstanceModel<F>>,
    tag: u64,
)
    requires
        tagged.dom() == untagged.dom(),
        stripped.dom() == tagged.dom(),
        forall|k: u64| #[trigger] untagged.contains_key(k) ==> !has_key(untagged[k].modifiers, tag),
        forall|k: u64| #[trigger]
            tagged.contains_key(k) ==> tagged[k] == untagged[k] || tagged_last(tagged[k], untagged[k], tag),
        forall|k: u64| #[trigger] tagged.contains_key(k) ==> stripped[k] == strip(tagged[k], tag),
    ensures
        stripped == untagged,
        forall|k: u64| full_value(stripped, k) == full_value(untagged, k),
        forall|k: u64| base_value(stripped, k) == base_value(untagged, k),
{
    assert forall|k: u64| #[trigger] stripped.contains_key(k) implies stripped[k] == untagged[k] by {
        if tagged[k] == untagged[k] {
            lemma_without_absent_key(untagged[k].modifiers, tag);
        } else {
            let md = tagged[k].modifiers.last().1;
            assert(tagged[k].modifiers =~= untagged[k].modifiers.push((tag, md)));
            lemma_strip_reverts_tag(untagged[k], tag, md);
        }
    }
    assert(stripped =~= untagged);
}

} // verus!
