//! What an attribute's value is: the spec-level evaluation that the
//! executable code and its memo cells are proved against.
use vstd::prelude::*;
use crate::attribute::Attribute;
use crate::attribute::modifier::{AttributeModifier, Value};

verus! {

/// What an attribute instance holds apart from its memo cell.
pub struct InstanceModel<F> {
    pub attribute: Attribute,
    pub modifiers: Seq<(u64, AttributeModifier<F>)>,
    pub raw_value: i64,
}

/// Every operation in the modifier list is pure.
pub open spec fn modifiers_pure<F: Fn(i64, i64) -> i64>(
    mods: Seq<(u64, AttributeModifier<F>)>,
) -> bool {
    forall|i: int| 0 <= i < mods.len() ==> (#[trigger] mods[i]).1.op.is_pure()
}

/// Every operation of every instance in the collection is pure.
pub open spec fn all_pure<F: Fn(i64, i64) -> i64>(m: Map<u64, InstanceModel<F>>) -> bool {
    forall|k: u64| m.contains_key(k) ==> modifiers_pure(#[trigger] m[k].modifiers)
}

/// Some modifier in the list reads attribute `k`.
pub open spec fn mods_read<F>(mods: Seq<(u64, AttributeModifier<F>)>, k: u64) -> bool {
    exists|i: int| 0 <= i < mods.len() && (#[trigger] mods[i]).1.value == Value::Attribute(k)
}

/// No modifier in the list reads an attribute of `d`.
pub open spec fn reads_none_of<F>(mods: Seq<(u64, AttributeModifier<F>)>, d: Set<u64>) -> bool {
    forall|k: u64| d.contains(k) ==> !mods_read(mods, k)
}

/// Every attribute outside `d` reads no attribute of `d`: `d` holds all that
/// depend on its members, directly or not.
pub open spec fn closed_under_dependents<F>(m: Map<u64, InstanceModel<F>>, d: Set<u64>) -> bool {
    forall|j: u64| m.contains_key(j) && !d.contains(j) ==> reads_none_of(#[trigger] m[j].modifiers, d)
}

/// Depth enough for any evaluation that meets no cycle: one more than the
/// number of attributes.
pub open spec fn fuel_bound<F>(m: Map<u64, InstanceModel<F>>) -> nat {
    m.dom().len() + 1
}

/// The left-to-right fold of `mods` over `raw`, each operand resolved against
/// the attributes `m` with `fuel` levels of references left. With `base_only`,
/// modifiers not marked base are passed over. `None` where a reference chain
/// outruns the fuel (a cycle) or an operation leaves `i64`.
pub open spec fn fold_modifiers<F: Fn(i64, i64) -> i64>(
    m: Map<u64, InstanceModel<F>>,
    mods: Seq<(u64, AttributeModifier<F>)>,
    raw: i64,
    base_only: bool,
    fuel: nat,
) -> Option<i64>
    decreases fuel, mods.len(),
{
    if mods.len() == 0 {
        Some(raw)
    } else {
        match fold_modifiers(m, mods.drop_last(), raw, base_only, fuel) {
            None => None,
            Some(acc) => {
                let md = mods.last().1;
                if base_only && !md.base {
                    Some(acc)
                } else {
                    match operand_value(m, md.value, fuel) {
                        None => None,
                        Some(b) => md.op.spec_apply(acc, b),
                    }
                }
            },
        }
    }
}

/// An operand's value: a literal as it is; a reference to an attribute that
/// `m` does not hold is zero; any other reference is that attribute's full value.
pub open spec fn operand_value<F: Fn(i64, i64) -> i64>(
    m: Map<u64, InstanceModel<F>>,
    v: Value,
    fuel: nat,
) -> Option<i64>
    decreases fuel, 0nat,
{
    match v {
        Value::Value(x) => Some(x),
        Value::Attribute(k) => if fuel == 0 {
            None
        } else if !m.contains_key(k) {
            Some(0)
        } else {
            instance_value(m, m[k], false, (fuel - 1) as nat)
        },
    }
}

/// The value of one instance against the attributes `m`: its modifiers folded
/// over its raw value, then sanitized by its template.
pub open spec fn instance_value<F: Fn(i64, i64) -> i64>(
    m: Map<u64, InstanceModel<F>>,
    inst: InstanceModel<F>,
    base_only: bool,
    fuel: nat,
) -> Option<i64>
    decreases fuel, inst.modifiers.len() + 1,
{
    match fold_modifiers(m, inst.modifiers, inst.raw_value, base_only, fuel) {
        None => None,
        Some(v) => Some(inst.attribute.spec_sanitize_value(v)),
    }
}

/// The full value of attribute `k`; `None` where `m` does not hold it or its
/// evaluation is undefined.
pub open spec fn full_value<F: Fn(i64, i64) -> i64>(m: Map<u64, InstanceModel<F>>, k: u64) -> Option<i64> {
    if m.contains_key(k) {
        instance_value(m, m[k], false, fuel_bound(m))
    } else {
        None
    }
}

/// The base value of attribute `k`: only base modifiers are folded; their
/// references still read full values.
pub open spec fn base_value<F: Fn(i64, i64) -> i64>(m: Map<u64, InstanceModel<F>>, k: u64) -> Option<i64> {
    if m.contains_key(k) {
        instance_value(m, m[k], true, fuel_bound(m))
    } else {
        None
    }
}

/// More fuel does not change a defined fold.
pub proof fn lemma_fold_fuel<F: Fn(i64, i64) -> i64>(
    m: Map<u64, InstanceModel<F>>,
    mods: Seq<(u64, AttributeModifier<F>)>,
    raw: i64,
    base_only: bool,
    f1: nat,
    f2: nat,
)
    requires
        f1 <= f2,
        fold_modifiers(m, mods, raw, base_only, f1) is Some,
    ensures
        fold_modifiers(m, mods, raw, base_only, f2) == fold_modifiers(m, mods, raw, base_only, f1),
    decreases f1, mods.len(),
{
    if mods.len() > 0 {
        lemma_fold_fuel(m, mods.drop_last(), raw, base_only, f1, f2);
        let md = mods.last().1;
        if !(base_only && !md.base) {
            if let Value::Attribute(k) = md.value {
                assert(operand_value(m, md.value, f1) is Some);
                if m.contains_key(k) {
                    assert(f1 > 0);
                    assert(instance_value(m, m[k], false, (f1 - 1) as nat) is Some);
                    lemma_fold_fuel(
                        m,
                        m[k].modifiers,
                        m[k].raw_value,
                        false,
                        (f1 - 1) as nat,
                        (f2 - 1) as nat,
                    );
                    assert(instance_value(m, m[k], false, (f2 - 1) as nat) == instance_value(
                        m,
                        m[k],
                        false,
                        (f1 - 1) as nat,
                    ));
                }
                assert(operand_value(m, md.value, f2) == operand_value(m, md.value, f1));
            }
        }
    }
}

/// A defined fold is defined on every prefix.
pub proof fn lemma_fold_prefix<F: Fn(i64, i64) -> i64>(
    m: Map<u64, InstanceModel<F>>,
    mods: Seq<(u64, AttributeModifier<F>)>,
    raw: i64,
    base_only: bool,
    fuel: nat,
    i: int,
)
    requires
        0 <= i <= mods.len(),
        fold_modifiers(m, mods, raw, base_only, fuel) is Some,
    ensures
        fold_modifiers(m, mods.take(i), raw, base_only, fuel) is Some,
    decreases mods.len(),
{
    if i == mods.len() {
        assert(mods.take(i) =~= mods);
    } else {
        assert(mods.drop_last().take(i) =~= mods.take(i));
        lemma_fold_prefix(m, mods.drop_last(), raw, base_only, fuel, i);
    }
}

/// Changing only attributes of `d`, where `d` holds all their dependents,
/// leaves the fold of any modifier list that reads nothing of `d` as it was.
pub proof fn lemma_fold_frame<F: Fn(i64, i64) -> i64>(
    m1: Map<u64, InstanceModel<F>>,
    m2: Map<u64, InstanceModel<F>>,
    d: Set<u64>,
    mods: Seq<(u64, AttributeModifier<F>)>,
    raw: i64,
    base_only: bool,
    fuel: nat,
)
    requires
        m1.dom() == m2.dom(),
        forall|j: u64| m1.contains_key(j) && !d.contains(j) ==> m1[j] == m2[j],
        closed_under_dependents(m2, d),
        reads_none_of(mods, d),
    ensures
        fold_modifiers(m1, mods, raw, base_only, fuel) == fold_modifiers(m2, mods, raw, base_only, fuel),
    decreases fuel, mods.len(),
{
    if mods.len() > 0 {
        let rest = mods.drop_last();
        assert forall|k: u64| d.contains(k) implies !mods_read(rest, k) by {
            if mods_read(rest, k) {
                let i = choose|i: int| 0 <= i < rest.len() && (#[trigger] rest[i]).1.value == Value::Attribute(k);
                assert(0 <= i < mods.len() && mods[i] == rest[i]);
            }
        }
        lemma_fold_frame(m1, m2, d, rest, raw, base_only, fuel);
        let md = mods.last().1;
        if let Value::Attribute(k) = md.value {
            assert(mods[mods.len() - 1] == mods.last());
            assert(!d.contains(k));
            if fuel > 0 && m1.contains_key(k) {
                assert(m1[k] == m2[k]);
                lemma_fold_frame(
                    m1,
                    m2,
                    d,
                    m2[k].modifiers,
                    m2[k].raw_value,
                    false,
                    (fuel - 1) as nat,
                );
                assert(instance_value(m1, m1[k], false, (fuel - 1) as nat) == instance_value(
                    m2,
                    m2[k],
                    false,
                    (fuel - 1) as nat,
                ));
            }
            assert(operand_value(m1, md.value, fuel) == operand_value(m2, md.value, fuel));
        }
    }
}

/// The full values of attributes outside `d` survive a change confined to `d`
/// when `d` holds all dependents of its members.
pub proof fn lemma_full_value_frame<F: Fn(i64, i64) -> i64>(
    m1: Map<u64, InstanceModel<F>>,
    m2: Map<u64, InstanceModel<F>>,
    d: Set<u64>,
    k: u64,
)
    requires
        m1.dom() == m2.dom(),
        forall|j: u64| m1.contains_key(j) && !d.contains(j) ==> m1[j] == m2[j],
        closed_under_dependents(m2, d),
        !d.contains(k),
    ensures
        full_value(m1, k) == full_value(m2, k),
{
    if m1.contains_key(k) {
        lemma_fold_frame(m1, m2, d, m2[k].modifiers, m2[k].raw_value, false, fuel_bound(m2));
    }
}

} // verus!
