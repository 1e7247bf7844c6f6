//! The relaxed equality that decides which entities share generated code.
use vstd::prelude::*;
use crate::cluster::Cluster;
use crate::enumerated_values::same_enumerated_values;
use crate::field::{Field, FieldModel};
use crate::peripheral::{Peripheral, PeripheralModel};
use crate::register::{Register, RegisterModel};
use crate::register_or_cluster::{lemma_models, RegisterOrCluster, RegisterOrClusterModel};

verus! {

/// Options of the relaxed equality test.
#[derive(Clone, Copy, Debug, PartialEq, Eq, Structural)]
pub struct IsSimilarOptions {
    pub ignore_fields: bool,
}

impl IsSimilarOptions {
    pub fn new() -> (r: IsSimilarOptions)
        ensures
            !r.ignore_fields,
    {
        IsSimilarOptions { ignore_fields: false }
    }

    pub fn ignore_fields(&self) -> (r: bool)
        ensures
            r == self.ignore_fields,
    {
        self.ignore_fields
    }

    pub fn set_ignore_fields(&mut self, value: bool)
        ensures
            final(self).ignore_fields == value,
    {
        self.ignore_fields = value;
    }
}

/// A relaxed equality test: it ignores descriptions and reset values.
pub trait IsSimilar<T> {
    spec fn similar_to(&self, other: &T, ignore_fields: bool) -> bool;

    fn is_similar(&self, other: &T, options: &IsSimilarOptions) -> (r: bool)
        ensures
            r == self.similar_to(other, options.ignore_fields),
    ;
}

/// Two fields are similar when their layouts and values are equal.
pub open spec fn field_similar(a: FieldModel, b: FieldModel) -> bool {
    &&& a.name == b.name
    &&& a.bit_range == b.bit_range
    &&& a.access == b.access
    &&& a.modified_write_values == b.modified_write_values
    &&& a.read_action == b.read_action
    &&& a.enumerated_values == b.enumerated_values
}

/// Two optional field lists are similar when both are absent, or both are
/// present, of one length, and similar item by item.
pub open spec fn fields_similar(a: Option<Seq<FieldModel>>, b: Option<Seq<FieldModel>>) -> bool {
    match (a, b) {
        (None, None) => true,
        (Some(x), Some(y)) => x.len() == y.len() && forall|i: int|
            0 <= i < x.len() ==> field_similar(#[trigger] x[i], y[i]),
        _ => false,
    }
}

/// Two registers are similar when their names, offsets and properties are
/// equal, and so are their field layouts unless those are ignored.
pub open spec fn register_similar(a: RegisterModel, b: RegisterModel, ignore_fields: bool) -> bool {
    &&& a.name == b.name
    &&& a.address_offset == b.address_offset
    &&& a.register_properties == b.register_properties
    &&& (ignore_fields || fields_similar(a.fields, b.fields))
}

/// Two entries are similar when both are similar registers, or both are
/// clusters with equal names, offsets and properties and similar entries.
pub open spec fn rc_similar(a: RegisterOrClusterModel, b: RegisterOrClusterModel, ignore_fields: bool) -> bool
    decreases a,
{
    match (a, b) {
        (RegisterOrClusterModel::Register(x), RegisterOrClusterModel::Register(y)) => register_similar(
            x,
            y,
            ignore_fields,
        ),
        (RegisterOrClusterModel::Cluster(x), RegisterOrClusterModel::Cluster(y)) => {
            &&& x.name == y.name
            &&& x.address_offset == y.address_offset
            &&& x.register_properties == y.register_properties
            &&& x.registers.len() == y.registers.len()
            &&& forall|i: int|
                0 <= i < x.registers.len() ==> rc_similar(
                    #[trigger] x.registers[i],
                    y.registers[i],
                    ignore_fields,
                )
        },
        _ => false,
    }
}

/// Two entry lists are similar when of one length and similar item by item.
pub open spec fn rcs_similar(a: Seq<RegisterOrClusterModel>, b: Seq<RegisterOrClusterModel>, ignore_fields: bool) -> bool {
    a.len() == b.len() && forall|i: int| 0 <= i < a.len() ==> rc_similar(#[trigger] a[i], b[i], ignore_fields)
}

/// Two peripherals are similar when one names the other as its source, or
/// their register lists are both absent, or both present and similar.
pub open spec fn peripheral_similar(a: PeripheralModel, b: PeripheralModel, ignore_fields: bool) -> bool {
    ||| a.derived_from == Some(b.name)
    ||| b.derived_from == Some(a.name)
    ||| match (a.registers, b.registers) {
        (None, None) => true,
        (Some(x), Some(y)) => rcs_similar(x, y, ignore_fields),
        _ => false,
    }
}

impl Field {
    pub fn similar(&self, other: &Field) -> (r: bool)
        ensures
            r == field_similar(self.deep_view(), other.deep_view()),
    {
        self.name == other.name && self.bit_range == other.bit_range && self.access == other.access
            && self.modified_write_values == other.modified_write_values && self.read_action
            == other.read_action && same_enumerated_values(
            &self.enumerated_values,
            &other.enumerated_values,
        )
    }
}

fn same_fields(a: &Option<Vec<Field>>, b: &Option<Vec<Field>>) -> (r: bool)
    ensures
        r == fields_similar(a.deep_view(), b.deep_view()),
{
    match (a, b) {
        (Some(x), Some(y)) => {
            if x.len() != y.len() {
                return false;
            }
            let mut i: usize = 0;
            while i < x.len()
                invariant
                    i <= x.len(),
                    x.len() == y.len(),
                    a.deep_view() == Some(x.deep_view()),
                    b.deep_view() == Some(y.deep_view()),
                    forall|k: int| 0 <= k < i ==> field_similar(#[trigger] x.deep_view()[k], y.deep_view()[k]),
                decreases x.len() - i,
            {
                if !x[i].similar(&y[i]) {
                    assert(!field_similar(x.deep_view()[i as int], y.deep_view()[i as int]));
                    return false;
                }
                i = i + 1;
            }
            true
        },
        (None, None) => true,
        _ => false,
    }
}

impl Register {
    pub fn similar(&self, other: &Register, ignore_fields: bool) -> (r: bool)
        ensures
            r == register_similar(self.deep_view(), other.deep_view(), ignore_fields),
    {
        self.name == other.name && self.address_offset == other.address_offset
            && self.register_properties == other.register_properties && (ignore_fields
            || same_fields(&self.fields, &other.fields))
    }
}

/// Whether two entry lists are similar.
pub fn same_entries(a: &Vec<RegisterOrCluster>, b: &Vec<RegisterOrCluster>, ignore_fields: bool) -> (r: bool)
    ensures
        r == rcs_similar(a.deep_view(), b.deep_view(), ignore_fields),
    decreases a,
{
    if a.len() != b.len() {
        return false;
    }
    let mut i: usize = 0;
    while i < a.len()
        invariant
            i <= a.len(),
            a.len() == b.len(),
            forall|k: int| 0 <= k < i ==> rc_similar(#[trigger] a.deep_view()[k], b.deep_view()[k], ignore_fields),
        decreases a.len() - i,
    {
        proof {
            assert(decreases_to!(a => a@[i as int]));
        }
        if !a[i].similar(&b[i], ignore_fields) {
            assert(!rc_similar(a.deep_view()[i as int], b.deep_view()[i as int], ignore_fields));
            return false;
        }
        i = i + 1;
    }
    true
}

impl RegisterOrCluster {
    pub fn similar(&self, other: &RegisterOrCluster, ignore_fields: bool) -> (r: bool)
        ensures
            r == rc_similar(self.deep_view(), other.deep_view(), ignore_fields),
        decreases self,
    {
        match (self, other) {
            (RegisterOrCluster::Register(x), RegisterOrCluster::Register(y)) => x.similar(y, ignore_fields),
            (RegisterOrCluster::Cluster(x), RegisterOrCluster::Cluster(y)) => {
                proof {
                    lemma_models(x.registers);
                    lemma_models(y.registers);
                }
                x.name == y.name && x.address_offset == y.address_offset && x.register_properties
                    == y.register_properties && same_entries(&x.registers, &y.registers, ignore_fields)
            },
            _ => false,
        }
    }
}

impl Peripheral {
    pub fn similar(&self, other: &Peripheral, ignore_fields: bool) -> (r: bool)
        ensures
            r == peripheral_similar(self.deep_view(), other.deep_view(), ignore_fields),
    {
        let names_other = match &self.derived_from {
            Some(d) => *d == other.name,
            None => false,
        };
        let named_by_other = match &other.derived_from {
            Some(d) => *d == self.name,
            None => false,
        };
        if names_other || named_by_other {
            return true;
        }
        match (&self.registers, &other.registers) {
            (None, None) => true,
            (Some(x), Some(y)) => same_entries(x, y, ignore_fields),
            _ => false,
        }
    }
}

impl IsSimilar<Field> for Field {
    open spec fn similar_to(&self, other: &Field, ignore_fields: bool) -> bool {
        ignore_fields || field_similar(self.deep_view(), other.deep_view())
    }

    fn is_similar(&self, other: &Field, options: &IsSimilarOptions) -> (r: bool) {
        options.ignore_fields || self.similar(other)
    }
}

impl IsSimilar<Register> for Register {
    open spec fn similar_to(&self, other: &Register, ignore_fields: bool) -> bool {
        register_similar(self.deep_view(), other.deep_view(), ignore_fields)
    }

    fn is_similar(&self, other: &Register, options: &IsSimilarOptions) -> (r: bool) {
        self.similar(other, options.ignore_fields)
    }
}

impl IsSimilar<Cluster> for Cluster {
    open spec fn similar_to(&self, other: &Cluster, ignore_fields: bool) -> bool {
        rc_similar(
            RegisterOrClusterModel::Cluster(self.deep_view()),
            RegisterOrClusterModel::Cluster(other.deep_view()),
            ignore_fields,
        )
    }

    fn is_similar(&self, other: &Cluster, options: &IsSimilarOptions) -> (r: bool) {
        proof {
            lemma_models(self.registers);
            lemma_models(other.registers);
        }
        self.name == other.name && self.address_offset == other.address_offset
            && self.register_properties == other.register_properties && same_entries(
            &self.registers,
            &other.registers,
            options.ignore_fields,
        )
    }
}

impl IsSimilar<RegisterOrCluster> for RegisterOrCluster {
    open spec fn similar_to(&self, other: &RegisterOrCluster, ignore_fields: bool) -> bool {
        rc_similar(self.deep_view(), other.deep_view(), ignore_fields)
    }

    fn is_similar(&self, other: &RegisterOrCluster, options: &IsSimilarOptions) -> (r: bool) {
        self.similar(other, options.ignore_fields)
    }
}

impl IsSimilar<Peripheral> for Peripheral {
    open spec fn similar_to(&self, other: &Peripheral, ignore_fields: bool) -> bool {
        peripheral_similar(self.deep_view(), other.deep_view(), ignore_fields)
    }

    fn is_similar(&self, other: &Peripheral, options: &IsSimilarOptions) -> (r: bool) {
        self.similar(other, options.ignore_fields)
    }
}

} // verus!
