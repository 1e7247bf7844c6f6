use vstd::prelude::*;
use crate::derivation::{
    lemma_chain_in_scope,
    lemma_resolve_without_references,
    resolve_scope,
    resolve_siblings,
    unique_names,
    Derivable,
};
use crate::register_properties_group::first_some;
use crate::register_or_cluster::{lemma_rcs_free, rc_free, RegisterOrCluster};
use crate::errors::{Error, ErrorModel};
use crate::interrupt::{Interrupt, InterruptModel};
use crate::peripheral::{Peripheral, PeripheralModel};
use crate::register_properties_group::RegisterPropertiesGroup;
use crate::types::ScaledNonNegativeInteger;
use crate::utils::Duplicate;

verus! {

/// A device: the root of a description.
#[derive(Clone, Debug)]
pub struct Device {
    pub vendor: Option<String>,
    pub vendor_id: Option<String>,
    pub name: String,
    pub series: Option<String>,
    pub version: String,
    pub description: String,
    pub license_text: Option<String>,
    pub header_system_filename: Option<String>,
    pub header_definition_prefix: Option<String>,
    pub address_unit_bits: ScaledNonNegativeInteger,
    pub width: ScaledNonNegativeInteger,
    pub register_properties: RegisterPropertiesGroup,
    pub peripherals: Vec<Peripheral>,
}

/// Mathematical model of a [`Device`].
pub ghost struct DeviceModel {
    pub vendor: Option<Seq<char>>,
    pub vendor_id: Option<Seq<char>>,
    pub name: Seq<char>,
    pub series: Option<Seq<char>>,
    pub version: Seq<char>,
    pub description: Seq<char>,
    pub license_text: Option<Seq<char>>,
    pub header_system_filename: Option<Seq<char>>,
    pub header_definition_prefix: Option<Seq<char>>,
    pub address_unit_bits: ScaledNonNegativeInteger,
    pub width: ScaledNonNegativeInteger,
    pub register_properties: RegisterPropertiesGroup,
    pub peripherals: Seq<PeripheralModel>,
}

impl DeepView for Device {
    type V = DeviceModel;

    open spec fn deep_view(&self) -> DeviceModel {
        DeviceModel {
            vendor: self.vendor.deep_view(),
            vendor_id: self.vendor_id.deep_view(),
            name: self.name@,
            series: self.series.deep_view(),
            version: self.version@,
            description: self.description@,
            license_text: self.license_text.deep_view(),
            header_system_filename: self.header_system_filename.deep_view(),
            header_definition_prefix: self.header_definition_prefix.deep_view(),
            address_unit_bits: self.address_unit_bits,
            width: self.width,
            register_properties: self.register_properties,
            peripherals: self.peripherals.deep_view(),
        }
    }
}

/// Each peripheral of a list with the references inside it resolved, in
/// order; the first failure stops.
pub open spec fn peripherals_resolved(s: Seq<PeripheralModel>) -> Result<Seq<PeripheralModel>, ErrorModel>
    decreases s.len(),
{
    if s.len() == 0 {
        Ok(Seq::empty())
    } else {
        match peripherals_resolved(s.drop_last()) {
            Err(e) => Err(e),
            Ok(p) => match s.last().resolved() {
                Err(e) => Err(e),
                Ok(x) => Ok(p.push(x)),
            },
        }
    }
}

/// The peripherals of a device after resolving every `derivedFrom` reference:
/// those inside each peripheral, then those among the peripherals.
pub open spec fn device_resolved(s: Seq<PeripheralModel>) -> Result<Seq<PeripheralModel>, ErrorModel> {
    match peripherals_resolved(s) {
        Err(e) => Err(e),
        Ok(t) => resolve_scope::<Peripheral>(t),
    }
}

/// The peripherals of a device after the cascade of its register properties.
pub open spec fn device_cascaded(s: Seq<PeripheralModel>, rp: RegisterPropertiesGroup) -> Seq<PeripheralModel> {
    Seq::new(s.len(), |i: int| s[i].cascaded(rp))
}

/// All the interrupts of a list of peripherals, in order.
pub open spec fn all_interrupts(s: Seq<PeripheralModel>) -> Seq<InterruptModel>
    decreases s.len(),
{
    if s.len() == 0 {
        Seq::empty()
    } else {
        all_interrupts(s.drop_last()) + s.last().interrupts
    }
}

proof fn lemma_peripherals_err(s: Seq<PeripheralModel>, k: int)
    requires
        0 <= k <= s.len(),
        peripherals_resolved(s.subrange(0, k)) is Err,
    ensures
        peripherals_resolved(s) == peripherals_resolved(s.subrange(0, k)),
    decreases s.len() - k,
{
    if k < s.len() {
        assert(s.subrange(0, k + 1).drop_last() =~= s.subrange(0, k));
        lemma_peripherals_err(s, k + 1);
    } else {
        assert(s.subrange(0, k) =~= s);
    }
}

impl Device {
    /// Resolves every `derivedFrom` reference of the device. On failure the
    /// device is left as it was.
    pub fn propagate_derived_from(&mut self) -> (r: Result<(), Error>)
        ensures
            match device_resolved(old(self).peripherals.deep_view()) {
                Ok(m) => r is Ok && final(self).deep_view() == (DeviceModel {
                    peripherals: m,
                    ..old(self).deep_view()
                }),
                Err(e) => r is Err && r->Err_0.deep_view() == e && final(self).deep_view() == old(
                    self,
                ).deep_view(),
            },
    {
        let ghost s = self.peripherals.deep_view();
        let mut out: Vec<Peripheral> = Vec::new();
        let mut i: usize = 0;
        assert(s.subrange(0, 0) =~= Seq::<PeripheralModel>::empty());
        assert(out.deep_view() =~= Seq::<PeripheralModel>::empty());
        while i < self.peripherals.len()
            invariant
                i <= self.peripherals.len(),
                s == self.peripherals.deep_view(),
                peripherals_resolved(s.subrange(0, i as int)) == Ok::<Seq<PeripheralModel>, ErrorModel>(
                    out.deep_view(),
                ),
            decreases self.peripherals.len() - i,
        {
            assert(s.subrange(0, i + 1).drop_last() =~= s.subrange(0, i as int));
            let mut p = self.peripherals[i].duplicate();
            match p.propagate_derived_from() {
                Ok(()) => {
                    out.push(p);
                    assert(out.deep_view() =~= peripherals_resolved(
                        s.subrange(0, i as int),
                    )->Ok_0.push(p.deep_view()));
                },
                Err(e) => {
                    proof {
                        lemma_peripherals_err(s, i + 1);
                    }
                    return Err(e);
                },
            }
            i = i + 1;
        }
        assert(s.subrange(0, self.peripherals.len() as int) =~= s);
        resolve_siblings(&mut out)?;
        self.peripherals = out;
        Ok(())
    }

    /// Fills, in every peripheral and down to every register, the register
    /// properties left unset from those of the device.
    pub fn propagate_register_properties(&mut self)
        ensures
            final(self).deep_view() == (DeviceModel {
                peripherals: device_cascaded(
                    old(self).peripherals.deep_view(),
                    old(self).register_properties,
                ),
                ..old(self).deep_view()
            }),
    {
        let ghost s = self.peripherals.deep_view();
        let rp = self.register_properties;
        let mut out: Vec<Peripheral> = Vec::new();
        let mut i: usize = 0;
        while i < self.peripherals.len()
            invariant
                i <= self.peripherals.len(),
                s == self.peripherals.deep_view(),
                rp == self.register_properties,
                out.len() == i,
                forall|k: int| 0 <= k < i ==> #[trigger] out@[k].deep_view() == s[k].cascaded(rp),
            decreases self.peripherals.len() - i,
        {
            let mut p = self.peripherals[i].duplicate();
            p.propagate_register_properties(&rp);
            out.push(p);
            i = i + 1;
        }
        assert(out.deep_view() =~= device_cascaded(s, rp));
        self.peripherals = out;
    }

    /// Each peripheral of the device under its name, in order: the table
    /// through which a peripheral is looked up by name.
    pub fn peripherals_map(&self) -> (r: Vec<(&str, &Peripheral)>)
        ensures
            r.len() == self.peripherals.len(),
            forall|i: int|
                0 <= i < r.len() ==> (#[trigger] r@[i]).0@ == self.peripherals@[i].name@ && *r@[i].1
                    == self.peripherals@[i],
    {
        let mut out: Vec<(&str, &Peripheral)> = Vec::new();
        let mut i: usize = 0;
        while i < self.peripherals.len()
            invariant
                i <= self.peripherals.len(),
                out.len() == i,
                forall|k: int|
                    0 <= k < i ==> (#[trigger] out@[k]).0@ == self.peripherals@[k].name@ && *out@[k].1
                        == self.peripherals@[k],
            decreases self.peripherals.len() - i,
        {
            let p = &self.peripherals[i];
            out.push((p.name.as_str(), p));
            i = i + 1;
        }
        out
    }

    /// Returns the interrupts of all the peripherals of the device.
    pub fn interrupts(&self) -> (r: Vec<&Interrupt>)
        ensures
            r.deep_view() == all_interrupts(self.peripherals.deep_view()),
    {
        let ghost s = self.peripherals.deep_view();
        let mut out: Vec<&Interrupt> = Vec::new();
        let mut i: usize = 0;
        assert(s.subrange(0, 0) =~= Seq::<PeripheralModel>::empty());
        assert(out.deep_view() =~= Seq::<InterruptModel>::empty());
        while i < self.peripherals.len()
            invariant
                i <= self.peripherals.len(),
                s == self.peripherals.deep_view(),
                out.deep_view() == all_interrupts(s.subrange(0, i as int)),
            decreases self.peripherals.len() - i,
        {
            let p = &self.peripherals[i];
            let ghost before = out.deep_view();
            let mut j: usize = 0;
            while j < p.interrupts.len()
                invariant
                    j <= p.interrupts.len(),
                    out.len() == before.len() + j,
                    forall|k: int| 0 <= k < before.len() ==> #[trigger] out@[k].deep_view() == before[k],
                    forall|k: int|
                        0 <= k < j ==> #[trigger] out@[before.len() + k].deep_view()
                            == p.interrupts@[k].deep_view(),
                decreases p.interrupts.len() - j,
            {
                out.push(&p.interrupts[j]);
                j = j + 1;
            }
            assert(s.subrange(0, i + 1).drop_last() =~= s.subrange(0, i as int));
            assert(out.deep_view() =~= before + p.interrupts.deep_view()) by {
                assert forall|k: int| before.len() <= k < out.len() implies #[trigger] out.deep_view()[k]
                    == (before + p.interrupts.deep_view())[k] by {
                    assert(out@[before.len() + (k - before.len())].deep_view() == p.interrupts@[k
                        - before.len()].deep_view());
                }
            }
            i = i + 1;
        }
        assert(s.subrange(0, self.peripherals.len() as int) =~= s);
        out
    }
}

/// Whether no entity of peripheral `p`, down to its fields, names a source.
pub open spec fn peripheral_free(p: PeripheralModel) -> bool {
    p.derived_from is None && (p.registers is Some ==> forall|i: int|
        0 <= i < p.registers->Some_0.len() ==> rc_free(#[trigger] p.registers->Some_0[i]))
}

/// Resolving a peripheral in which nothing names a source changes nothing.
pub proof fn lemma_peripheral_free(p: PeripheralModel)
    requires
        peripheral_free(p),
    ensures
        p.resolved() == Ok::<PeripheralModel, ErrorModel>(p),
{
    if p.registers is Some {
        let rs = p.registers->Some_0;
        lemma_rcs_free(rs, rs.len() as int);
        assert(rs.subrange(0, rs.len() as int) =~= rs);
        assert forall|i: int| 0 <= i < rs.len() implies <RegisterOrCluster as Derivable>::source_of(
            #[trigger] rs[i],
        ) is None by {
            assert(rc_free(rs[i]));
        }
        lemma_resolve_without_references::<RegisterOrCluster>(rs);
        assert(PeripheralModel { registers: Some(rs), ..p } == p);
    }
}

proof fn lemma_peripherals_free(s: Seq<PeripheralModel>, k: int)
    requires
        0 <= k <= s.len(),
        forall|i: int| 0 <= i < s.len() ==> peripheral_free(#[trigger] s[i]),
    ensures
        peripherals_resolved(s.subrange(0, k)) == Ok::<Seq<PeripheralModel>, ErrorModel>(s.subrange(0, k)),
    decreases k,
{
    if k == 0 {
        assert(s.subrange(0, 0) =~= Seq::<PeripheralModel>::empty());
    } else {
        lemma_peripherals_free(s, k - 1);
        assert(s.subrange(0, k).drop_last() =~= s.subrange(0, k - 1));
        assert(s.subrange(0, k).last() == s[k - 1]);
        lemma_peripheral_free(s[k - 1]);
        assert(s.subrange(0, k - 1).push(s[k - 1]) =~= s.subrange(0, k));
    }
}

/// Resolving a device in which nothing names a source, at any level,
/// changes nothing.
pub proof fn lemma_device_without_references(s: Seq<PeripheralModel>)
    requires
        forall|i: int| 0 <= i < s.len() ==> peripheral_free(#[trigger] s[i]),
    ensures
        device_resolved(s) == Ok::<Seq<PeripheralModel>, ErrorModel>(s),
{
    lemma_peripherals_free(s, s.len() as int);
    assert(s.subrange(0, s.len() as int) =~= s);
    assert forall|i: int| 0 <= i < s.len() implies <Peripheral as Derivable>::source_of(#[trigger] s[i])
        is None by {
        assert(peripheral_free(s[i]));
    }
    lemma_resolve_without_references::<Peripheral>(s);
}

/// Merging peripherals is associative.
pub proof fn lemma_peripheral_merge_assoc(a: PeripheralModel, b: PeripheralModel, c: PeripheralModel)
    ensures
        a.merged(b.merged(c)) == a.merged(b).merged(c),
{
    let l = a.merged(b.merged(c));
    let r = a.merged(b).merged(c);
    assert(l.dim_element == r.dim_element);
    assert(l.register_properties == r.register_properties);
    assert(l.address_blocks == r.address_blocks);
    assert(l.registers == r.registers);
}

proof fn lemma_peripherals_resolved_keep(s: Seq<PeripheralModel>)
    requires
        peripherals_resolved(s) is Ok,
    ensures
        peripherals_resolved(s)->Ok_0.len() == s.len(),
        forall|i: int|
            0 <= i < s.len() ==> #[trigger] peripherals_resolved(s)->Ok_0[i] == (PeripheralModel {
                registers: peripherals_resolved(s)->Ok_0[i].registers,
                ..s[i]
            }),
    decreases s.len(),
{
    if s.len() > 0 {
        lemma_peripherals_resolved_keep(s.drop_last());
        let p = peripherals_resolved(s.drop_last())->Ok_0;
        let x = s.last().resolved()->Ok_0;
        assert(x == (PeripheralModel { registers: x.registers, ..s.last() }));
        assert forall|i: int| 0 <= i < s.len() implies #[trigger] peripherals_resolved(s)->Ok_0[i] == (
        PeripheralModel { registers: peripherals_resolved(s)->Ok_0[i].registers, ..s[i] }) by {
            if i < s.len() - 1 {
                assert(s.drop_last()[i] == s[i]);
                assert(peripherals_resolved(s)->Ok_0[i] == p[i]);
            }
        }
    }
}

/// A chain of peripherals of a device, `a` from `b` and `b` from `c`, names
/// unique: once the device is resolved, `a` names no source, and each of its
/// optional attributes is its own, else `b`'s, else `c`'s.
pub proof fn lemma_device_chain(ps: Seq<PeripheralModel>, a: int, b: int, c: int)
    requires
        0 <= a < ps.len(),
        0 <= b < ps.len(),
        0 <= c < ps.len(),
        a != b && b != c && a != c,
        unique_names::<Peripheral>(ps),
        ps[a].derived_from == Some(ps[b].name),
        ps[b].derived_from == Some(ps[c].name),
        ps[c].derived_from is None,
        device_resolved(ps) is Ok,
    ensures
        ({
            let r = device_resolved(ps)->Ok_0[a];
            &&& r.derived_from is None
            &&& r.name == ps[a].name
            &&& r.base_address == ps[a].base_address
            &&& r.version == first_some(ps[a].version, first_some(ps[b].version, ps[c].version))
            &&& r.description == first_some(
                ps[a].description,
                first_some(ps[b].description, ps[c].description),
            )
            &&& r.alternate_peripheral == first_some(
                ps[a].alternate_peripheral,
                first_some(ps[b].alternate_peripheral, ps[c].alternate_peripheral),
            )
            &&& r.group_name == first_some(ps[a].group_name, first_some(ps[b].group_name, ps[c].group_name))
            &&& r.prepend_to_name == first_some(
                ps[a].prepend_to_name,
                first_some(ps[b].prepend_to_name, ps[c].prepend_to_name),
            )
            &&& r.append_to_name == first_some(
                ps[a].append_to_name,
                first_some(ps[b].append_to_name, ps[c].append_to_name),
            )
            &&& r.header_struct_name == first_some(
                ps[a].header_struct_name,
                first_some(ps[b].header_struct_name, ps[c].header_struct_name),
            )
            &&& r.disable_condition == first_some(
                ps[a].disable_condition,
                first_some(ps[b].disable_condition, ps[c].disable_condition),
            )
            &&& r.register_properties == ps[a].register_properties.spec_merge(
                ps[b].register_properties,
            ).spec_merge(ps[c].register_properties)
        }),
{
    lemma_peripherals_resolved_keep(ps);
    let t = peripherals_resolved(ps)->Ok_0;
    assert(t[a].name == ps[a].name && t[b].name == ps[b].name && t[c].name == ps[c].name);
    assert(unique_names::<Peripheral>(t)) by {
        assert forall|i: int, j: int|
            0 <= i < t.len() && 0 <= j < t.len() && i != j implies <Peripheral as Derivable>::name_of(
            #[trigger] t[i],
        ) != <Peripheral as Derivable>::name_of(#[trigger] t[j]) by {
            assert(t[i].name == ps[i].name);
            assert(t[j].name == ps[j].name);
        }
    }
    lemma_peripheral_merge_assoc(t[a], t[b], t[c]);
    lemma_chain_in_scope::<Peripheral>(t, a, b, c);
}

} // verus!
