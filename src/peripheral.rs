use vstd::prelude::*;
use crate::address_block::AddresBlock;
use crate::derivation::{resolve_scope, resolve_siblings, Derivable};
use crate::dim_element_group::{DimElementGroup, DimElementModel};
use crate::errors::{Error, ErrorModel};
use crate::interrupt::{Interrupt, InterruptModel};
use crate::is_similar::{peripheral_similar, IsSimilarOptions};
use crate::register_or_cluster::{
    copy_entries,
    rcs_cascaded,
    rcs_resolved,
    RegisterOrCluster,
    RegisterOrClusterModel,
};
use crate::register_properties_group::{first_nonempty, first_some, RegisterPropertiesGroup};
use crate::types::ScaledNonNegativeInteger;
use crate::utils::{copy_text, copy_vec, extract_prefix, first_text, Duplicate};
use vstd::string::{StrSliceExecFns, StringExecFns};

verus! {

/// A peripheral: registers and clusters at a base address.
#[derive(Clone, Debug)]
pub struct Peripheral {
    pub derived_from: Option<String>,
    pub dim_element: DimElementGroup,
    pub name: String,
    pub version: Option<String>,
    pub description: Option<String>,
    pub alternate_peripheral: Option<String>,
    pub group_name: Option<String>,
    pub prepend_to_name: Option<String>,
    pub append_to_name: Option<String>,
    pub header_struct_name: Option<String>,
    pub disable_condition: Option<String>,
    pub base_address: ScaledNonNegativeInteger,
    pub register_properties: RegisterPropertiesGroup,
    pub address_blocks: Vec<AddresBlock>,
    pub interrupts: Vec<Interrupt>,
    pub registers: Option<Vec<RegisterOrCluster>>,
}

/// Mathematical model of a [`Peripheral`].
pub ghost struct PeripheralModel {
    pub derived_from: Option<Seq<char>>,
    pub dim_element: DimElementModel,
    pub name: Seq<char>,
    pub version: Option<Seq<char>>,
    pub description: Option<Seq<char>>,
    pub alternate_peripheral: Option<Seq<char>>,
    pub group_name: Option<Seq<char>>,
    pub prepend_to_name: Option<Seq<char>>,
    pub append_to_name: Option<Seq<char>>,
    pub header_struct_name: Option<Seq<char>>,
    pub disable_condition: Option<Seq<char>>,
    pub base_address: ScaledNonNegativeInteger,
    pub register_properties: RegisterPropertiesGroup,
    pub address_blocks: Seq<AddresBlock>,
    pub interrupts: Seq<InterruptModel>,
    pub registers: Option<Seq<RegisterOrClusterModel>>,
}

impl DeepView for Peripheral {
    type V = PeripheralModel;

    open spec fn deep_view(&self) -> PeripheralModel {
        PeripheralModel {
            derived_from: self.derived_from.deep_view(),
            dim_element: self.dim_element.deep_view(),
            name: self.name@,
            version: self.version.deep_view(),
            description: self.description.deep_view(),
            alternate_peripheral: self.alternate_peripheral.deep_view(),
            group_name: self.group_name.deep_view(),
            prepend_to_name: self.prepend_to_name.deep_view(),
            append_to_name: self.append_to_name.deep_view(),
            header_struct_name: self.header_struct_name.deep_view(),
            disable_condition: self.disable_condition.deep_view(),
            base_address: self.base_address,
            register_properties: self.register_properties,
            address_blocks: self.address_blocks.deep_view(),
            interrupts: self.interrupts.deep_view(),
            registers: self.registers.deep_view(),
        }
    }
}

/// A copy of an optional list of entries.
fn copy_opt_entries(v: &Option<Vec<RegisterOrCluster>>) -> (r: Option<Vec<RegisterOrCluster>>)
    ensures
        r.deep_view() == v.deep_view(),
{
    match v {
        Some(x) => Some(copy_entries(x)),
        None => None,
    }
}

impl Duplicate for Peripheral {
    fn duplicate(&self) -> (r: Self) {
        Peripheral {
            derived_from: copy_text(&self.derived_from),
            dim_element: self.dim_element.duplicate(),
            name: self.name.clone(),
            version: copy_text(&self.version),
            description: copy_text(&self.description),
            alternate_peripheral: copy_text(&self.alternate_peripheral),
            group_name: copy_text(&self.group_name),
            prepend_to_name: copy_text(&self.prepend_to_name),
            append_to_name: copy_text(&self.append_to_name),
            header_struct_name: copy_text(&self.header_struct_name),
            disable_condition: copy_text(&self.disable_condition),
            base_address: self.base_address,
            register_properties: self.register_properties,
            address_blocks: copy_vec(&self.address_blocks),
            interrupts: copy_vec(&self.interrupts),
            registers: copy_opt_entries(&self.registers),
        }
    }
}

impl PeripheralModel {
    /// This peripheral after taking what it leaves unset from `src`, and
    /// `src`'s own `derivedFrom`.
    pub open spec fn merged(self, src: PeripheralModel) -> PeripheralModel {
        PeripheralModel {
            derived_from: src.derived_from,
            dim_element: self.dim_element.merged(src.dim_element),
            version: first_some(self.version, src.version),
            description: first_some(self.description, src.description),
            alternate_peripheral: first_some(self.alternate_peripheral, src.alternate_peripheral),
            group_name: first_some(self.group_name, src.group_name),
            prepend_to_name: first_some(self.prepend_to_name, src.prepend_to_name),
            append_to_name: first_some(self.append_to_name, src.append_to_name),
            header_struct_name: first_some(self.header_struct_name, src.header_struct_name),
            disable_condition: first_some(self.disable_condition, src.disable_condition),
            register_properties: self.register_properties.spec_merge(src.register_properties),
            address_blocks: if self.address_blocks.len() == 0 {
                src.address_blocks
            } else {
                self.address_blocks
            },
            registers: first_nonempty(self.registers, src.registers),
            ..self
        }
    }

    /// This peripheral with the `derivedFrom` references among its registers
    /// resolved: those inside each entry first, then those among the entries.
    pub open spec fn resolved(self) -> Result<PeripheralModel, ErrorModel> {
        match self.registers {
            None => Ok(self),
            Some(rs) => match rcs_resolved(rs) {
                Err(e) => Err(e),
                Ok(children) => match resolve_scope::<RegisterOrCluster>(children) {
                    Err(e) => Err(e),
                    Ok(t) => Ok(PeripheralModel { registers: Some(t), ..self }),
                },
            },
        }
    }

    /// The properties of this peripheral with `parent` filling those it leaves
    /// unset, handed down to every register.
    pub open spec fn cascaded(self, parent: RegisterPropertiesGroup) -> PeripheralModel {
        let eff = self.register_properties.spec_merge(parent);
        PeripheralModel {
            register_properties: eff,
            registers: match self.registers {
                Some(rs) => Some(rcs_cascaded(rs, eff)),
                None => None,
            },
            ..self
        }
    }
}

impl Peripheral {
    pub fn merge_derived_from(&mut self, derived_from: &Peripheral)
        ensures
            final(self).deep_view() == old(self).deep_view().merged(derived_from.deep_view()),
    {
        self.derived_from = copy_text(&derived_from.derived_from);
        self.dim_element.merge_derived_from(&derived_from.dim_element);
        self.version = first_text(&self.version, &derived_from.version);
        self.description = first_text(&self.description, &derived_from.description);
        self.alternate_peripheral = first_text(
            &self.alternate_peripheral,
            &derived_from.alternate_peripheral,
        );
        self.group_name = first_text(&self.group_name, &derived_from.group_name);
        self.prepend_to_name = first_text(&self.prepend_to_name, &derived_from.prepend_to_name);
        self.append_to_name = first_text(&self.append_to_name, &derived_from.append_to_name);
        self.header_struct_name = first_text(
            &self.header_struct_name,
            &derived_from.header_struct_name,
        );
        self.disable_condition = first_text(
            &self.disable_condition,
            &derived_from.disable_condition,
        );
        self.register_properties = self.register_properties.merge(
            &derived_from.register_properties,
        );
        if self.address_blocks.len() == 0 {
            self.address_blocks = copy_vec(&derived_from.address_blocks);
        }
        let empty = match &self.registers {
            Some(rs) => rs.len() == 0,
            None => true,
        };
        if empty {
            self.registers = copy_opt_entries(&derived_from.registers);
        }
    }

    /// Resolves the `derivedFrom` references among the registers of this
    /// peripheral. On failure the peripheral is left as it was.
    pub fn propagate_derived_from(&mut self) -> (r: Result<(), Error>)
        ensures
            match old(self).deep_view().resolved() {
                Ok(m) => r is Ok && final(self).deep_view() == m,
                Err(e) => r is Err && r->Err_0.deep_view() == e && final(self).deep_view()
                    == old(self).deep_view(),
            },
    {
        match &self.registers {
            None => Ok(()),
            Some(rs) => {
                let mut children = crate::register_or_cluster::resolve_each(rs)?;
                resolve_siblings(&mut children)?;
                self.registers = Some(children);
                Ok(())
            },
        }
    }

    /// Fills the register properties this peripheral leaves unset from
    /// `register_properties`, and hands the result down to every register.
    pub fn propagate_register_properties(&mut self, register_properties: &RegisterPropertiesGroup)
        ensures
            final(self).deep_view() == old(self).deep_view().cascaded(*register_properties),
    {
        self.register_properties = self.register_properties.merge(register_properties);
        let eff = self.register_properties;
        match &self.registers {
            None => {},
            Some(rs) => {
                let children = crate::register_or_cluster::cascade_each(rs, &eff);
                self.registers = Some(children);
            },
        }
    }
}

impl Derivable for Peripheral {
    open spec fn name_of(m: PeripheralModel) -> Seq<char> {
        m.name
    }

    open spec fn source_of(m: PeripheralModel) -> Option<Seq<char>> {
        m.derived_from
    }

    open spec fn merged(m: PeripheralModel, src: PeripheralModel) -> PeripheralModel {
        m.merged(src)
    }

    proof fn lemma_merged_keeps_name(m: PeripheralModel, src: PeripheralModel) {
    }

    fn name_ref(&self) -> (r: &String) {
        &self.name
    }

    fn source_ref(&self) -> (r: &Option<String>) {
        &self.derived_from
    }

    fn merge_from(&mut self, src: &Self) {
        self.merge_derived_from(src);
    }
}

} // verus!

verus! {

/// The size a register of a peripheral takes from the cascade is the most
/// specific one that is set: the register's own, else the peripheral's, else
/// the device's.
pub proof fn lemma_cascade_size(
    p: PeripheralModel,
    device: RegisterPropertiesGroup,
    i: int,
)
    requires
        p.registers is Some,
        0 <= i < p.registers->Some_0.len(),
        p.registers->Some_0[i] is Register,
    ensures
        p.cascaded(device).registers->Some_0[i] is Register,
        p.cascaded(device).registers->Some_0[i]->Register_0.register_properties.size == first_some(
            p.registers->Some_0[i]->Register_0.register_properties.size,
            first_some(p.register_properties.size, device.size),
        ),
{
    let eff = p.register_properties.spec_merge(device);
    crate::register_or_cluster::lemma_rcs_cascaded_index(p.registers->Some_0, eff);
}

/// A chain of peripherals `a` from `b`, `b` from `c`: once resolved, each
/// optional attribute of `a` is its own, else `b`'s, else `c`'s, and `a`
/// names no source any more.
pub proof fn lemma_peripheral_chain(a: PeripheralModel, b: PeripheralModel, c: PeripheralModel)
    requires
        a.name != b.name,
        a.name != c.name,
        b.name != c.name,
        a.derived_from == Some(b.name),
        b.derived_from == Some(c.name),
        c.derived_from is None,
    ensures
        resolve_scope::<Peripheral>(seq![a, b, c]) is Ok,
        ({
            let r = resolve_scope::<Peripheral>(seq![a, b, c])->Ok_0[0];
            &&& r.derived_from is None
            &&& r.name == a.name
            &&& r.version == first_some(a.version, first_some(b.version, c.version))
            &&& r.description == first_some(a.description, first_some(b.description, c.description))
            &&& r.group_name == first_some(a.group_name, first_some(b.group_name, c.group_name))
            &&& r.header_struct_name == first_some(
                a.header_struct_name,
                first_some(b.header_struct_name, c.header_struct_name),
            )
            &&& r.register_properties.size == first_some(
                a.register_properties.size,
                first_some(b.register_properties.size, c.register_properties.size),
            )
            &&& r.register_properties.access == first_some(
                a.register_properties.access,
                first_some(b.register_properties.access, c.register_properties.access),
            )
            &&& r.registers == first_nonempty(first_nonempty(a.registers, b.registers), c.registers)
        }),
{
    crate::derivation::lemma_chain::<Peripheral>(seq![a, b, c]);
}

} // verus!

verus! {

/// Similar peripherals that share one generated type.
#[derive(Clone, Debug)]
pub struct PeripheralsGroup {
    pub module_name: String,
    pub struct_name: String,
    pub peripherals: Vec<Peripheral>,
}

/// Mathematical model of a [`PeripheralsGroup`].
pub ghost struct PeripheralsGroupModel {
    pub module_name: Seq<char>,
    pub struct_name: Seq<char>,
    pub peripherals: Seq<PeripheralModel>,
}

impl DeepView for PeripheralsGroup {
    type V = PeripheralsGroupModel;

    open spec fn deep_view(&self) -> PeripheralsGroupModel {
        PeripheralsGroupModel {
            module_name: self.module_name@,
            struct_name: self.struct_name@,
            peripherals: self.peripherals.deep_view(),
        }
    }
}

/// Index of the first group from `k` on whose first member is similar to
/// `p`; -1 where none is.
pub open spec fn first_similar(
    gs: Seq<Seq<PeripheralModel>>,
    p: PeripheralModel,
    ignore_fields: bool,
    k: int,
) -> int
    decreases gs.len() - k,
{
    if k < 0 || k >= gs.len() {
        -1
    } else if gs[k].len() > 0 && peripheral_similar(gs[k][0], p, ignore_fields) {
        k
    } else {
        first_similar(gs, p, ignore_fields, k + 1)
    }
}

/// The groups that the first `k` peripherals form: each joins the first
/// group whose first member is similar to it, or opens a group of its own.
pub open spec fn cluster_upto(ps: Seq<PeripheralModel>, k: int, ignore_fields: bool) -> Seq<
    Seq<PeripheralModel>,
>
    decreases k,
{
    if k <= 0 {
        Seq::empty()
    } else {
        let gs = cluster_upto(ps, k - 1, ignore_fields);
        let j = first_similar(gs, ps[k - 1], ignore_fields, 0);
        if j >= 0 {
            gs.update(j, gs[j].push(ps[k - 1]))
        } else {
            gs.push(seq![ps[k - 1]])
        }
    }
}

/// The first override of the type name among peripherals, in order.
pub open spec fn first_header(g: Seq<PeripheralModel>) -> Option<Seq<char>>
    decreases g.len(),
{
    if g.len() == 0 {
        None
    } else if g[0].header_struct_name is Some {
        g[0].header_struct_name
    } else {
        first_header(g.drop_first())
    }
}

/// Whether all names of `g` have the character of the first name at `l`.
pub open spec fn agree_at(g: Seq<PeripheralModel>, l: int) -> bool {
    &&& l < g[0].name.len()
    &&& forall|i: int| 0 <= i < g.len() ==> l < (#[trigger] g[i]).name.len() && g[i].name[l] == g[0].name[l]
}

/// Length of the longest common prefix of the names of `g`, counted from `l`.
pub open spec fn common_len(g: Seq<PeripheralModel>, l: int) -> int
    decreases g[0].name.len() - l,
{
    if 0 <= l && agree_at(g, l) {
        common_len(g, l + 1)
    } else {
        l
    }
}

/// The name of the type that the group `g` shares: an override carried by
/// a member, else the first name without its trailing digits where it ends
/// in one, else the longest prefix common to all names.
pub open spec fn group_struct_name(g: Seq<PeripheralModel>) -> Seq<char> {
    let first = g[0].name;
    match first_header(g) {
        Some(h) => h,
        None => if first.len() > 0 && crate::utils::is_digit(first.last()) {
            crate::utils::name_prefix(first)
        } else {
            first.subrange(0, common_len(g, 0))
        },
    }
}

/// The first `k` groups split into shared groups (two members or more, with
/// a non-empty type name) and individually emitted peripherals.
pub open spec fn split_upto(gs: Seq<Seq<PeripheralModel>>, k: int) -> (
    Seq<PeripheralsGroupModel>,
    Seq<PeripheralModel>,
)
    decreases k,
{
    if k <= 0 {
        (Seq::empty(), Seq::empty())
    } else {
        let (groups, individuals) = split_upto(gs, k - 1);
        let g = gs[k - 1];
        if g.len() <= 1 || group_struct_name(g).len() == 0 {
            (groups, individuals + g)
        } else {
            let n = group_struct_name(g);
            (
                groups.push(PeripheralsGroupModel { module_name: n, struct_name: n, peripherals: g }),
                individuals,
            )
        }
    }
}

/// The names of the individual peripherals, then the module names of the
/// groups.
pub open spec fn emitted_names(groups: Seq<PeripheralsGroupModel>, individuals: Seq<PeripheralModel>) -> Seq<
    Seq<char>,
> {
    individuals.map_values(|p: PeripheralModel| p.name) + groups.map_values(
        |g: PeripheralsGroupModel| g.module_name,
    )
}

/// The groups and the individual peripherals of a device, with the emitted
/// names made unique.
pub open spec fn grouping(ps: Seq<PeripheralModel>, ignore_fields: bool) -> (
    Seq<PeripheralsGroupModel>,
    Seq<PeripheralModel>,
) {
    let gs = cluster_upto(ps, ps.len() as int, ignore_fields);
    let (groups, individuals) = split_upto(gs, gs.len() as int);
    let u = crate::names::unique_names_of(emitted_names(groups, individuals));
    (
        Seq::new(
            groups.len(),
            |j: int| PeripheralsGroupModel { module_name: u[individuals.len() + j], ..groups[j] },
        ),
        Seq::new(individuals.len(), |i: int| PeripheralModel { name: u[i], ..individuals[i] }),
    )
}

} // verus!

verus! {

/// Whether `new_peripheral` joins `group`: it is similar to the group's
/// first member.
fn should_group(group: &Vec<Peripheral>, new_peripheral: &Peripheral, options: &IsSimilarOptions) -> (r: bool)
    ensures
        r == (group.len() > 0 && peripheral_similar(
            group.deep_view()[0],
            new_peripheral.deep_view(),
            options.ignore_fields,
        )),
{
    group.len() > 0 && group[0].similar(new_peripheral, options.ignore_fields)
}

/// The first override of the type name among peripherals.
fn first_header_of(g: &Vec<Peripheral>) -> (r: Option<String>)
    ensures
        r.deep_view() == first_header(g.deep_view()),
{
    let ghost s = g.deep_view();
    let mut i: usize = 0;
    assert(s.subrange(0, s.len() as int) =~= s);
    while i < g.len()
        invariant
            i <= g.len(),
            s == g.deep_view(),
            first_header(s) == first_header(s.subrange(i as int, s.len() as int)),
        decreases g.len() - i,
    {
        assert(s.subrange(i as int, s.len() as int).drop_first() =~= s.subrange(i + 1, s.len() as int));
        if g[i].header_struct_name.is_some() {
            return copy_text(&g[i].header_struct_name);
        }
        i = i + 1;
    }
    None
}

/// Whether all names of `g` have, at `l`, the character of the first name.
fn names_agree_at(g: &Vec<Peripheral>, l: usize) -> (r: bool)
    requires
        g.len() > 0,
    ensures
        r == agree_at(g.deep_view(), l as int),
{
    let first = g[0].name.as_str();
    if l >= first.unicode_len() {
        return false;
    }
    let c = first.get_char(l);
    let mut i: usize = 0;
    while i < g.len()
        invariant
            i <= g.len(),
            g.len() > 0,
            l < g.deep_view()[0].name.len(),
            c == g.deep_view()[0].name[l as int],
            forall|k: int|
                0 <= k < i ==> l < (#[trigger] g.deep_view()[k]).name.len() && g.deep_view()[k].name[l as int]
                    == c,
        decreases g.len() - i,
    {
        let name = g[i].name.as_str();
        if l >= name.unicode_len() || name.get_char(l) != c {
            assert(!(l < g.deep_view()[i as int].name.len() && g.deep_view()[i as int].name[l as int]
                == g.deep_view()[0].name[l as int]));
            return false;
        }
        i = i + 1;
    }
    true
}

/// The name of the type that the group `peripherals` shares.
fn struct_name(peripherals: &Vec<Peripheral>) -> (r: String)
    requires
        peripherals.len() > 0,
    ensures
        r@ == group_struct_name(peripherals.deep_view()),
{
    if let Some(h) = first_header_of(peripherals) {
        return h;
    }
    let first = peripherals[0].name.as_str();
    let n = first.unicode_len();
    if n > 0 {
        let c = first.get_char(n - 1);
        if '0' <= c && c <= '9' {
            let (p, _) = extract_prefix(first);
            return String::from_str(p);
        }
    }
    let mut l: usize = 0;
    while l < n && names_agree_at(peripherals, l)
        invariant
            l <= n,
            n == peripherals.deep_view()[0].name.len(),
            peripherals.len() > 0,
            common_len(peripherals.deep_view(), 0) == common_len(peripherals.deep_view(), l as int),
        decreases n - l,
    {
        l = l + 1;
    }
    String::from_str(first.substring_char(0, l))
}

/// Copies `g` with `p` appended.
fn with_member(g: &Vec<Peripheral>, p: &Peripheral) -> (r: Vec<Peripheral>)
    ensures
        r.deep_view() == g.deep_view().push(p.deep_view()),
{
    let mut out = copy_vec(g);
    let ghost before = out.deep_view();
    out.push(p.duplicate());
    assert(out.deep_view() =~= before.push(p.deep_view()));
    out
}

impl PeripheralsGroup {
    /// Groups similar peripherals together. Each peripheral, in order, joins
    /// the first group whose first member is similar to it, or opens a new
    /// one; groups of one member, and groups whose type name would be empty,
    /// are emitted peripheral by peripheral. The emitted names (individual
    /// peripherals first, then groups) are then made unique.
    #[verifier::rlimit(80)]
    pub fn from_peripherals(peripherals: &Vec<Peripheral>, options: &IsSimilarOptions) -> (r: (
        Vec<PeripheralsGroup>,
        Vec<Peripheral>,
    ))
        ensures
            (r.0.deep_view(), r.1.deep_view()) == grouping(
                peripherals.deep_view(),
                options.ignore_fields,
            ),
            ({
                let names = emitted_names(r.0.deep_view(), r.1.deep_view());
                forall|i: int, j: int| 0 <= i < j < names.len() ==> #[trigger] names[i] != #[trigger] names[j]
            }),
    {
        let ghost ps = peripherals.deep_view();
        let ghost ig = options.ignore_fields;
        let mut gs: Vec<Vec<Peripheral>> = Vec::new();
        let mut i: usize = 0;
        assert(gs.deep_view() =~= Seq::<Seq<PeripheralModel>>::empty());
        while i < peripherals.len()
            invariant
                i <= peripherals.len(),
                ps == peripherals.deep_view(),
                ig == options.ignore_fields,
                gs.deep_view() == cluster_upto(ps, i as int, ig),
            decreases peripherals.len() - i,
        {
            let p = &peripherals[i];
            let ghost before = gs.deep_view();
            let mut j: usize = 0;
            let mut found = false;
            while j < gs.len()
                invariant_except_break
                    !found,
                invariant
                    j <= gs.len(),
                    gs.deep_view() == before,
                    p.deep_view() == ps[i as int],
                    ig == options.ignore_fields,
                    i < ps.len(),
                    first_similar(before, ps[i as int], ig, 0) == first_similar(before, ps[i as int], ig, j as int),
                ensures
                    found ==> j < gs.len() && first_similar(before, ps[i as int], ig, 0) == j,
                    !found ==> first_similar(before, ps[i as int], ig, 0) == -1,
                    gs.deep_view() == before,
                decreases gs.len() - j,
            {
                if should_group(&gs[j], p, options) {
                    found = true;
                    break;
                }
                j = j + 1;
            }
            if found {
                let g = with_member(&gs[j], p);
                gs.set(j, g);
                assert(gs.deep_view() =~= before.update(j as int, before[j as int].push(ps[i as int])));
            } else {
                let mut g: Vec<Peripheral> = Vec::new();
                g.push(p.duplicate());
                assert(g.deep_view() =~= seq![ps[i as int]]);
                gs.push(g);
                assert(gs.deep_view() =~= before.push(seq![ps[i as int]]));
            }
            i = i + 1;
        }
        let ghost all = gs.deep_view();
        let mut groups: Vec<PeripheralsGroup> = Vec::new();
        let mut individuals: Vec<Peripheral> = Vec::new();
        let mut k: usize = 0;
        assert(groups.deep_view() =~= Seq::<PeripheralsGroupModel>::empty());
        assert(individuals.deep_view() =~= Seq::<PeripheralModel>::empty());
        while k < gs.len()
            invariant
                k <= gs.len(),
                all == gs.deep_view(),
                (groups.deep_view(), individuals.deep_view()) == split_upto(all, k as int),
            decreases gs.len() - k,
        {
            let g = &gs[k];
            let ghost gb = groups.deep_view();
            let ghost ib = individuals.deep_view();
            let name = if g.len() > 0 {
                struct_name(g)
            } else {
                String::new()
            };
            assert(g.deep_view() == all[k as int]);
            if g.len() <= 1 || name.as_str().unicode_len() == 0 {
                let mut m: usize = 0;
                while m < g.len()
                    invariant
                        m <= g.len(),
                        individuals.len() == ib.len() + m,
                        forall|q: int| 0 <= q < ib.len() ==> #[trigger] individuals@[q].deep_view() == ib[q],
                        forall|q: int|
                            0 <= q < m ==> #[trigger] individuals@[ib.len() + q].deep_view()
                                == g@[q].deep_view(),
                    decreases g.len() - m,
                {
                    individuals.push(g[m].duplicate());
                    m = m + 1;
                }
                assert(individuals.deep_view() =~= ib + g.deep_view()) by {
                    assert forall|q: int| ib.len() <= q < individuals.len() implies #[trigger] individuals.deep_view()[q]
                        == (ib + g.deep_view())[q] by {
                        assert(individuals@[ib.len() + (q - ib.len())].deep_view() == g@[q - ib.len()].deep_view());
                    }
                }
            } else {
                let grp = PeripheralsGroup {
                    module_name: name.clone(),
                    struct_name: name,
                    peripherals: copy_vec(g),
                };
                groups.push(grp);
                assert(groups.deep_view() =~= gb.push(grp.deep_view()));
            }
            k = k + 1;
        }
        make_names_unique(&mut groups, &mut individuals);
        proof {
            lemma_grouping_names_distinct(ps, ig);
            let gr = grouping(ps, ig);
            assert(groups.deep_view() == gr.0);
            assert(individuals.deep_view() == gr.1);
        }
        (groups, individuals)
    }

    pub fn struct_name(&self) -> (r: &str)
        ensures
            r@ == self.struct_name@,
    {
        self.struct_name.as_str()
    }

    pub fn module_name(&self) -> (r: &str)
        ensures
            r@ == self.module_name@,
    {
        self.module_name.as_str()
    }

    pub fn peripherals(&self) -> (r: &Vec<Peripheral>)
        ensures
            r == &self.peripherals,
    {
        &self.peripherals
    }
}

/// Makes the emitted names unique: those of the individual peripherals,
/// then the module names of the groups, in order.
#[verifier::rlimit(80)]
fn make_names_unique(groups: &mut Vec<PeripheralsGroup>, individuals: &mut Vec<Peripheral>)
    ensures
        ({
            let u = crate::names::unique_names_of(
                emitted_names(old(groups).deep_view(), old(individuals).deep_view()),
            );
            &&& final(groups).deep_view() == Seq::new(
                old(groups).len() as nat,
                |j: int|
                    PeripheralsGroupModel {
                        module_name: u[old(individuals).len() + j],
                        ..old(groups).deep_view()[j]
                    },
            )
            &&& final(individuals).deep_view() == Seq::new(
                old(individuals).len() as nat,
                |i: int| PeripheralModel { name: u[i], ..old(individuals).deep_view()[i] },
            )
        }),
{
    let ghost gs = groups.deep_view();
    let ghost is = individuals.deep_view();
    let mut names: Vec<String> = Vec::new();
    let mut i: usize = 0;
    while i < individuals.len()
        invariant
            i <= individuals.len(),
            names.len() == i,
            forall|k: int| 0 <= k < i ==> #[trigger] names@[k]@ == individuals@[k].name@,
        decreases individuals.len() - i,
    {
        names.push(individuals[i].name.clone());
        i = i + 1;
    }
    let mut j: usize = 0;
    while j < groups.len()
        invariant
            j <= groups.len(),
            names.len() == individuals.len() + j,
            forall|k: int| 0 <= k < individuals.len() ==> #[trigger] names@[k]@ == individuals@[k].name@,
            forall|k: int|
                0 <= k < j ==> #[trigger] names@[individuals.len() + k]@ == groups@[k].module_name@,
        decreases groups.len() - j,
    {
        names.push(groups[j].module_name.clone());
        j = j + 1;
    }
    assert(names.deep_view() =~= emitted_names(gs, is)) by {
        assert forall|k: int| 0 <= k < names.len() implies #[trigger] names.deep_view()[k] == emitted_names(
            gs,
            is,
        )[k] by {
            if k >= individuals.len() {
                assert(names@[individuals.len() + (k - individuals.len())]@ == groups@[k
                    - individuals.len()].module_name@);
            }
        }
    }
    let u = crate::names::unique_names(&names);
    proof {
        crate::names::lemma_unique_names_distinct(names.deep_view());
    }
    let mut new_individuals: Vec<Peripheral> = Vec::new();
    let mut i: usize = 0;
    while i < individuals.len()
        invariant
            i <= individuals.len(),
            is == individuals.deep_view(),
            u.len() == is.len() + gs.len(),
            new_individuals.len() == i,
            forall|k: int|
                0 <= k < i ==> #[trigger] new_individuals@[k].deep_view() == (PeripheralModel {
                    name: u.deep_view()[k],
                    ..is[k]
                }),
        decreases individuals.len() - i,
    {
        let mut p = individuals[i].duplicate();
        p.name = u[i].clone();
        new_individuals.push(p);
        i = i + 1;
    }
    let mut new_groups: Vec<PeripheralsGroup> = Vec::new();
    let mut j: usize = 0;
    while j < groups.len()
        invariant
            j <= groups.len(),
            gs == groups.deep_view(),
            is.len() == individuals.len(),
            u.len() == is.len() + gs.len(),
            new_groups.len() == j,
            forall|k: int|
                0 <= k < j ==> #[trigger] new_groups@[k].deep_view() == (PeripheralsGroupModel {
                    module_name: u.deep_view()[is.len() + k],
                    ..gs[k]
                }),
        decreases groups.len() - j,
    {
        let g = PeripheralsGroup {
            module_name: u[individuals.len() + j].clone(),
            struct_name: groups[j].struct_name.clone(),
            peripherals: copy_vec(&groups[j].peripherals),
        };
        new_groups.push(g);
        j = j + 1;
    }
    assert(new_individuals.deep_view() =~= Seq::new(
        is.len() as nat,
        |i: int| PeripheralModel { name: u.deep_view()[i], ..is[i] },
    ));
    assert(new_groups.deep_view() =~= Seq::new(
        gs.len() as nat,
        |j: int| PeripheralsGroupModel { module_name: u.deep_view()[is.len() + j], ..gs[j] },
    ));
    *individuals = new_individuals;
    *groups = new_groups;
}

/// The names emitted for the groups and individual peripherals of a device
/// are pairwise distinct.
pub proof fn lemma_grouping_names_distinct(ps: Seq<PeripheralModel>, ignore_fields: bool)
    ensures
        ({
            let (groups, individuals) = grouping(ps, ignore_fields);
            let names = emitted_names(groups, individuals);
            forall|i: int, j: int| 0 <= i < j < names.len() ==> #[trigger] names[i] != #[trigger] names[j]
        }),
{
    let gs = cluster_upto(ps, ps.len() as int, ignore_fields);
    let (g0, i0) = split_upto(gs, gs.len() as int);
    let n0 = emitted_names(g0, i0);
    let u = crate::names::unique_names_of(n0);
    crate::names::lemma_unique_names_distinct(n0);
    let (groups, individuals) = grouping(ps, ignore_fields);
    assert(emitted_names(groups, individuals) =~= u);
}

impl PeripheralsGroup {
    /// The first description among the members, else the first member's.
    pub fn description(&self) -> (r: &Option<String>)
        requires
            self.peripherals.len() > 0,
        ensures
            r.deep_view() == (match first_description_of_group(self.peripherals.deep_view()) {
                Some(d) => Some(d),
                None => self.peripherals.deep_view()[0].description,
            }),
    {
        let ghost s = self.peripherals.deep_view();
        let mut i: usize = 0;
        assert(s.subrange(0, s.len() as int) =~= s);
        while i < self.peripherals.len()
            invariant
                i <= self.peripherals.len(),
                s == self.peripherals.deep_view(),
                first_description_of_group(s) == first_description_of_group(
                    s.subrange(i as int, s.len() as int),
                ),
            decreases self.peripherals.len() - i,
        {
            assert(s.subrange(i as int, s.len() as int).drop_first() =~= s.subrange(
                i + 1,
                s.len() as int,
            ));
            if self.peripherals[i].description.is_some() {
                return &self.peripherals[i].description;
            }
            i = i + 1;
        }
        &self.peripherals[0].description
    }
}

/// The first description among peripherals, in order.
pub open spec fn first_description_of_group(g: Seq<PeripheralModel>) -> Option<Seq<char>>
    decreases g.len(),
{
    if g.len() == 0 {
        None
    } else if g[0].description is Some {
        g[0].description
    } else {
        first_description_of_group(g.drop_first())
    }
}

} // verus!
