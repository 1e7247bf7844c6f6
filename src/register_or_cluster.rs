use vstd::prelude::*;
use crate::cluster::{Cluster, ClusterModel};
use crate::derivation::Derivable;
use crate::errors::{Error, ErrorModel};
use crate::register::{Register, RegisterModel};
use crate::register_properties_group::RegisterPropertiesGroup;
use crate::utils::Duplicate;

verus! {

/// An entry of a register list: a register, or a cluster of more entries.
#[derive(Debug)]
pub enum RegisterOrCluster {
    Register(Register),
    Cluster(Cluster),
}

/// Mathematical model of a [`RegisterOrCluster`].
pub ghost enum RegisterOrClusterModel {
    Register(RegisterModel),
    Cluster(ClusterModel),
}

/// Models of a list of entries.
pub open spec fn rc_models(s: Seq<RegisterOrCluster>) -> Seq<RegisterOrClusterModel>
    decreases s,
{
    if s.len() == 0 {
        Seq::empty()
    } else {
        rc_models(s.drop_last()).push(rc_model(s.last()))
    }
}

/// Model of an entry.
pub open spec fn rc_model(r: RegisterOrCluster) -> RegisterOrClusterModel
    decreases r,
{
    match r {
        RegisterOrCluster::Register(x) => RegisterOrClusterModel::Register(x.deep_view()),
        RegisterOrCluster::Cluster(c) => RegisterOrClusterModel::Cluster(cluster_model(c)),
    }
}

/// Model of a cluster.
pub open spec fn cluster_model(c: Cluster) -> ClusterModel
    decreases c,
{
    ClusterModel {
        derived_from: c.derived_from.deep_view(),
        dim_element: c.dim_element.deep_view(),
        name: c.name@,
        alternate_cluster: c.alternate_cluster.deep_view(),
        header_struct_name: c.header_struct_name.deep_view(),
        address_offset: c.address_offset,
        register_properties: c.register_properties,
        registers: rc_models(c.registers@),
    }
}

impl DeepView for RegisterOrCluster {
    type V = RegisterOrClusterModel;

    open spec fn deep_view(&self) -> RegisterOrClusterModel {
        rc_model(*self)
    }
}

/// The model of a list of entries, item by item.
pub proof fn lemma_models(v: Vec<RegisterOrCluster>)
    ensures
        v.deep_view() == rc_models(v@),
{
    lemma_models_seq(v@);
    assert(v.deep_view() =~= rc_models(v@));
}

proof fn lemma_models_seq(s: Seq<RegisterOrCluster>)
    ensures
        rc_models(s).len() == s.len(),
        forall|i: int| 0 <= i < s.len() ==> #[trigger] rc_models(s)[i] == rc_model(s[i]),
    decreases s.len(),
{
    if s.len() > 0 {
        lemma_models_seq(s.drop_last());
    }
}

impl RegisterOrClusterModel {
    pub open spec fn name(self) -> Seq<char> {
        match self {
            RegisterOrClusterModel::Register(r) => r.name,
            RegisterOrClusterModel::Cluster(c) => c.name,
        }
    }

    pub open spec fn derived_from(self) -> Option<Seq<char>> {
        match self {
            RegisterOrClusterModel::Register(r) => r.derived_from,
            RegisterOrClusterModel::Cluster(c) => c.derived_from,
        }
    }

    /// This entry after taking what it leaves unset from `src` where both are
    /// of one kind; where they are not, it only takes `src`'s `derivedFrom`.
    pub open spec fn merged(self, src: RegisterOrClusterModel) -> RegisterOrClusterModel {
        match (self, src) {
            (RegisterOrClusterModel::Register(a), RegisterOrClusterModel::Register(b)) => {
                RegisterOrClusterModel::Register(a.merged(b))
            },
            (RegisterOrClusterModel::Cluster(a), RegisterOrClusterModel::Cluster(b)) => {
                RegisterOrClusterModel::Cluster(a.merged(b))
            },
            (RegisterOrClusterModel::Register(a), _) => RegisterOrClusterModel::Register(
                RegisterModel { derived_from: src.derived_from(), ..a },
            ),
            (RegisterOrClusterModel::Cluster(a), _) => RegisterOrClusterModel::Cluster(
                ClusterModel { derived_from: src.derived_from(), ..a },
            ),
        }
    }
}

/// An entry with its `derivedFrom` references resolved.
pub open spec fn rc_resolved(m: RegisterOrClusterModel) -> Result<RegisterOrClusterModel, ErrorModel>
    decreases m,
{
    match m {
        RegisterOrClusterModel::Register(r) => match r.resolved() {
            Ok(x) => Ok(RegisterOrClusterModel::Register(x)),
            Err(e) => Err(e),
        },
        RegisterOrClusterModel::Cluster(c) => match c.resolved() {
            Ok(x) => Ok(RegisterOrClusterModel::Cluster(x)),
            Err(e) => Err(e),
        },
    }
}

/// Each entry of a list resolved on its own, in order; the first failure stops.
pub open spec fn rcs_resolved(s: Seq<RegisterOrClusterModel>) -> Result<
    Seq<RegisterOrClusterModel>,
    ErrorModel,
>
    decreases s,
{
    if s.len() == 0 {
        Ok(Seq::empty())
    } else {
        match rcs_resolved(s.drop_last()) {
            Err(e) => Err(e),
            Ok(p) => match rc_resolved(s.last()) {
                Err(e) => Err(e),
                Ok(x) => Ok(p.push(x)),
            },
        }
    }
}

/// An entry with `parent` filling the register properties it leaves unset,
/// down to every register it holds.
pub open spec fn rc_cascaded(m: RegisterOrClusterModel, parent: RegisterPropertiesGroup) -> RegisterOrClusterModel
    decreases m,
{
    match m {
        RegisterOrClusterModel::Register(r) => RegisterOrClusterModel::Register(r.cascaded(parent)),
        RegisterOrClusterModel::Cluster(c) => RegisterOrClusterModel::Cluster(c.cascaded(parent)),
    }
}

/// Each entry of a list cascaded from `parent`.
pub open spec fn rcs_cascaded(s: Seq<RegisterOrClusterModel>, parent: RegisterPropertiesGroup) -> Seq<
    RegisterOrClusterModel,
>
    decreases s,
{
    if s.len() == 0 {
        Seq::empty()
    } else {
        rcs_cascaded(s.drop_last(), parent).push(rc_cascaded(s.last(), parent))
    }
}

} // verus!

verus! {

/// A copy of a list of entries with their models kept.
pub fn copy_entries(v: &Vec<RegisterOrCluster>) -> (r: Vec<RegisterOrCluster>)
    ensures
        r.deep_view() == v.deep_view(),
    decreases v,
{
    let mut out: Vec<RegisterOrCluster> = Vec::new();
    let mut i: usize = 0;
    while i < v.len()
        invariant
            i <= v.len(),
            out.len() == i,
            forall|k: int| 0 <= k < i ==> #[trigger] out@[k].deep_view() == v@[k].deep_view(),
        decreases v.len() - i,
    {
        proof {
            assert(decreases_to!(v => v@[i as int]));
        }
        let c = v[i].copy();
        out.push(c);
        i = i + 1;
    }
    assert(out.deep_view() =~= v.deep_view());
    out
}

impl RegisterOrCluster {
    /// A copy of this entry with its model kept.
    pub fn copy(&self) -> (r: RegisterOrCluster)
        ensures
            r.deep_view() == self.deep_view(),
        decreases self,
    {
        match self {
            RegisterOrCluster::Register(x) => RegisterOrCluster::Register(x.duplicate()),
            RegisterOrCluster::Cluster(c) => RegisterOrCluster::Cluster(c.duplicate()),
        }
    }

    pub fn derived_from(&self) -> (r: &Option<String>)
        ensures
            r.deep_view() == self.deep_view().derived_from(),
    {
        match self {
            RegisterOrCluster::Register(x) => &x.derived_from,
            RegisterOrCluster::Cluster(c) => &c.derived_from,
        }
    }

    pub fn name(&self) -> (r: &String)
        ensures
            r@ == self.deep_view().name(),
    {
        match self {
            RegisterOrCluster::Register(x) => &x.name,
            RegisterOrCluster::Cluster(c) => &c.name,
        }
    }

    pub fn merge_derived_from(&mut self, derived_from: &RegisterOrCluster)
        ensures
            final(self).deep_view() == old(self).deep_view().merged(derived_from.deep_view()),
    {
        match (self, derived_from) {
            (RegisterOrCluster::Register(a), RegisterOrCluster::Register(b)) => {
                a.merge_derived_from(b);
            },
            (RegisterOrCluster::Cluster(a), RegisterOrCluster::Cluster(b)) => {
                a.merge_derived_from(b);
            },
            (RegisterOrCluster::Register(a), RegisterOrCluster::Cluster(b)) => {
                a.derived_from = crate::utils::copy_text(&b.derived_from);
            },
            (RegisterOrCluster::Cluster(a), RegisterOrCluster::Register(b)) => {
                a.derived_from = crate::utils::copy_text(&b.derived_from);
            },
        }
    }
}

impl Duplicate for RegisterOrCluster {
    fn duplicate(&self) -> (r: Self) {
        self.copy()
    }
}

impl Derivable for RegisterOrCluster {
    open spec fn name_of(m: RegisterOrClusterModel) -> Seq<char> {
        m.name()
    }

    open spec fn source_of(m: RegisterOrClusterModel) -> Option<Seq<char>> {
        m.derived_from()
    }

    open spec fn merged(m: RegisterOrClusterModel, src: RegisterOrClusterModel) -> RegisterOrClusterModel {
        m.merged(src)
    }

    proof fn lemma_merged_keeps_name(m: RegisterOrClusterModel, src: RegisterOrClusterModel) {
    }

    fn name_ref(&self) -> (r: &String) {
        self.name()
    }

    fn source_ref(&self) -> (r: &Option<String>) {
        self.derived_from()
    }

    fn merge_from(&mut self, src: &Self) {
        self.merge_derived_from(src);
    }
}

} // verus!

verus! {

impl Clone for RegisterOrCluster {
    fn clone(&self) -> (r: Self)
        ensures
            r.deep_view() == self.deep_view(),
    {
        self.copy()
    }
}

} // verus!

verus! {

proof fn lemma_rcs_resolved_err(s: Seq<RegisterOrClusterModel>, k: int)
    requires
        0 <= k <= s.len(),
        rcs_resolved(s.subrange(0, k)) is Err,
    ensures
        rcs_resolved(s) == rcs_resolved(s.subrange(0, k)),
    decreases s.len() - k,
{
    if k < s.len() {
        assert(s.subrange(0, k + 1).drop_last() =~= s.subrange(0, k));
        lemma_rcs_resolved_err(s, k + 1);
    } else {
        assert(s.subrange(0, k) =~= s);
    }
}

/// Each entry of `v` resolved on its own, in order.
pub fn resolve_each(v: &Vec<RegisterOrCluster>) -> (r: Result<Vec<RegisterOrCluster>, Error>)
    ensures
        match rcs_resolved(v.deep_view()) {
            Ok(m) => r is Ok && r->Ok_0.deep_view() == m,
            Err(e) => r is Err && r->Err_0.deep_view() == e,
        },
    decreases v,
{
    let ghost s = v.deep_view();
    let mut out: Vec<RegisterOrCluster> = Vec::new();
    let mut i: usize = 0;
    assert(s.subrange(0, 0) =~= Seq::<RegisterOrClusterModel>::empty());
    assert(out.deep_view() =~= Seq::<RegisterOrClusterModel>::empty());
    while i < v.len()
        invariant
            i <= v.len(),
            s == v.deep_view(),
            rcs_resolved(s.subrange(0, i as int)) == Ok::<Seq<RegisterOrClusterModel>, ErrorModel>(
                out.deep_view(),
            ),
        decreases v.len() - i,
    {
        proof {
            assert(decreases_to!(v => v@[i as int]));
            assert(s.subrange(0, i + 1).drop_last() =~= s.subrange(0, i as int));
        }
        match v[i].resolved() {
            Ok(x) => {
                out.push(x);
                proof {
                    assert(out.deep_view() =~= rcs_resolved(s.subrange(0, i as int))->Ok_0.push(
                        x.deep_view(),
                    ));
                }
            },
            Err(e) => {
                proof {
                    lemma_rcs_resolved_err(s, i + 1);
                }
                return Err(e);
            },
        }
        i = i + 1;
    }
    assert(s.subrange(0, v.len() as int) =~= s);
    Ok(out)
}

/// Each entry of `v` cascaded from `parent`.
pub fn cascade_each(v: &Vec<RegisterOrCluster>, parent: &RegisterPropertiesGroup) -> (r: Vec<
    RegisterOrCluster,
>)
    ensures
        r.deep_view() == rcs_cascaded(v.deep_view(), *parent),
    decreases v,
{
    let ghost s = v.deep_view();
    let mut out: Vec<RegisterOrCluster> = Vec::new();
    let mut i: usize = 0;
    assert(s.subrange(0, 0) =~= Seq::<RegisterOrClusterModel>::empty());
    assert(out.deep_view() =~= Seq::<RegisterOrClusterModel>::empty());
    while i < v.len()
        invariant
            i <= v.len(),
            s == v.deep_view(),
            rcs_cascaded(s.subrange(0, i as int), *parent) == out.deep_view(),
        decreases v.len() - i,
    {
        proof {
            assert(decreases_to!(v => v@[i as int]));
            assert(s.subrange(0, i + 1).drop_last() =~= s.subrange(0, i as int));
        }
        let x = v[i].cascaded(parent);
        out.push(x);
        proof {
            assert(out.deep_view() =~= rcs_cascaded(s.subrange(0, i as int), *parent).push(
                x.deep_view(),
            ));
        }
        i = i + 1;
    }
    assert(s.subrange(0, v.len() as int) =~= s);
    out
}

impl Cluster {
    /// This cluster with its `derivedFrom` references resolved.
    pub fn resolved(&self) -> (r: Result<Cluster, Error>)
        ensures
            match self.deep_view().resolved() {
                Ok(m) => r is Ok && r->Ok_0.deep_view() == m,
                Err(e) => r is Err && r->Err_0.deep_view() == e,
            },
        decreases self,
    {
        proof {
            lemma_models(self.registers);
        }
        let mut children = resolve_each(&self.registers)?;
        crate::derivation::resolve_siblings(&mut children)?;
        proof {
            lemma_models(children);
        }
        Ok(Cluster {
            derived_from: crate::utils::copy_text(&self.derived_from),
            dim_element: self.dim_element.duplicate(),
            name: self.name.clone(),
            alternate_cluster: crate::utils::copy_text(&self.alternate_cluster),
            header_struct_name: crate::utils::copy_text(&self.header_struct_name),
            address_offset: self.address_offset,
            register_properties: self.register_properties,
            registers: children,
        })
    }

    /// This cluster with `parent` filling the register properties it leaves
    /// unset, down to every register it holds.
    pub fn cascaded(&self, parent: &RegisterPropertiesGroup) -> (r: Cluster)
        ensures
            r.deep_view() == self.deep_view().cascaded(*parent),
        decreases self,
    {
        proof {
            lemma_models(self.registers);
        }
        let eff = self.register_properties.merge(parent);
        let children = cascade_each(&self.registers, &eff);
        proof {
            lemma_models(children);
        }
        Cluster {
            derived_from: crate::utils::copy_text(&self.derived_from),
            dim_element: self.dim_element.duplicate(),
            name: self.name.clone(),
            alternate_cluster: crate::utils::copy_text(&self.alternate_cluster),
            header_struct_name: crate::utils::copy_text(&self.header_struct_name),
            address_offset: self.address_offset,
            register_properties: eff,
            registers: children,
        }
    }

    /// Resolves the `derivedFrom` references inside this cluster. On failure
    /// the cluster is left as it was.
    pub fn propagate_derived_from(&mut self) -> (r: Result<(), Error>)
        ensures
            match old(self).deep_view().resolved() {
                Ok(m) => r is Ok && final(self).deep_view() == m,
                Err(e) => r is Err && r->Err_0.deep_view() == e && final(self).deep_view()
                    == old(self).deep_view(),
            },
    {
        let c = self.resolved()?;
        *self = c;
        Ok(())
    }

    /// Fills the register properties this cluster leaves unset from `register_properties`,
    /// and hands the result down to every register it holds.
    pub fn propagate_register_properties(&mut self, register_properties: &RegisterPropertiesGroup)
        ensures
            final(self).deep_view() == old(self).deep_view().cascaded(*register_properties),
    {
        let c = self.cascaded(register_properties);
        *self = c;
    }
}

impl RegisterOrCluster {
    /// This entry with its `derivedFrom` references resolved.
    pub fn resolved(&self) -> (r: Result<RegisterOrCluster, Error>)
        ensures
            match rc_resolved(self.deep_view()) {
                Ok(m) => r is Ok && r->Ok_0.deep_view() == m,
                Err(e) => r is Err && r->Err_0.deep_view() == e,
            },
        decreases self,
    {
        match self {
            RegisterOrCluster::Register(x) => {
                let mut y = x.duplicate();
                y.propagate_derived_from()?;
                Ok(RegisterOrCluster::Register(y))
            },
            RegisterOrCluster::Cluster(c) => {
                let y = c.resolved()?;
                Ok(RegisterOrCluster::Cluster(y))
            },
        }
    }

    /// This entry with `parent` filling the register properties it leaves unset.
    pub fn cascaded(&self, parent: &RegisterPropertiesGroup) -> (r: RegisterOrCluster)
        ensures
            r.deep_view() == rc_cascaded(self.deep_view(), *parent),
        decreases self,
    {
        match self {
            RegisterOrCluster::Register(x) => {
                let mut y = x.duplicate();
                y.register_properties = y.register_properties.merge(parent);
                RegisterOrCluster::Register(y)
            },
            RegisterOrCluster::Cluster(c) => RegisterOrCluster::Cluster(c.cascaded(parent)),
        }
    }

    /// Resolves the `derivedFrom` references inside this entry. On failure the
    /// entry is left as it was.
    pub fn propagate_derived_from(&mut self) -> (r: Result<(), Error>)
        ensures
            match rc_resolved(old(self).deep_view()) {
                Ok(m) => r is Ok && final(self).deep_view() == m,
                Err(e) => r is Err && r->Err_0.deep_view() == e && final(self).deep_view()
                    == old(self).deep_view(),
            },
    {
        let c = self.resolved()?;
        *self = c;
        Ok(())
    }

    /// Fills the register properties this entry leaves unset from `register_properties`,
    /// down to every register it holds.
    pub fn propagate_register_properties(&mut self, register_properties: &RegisterPropertiesGroup)
        ensures
            final(self).deep_view() == rc_cascaded(old(self).deep_view(), *register_properties),
    {
        let c = self.cascaded(register_properties);
        *self = c;
    }
}

} // verus!

verus! {

/// Cascading a list cascades each of its entries.
pub proof fn lemma_rcs_cascaded_index(s: Seq<RegisterOrClusterModel>, rp: RegisterPropertiesGroup)
    ensures
        rcs_cascaded(s, rp).len() == s.len(),
        forall|i: int| 0 <= i < s.len() ==> #[trigger] rcs_cascaded(s, rp)[i] == rc_cascaded(s[i], rp),
    decreases s.len(),
{
    if s.len() > 0 {
        lemma_rcs_cascaded_index(s.drop_last(), rp);
    }
}

/// Whether no entity in `m`, down to its fields, names a source.
pub open spec fn rc_free(m: RegisterOrClusterModel) -> bool
    decreases m,
{
    match m {
        RegisterOrClusterModel::Register(r) => r.derived_from is None && (r.fields is Some ==> forall|i: int|
            0 <= i < r.fields->Some_0.len() ==> (#[trigger] r.fields->Some_0[i]).derived_from is None),
        RegisterOrClusterModel::Cluster(c) => c.derived_from is None && forall|i: int|
            0 <= i < c.registers.len() ==> rc_free(#[trigger] c.registers[i]),
    }
}

/// Resolving an entry in which nothing names a source changes nothing.
pub proof fn lemma_rc_free(m: RegisterOrClusterModel)
    requires
        rc_free(m),
    ensures
        rc_resolved(m) == Ok::<RegisterOrClusterModel, ErrorModel>(m),
    decreases m, 1nat,
{
    match m {
        RegisterOrClusterModel::Register(r) => {
            crate::register::lemma_register_without_references(r);
        },
        RegisterOrClusterModel::Cluster(c) => {
            lemma_rcs_free(c.registers, c.registers.len() as int);
            assert(c.registers.subrange(0, c.registers.len() as int) =~= c.registers);
            assert forall|i: int| 0 <= i < c.registers.len() implies <RegisterOrCluster as Derivable>::source_of(
                #[trigger] c.registers[i],
            ) is None by {
                assert(rc_free(c.registers[i]));
            }
            crate::derivation::lemma_resolve_without_references::<RegisterOrCluster>(c.registers);
            assert(ClusterModel { registers: c.registers, ..c } == c);
        },
    }
}

/// Resolving each entry of a list in which nothing names a source changes
/// nothing.
pub proof fn lemma_rcs_free(s: Seq<RegisterOrClusterModel>, k: int)
    requires
        0 <= k <= s.len(),
        forall|i: int| 0 <= i < s.len() ==> rc_free(#[trigger] s[i]),
    ensures
        rcs_resolved(s.subrange(0, k)) == Ok::<Seq<RegisterOrClusterModel>, ErrorModel>(s.subrange(0, k)),
    decreases s, 0nat, k,
{
    if k == 0 {
        assert(s.subrange(0, 0) =~= Seq::<RegisterOrClusterModel>::empty());
    } else {
        lemma_rcs_free(s, k - 1);
        assert(s.subrange(0, k).drop_last() =~= s.subrange(0, k - 1));
        assert(s.subrange(0, k).last() == s[k - 1]);
        assert(decreases_to!(s => s[k - 1]));
        lemma_rc_free(s[k - 1]);
        assert(s.subrange(0, k - 1).push(s[k - 1]) =~= s.subrange(0, k));
    }
}

} // verus!
