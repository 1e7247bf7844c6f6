use vstd::prelude::*;
use crate::derivation::resolve_siblings;
use crate::dim_element_group::{DimElementGroup, DimElementModel};
use crate::errors::{Error, ErrorModel};
use crate::register_or_cluster::{
    copy_entries,
    lemma_models,
    rc_models,
    rcs_cascaded,
    rcs_resolved,
    RegisterOrCluster,
    RegisterOrClusterModel,
};
use crate::derivation::resolve_scope;
use crate::register_properties_group::{first_some, RegisterPropertiesGroup};
use crate::types::ScaledNonNegativeInteger;
use crate::utils::{copy_text, first_text};

verus! {

/// A named group of registers and clusters at an offset of its parent.
#[derive(Debug)]
pub struct Cluster {
    pub derived_from: Option<String>,
    pub dim_element: DimElementGroup,
    pub name: String,
    pub alternate_cluster: Option<String>,
    pub header_struct_name: Option<String>,
    pub address_offset: ScaledNonNegativeInteger,
    pub register_properties: RegisterPropertiesGroup,
    pub registers: Vec<RegisterOrCluster>,
}

/// Mathematical model of a [`Cluster`].
pub ghost struct ClusterModel {
    pub derived_from: Option<Seq<char>>,
    pub dim_element: DimElementModel,
    pub name: Seq<char>,
    pub alternate_cluster: Option<Seq<char>>,
    pub header_struct_name: Option<Seq<char>>,
    pub address_offset: ScaledNonNegativeInteger,
    pub register_properties: RegisterPropertiesGroup,
    pub registers: Seq<RegisterOrClusterModel>,
}

impl DeepView for Cluster {
    type V = ClusterModel;

    open spec fn deep_view(&self) -> ClusterModel {
        crate::register_or_cluster::cluster_model(*self)
    }
}

impl ClusterModel {
    /// This cluster after taking what it leaves unset from `src`, and `src`'s
    /// own `derivedFrom`.
    pub open spec fn merged(self, src: ClusterModel) -> ClusterModel {
        ClusterModel {
            derived_from: src.derived_from,
            dim_element: self.dim_element.merged(src.dim_element),
            alternate_cluster: first_some(self.alternate_cluster, src.alternate_cluster),
            header_struct_name: first_some(self.header_struct_name, src.header_struct_name),
            register_properties: self.register_properties.spec_merge(src.register_properties),
            registers: if self.registers.len() == 0 {
                src.registers
            } else {
                self.registers
            },
            ..self
        }
    }

    /// This cluster with the `derivedFrom` references resolved: those inside
    /// each child first, then those among the children. A list copied from a
    /// sibling is then already resolved, as resolving it again would make it.
    pub open spec fn resolved(self) -> Result<ClusterModel, ErrorModel>
        decreases self,
    {
        match rcs_resolved(self.registers) {
            Err(e) => Err(e),
            Ok(children) => match resolve_scope::<RegisterOrCluster>(children) {
                Err(e) => Err(e),
                Ok(t) => Ok(ClusterModel { registers: t, ..self }),
            },
        }
    }

    /// The properties of this cluster with `parent` filling those it leaves
    /// unset, handed on to every child.
    pub open spec fn cascaded(self, parent: RegisterPropertiesGroup) -> ClusterModel
        decreases self,
    {
        let eff = self.register_properties.spec_merge(parent);
        ClusterModel {
            register_properties: eff,
            registers: rcs_cascaded(self.registers, eff),
            ..self
        }
    }
}

impl Cluster {
    pub fn duplicate(&self) -> (r: Cluster)
        ensures
            r.deep_view() == self.deep_view(),
        decreases self,
    {
        let regs = copy_entries(&self.registers);
        proof {
            lemma_models(regs);
            lemma_models(self.registers);
        }
        Cluster {
            derived_from: copy_text(&self.derived_from),
            dim_element: self.dim_element.duplicate(),
            name: self.name.clone(),
            alternate_cluster: copy_text(&self.alternate_cluster),
            header_struct_name: copy_text(&self.header_struct_name),
            address_offset: self.address_offset,
            register_properties: self.register_properties,
            registers: regs,
        }
    }

    pub fn merge_derived_from(&mut self, derived_from: &Cluster)
        ensures
            final(self).deep_view() == old(self).deep_view().merged(derived_from.deep_view()),
    {
        proof {
            lemma_models(self.registers);
            lemma_models(derived_from.registers);
        }
        self.derived_from = copy_text(&derived_from.derived_from);
        self.dim_element.merge_derived_from(&derived_from.dim_element);
        self.alternate_cluster = first_text(&self.alternate_cluster, &derived_from.alternate_cluster);
        self.header_struct_name = first_text(
            &self.header_struct_name,
            &derived_from.header_struct_name,
        );
        self.register_properties = self.register_properties.merge(
            &derived_from.register_properties,
        );
        if self.registers.len() == 0 {
            self.registers = copy_entries(&derived_from.registers);
        }
        proof {
            lemma_models(self.registers);
        }
    }
}

} // verus!

verus! {

impl Clone for Cluster {
    fn clone(&self) -> (r: Self)
        ensures
            r.deep_view() == self.deep_view(),
    {
        self.duplicate()
    }
}

} // verus!
