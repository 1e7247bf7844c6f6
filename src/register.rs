use vstd::prelude::*;
use crate::access::{option_is_read, option_is_write, readable, writable};
use crate::data_type::DataType;
use crate::derivation::{resolve_scope, resolve_siblings};
use crate::dim_element_group::{DimElementGroup, DimElementModel};
use crate::errors::{Error, ErrorModel};
use crate::field::{Field, FieldModel};
use crate::modified_write_values::ModifiedWriteValues;
use crate::read_action::ReadAction;
use crate::register_properties_group::{first_nonempty, first_present, first_some, RegisterPropertiesGroup};
use crate::types::ScaledNonNegativeInteger;
use crate::utils::{copy_opt_vec, copy_text, first_text, Duplicate};

verus! {

/// A register: a memory-mapped value at an offset of its peripheral or cluster.
#[derive(Clone, Debug)]
pub struct Register {
    pub derived_from: Option<String>,
    pub dim_element: DimElementGroup,
    pub name: String,
    pub display_name: Option<String>,
    pub description: Option<String>,
    pub alternate_group: Option<String>,
    pub alternate_register: Option<String>,
    pub address_offset: ScaledNonNegativeInteger,
    pub register_properties: RegisterPropertiesGroup,
    pub data_type: Option<DataType>,
    pub modified_write_values: Option<ModifiedWriteValues>,
    pub read_action: Option<ReadAction>,
    pub fields: Option<Vec<Field>>,
}

/// Mathematical model of a [`Register`].
pub ghost struct RegisterModel {
    pub derived_from: Option<Seq<char>>,
    pub dim_element: DimElementModel,
    pub name: Seq<char>,
    pub display_name: Option<Seq<char>>,
    pub description: Option<Seq<char>>,
    pub alternate_group: Option<Seq<char>>,
    pub alternate_register: Option<Seq<char>>,
    pub address_offset: ScaledNonNegativeInteger,
    pub register_properties: RegisterPropertiesGroup,
    pub data_type: Option<DataType>,
    pub modified_write_values: Option<ModifiedWriteValues>,
    pub read_action: Option<ReadAction>,
    pub fields: Option<Seq<FieldModel>>,
}

impl DeepView for Register {
    type V = RegisterModel;

    open spec fn deep_view(&self) -> RegisterModel {
        RegisterModel {
            derived_from: self.derived_from.deep_view(),
            dim_element: self.dim_element.deep_view(),
            name: self.name@,
            display_name: self.display_name.deep_view(),
            description: self.description.deep_view(),
            alternate_group: self.alternate_group.deep_view(),
            alternate_register: self.alternate_register.deep_view(),
            address_offset: self.address_offset,
            register_properties: self.register_properties,
            data_type: self.data_type,
            modified_write_values: self.modified_write_values,
            read_action: self.read_action,
            fields: self.fields.deep_view(),
        }
    }
}

impl Duplicate for Register {
    fn duplicate(&self) -> (r: Self) {
        Register {
            derived_from: copy_text(&self.derived_from),
            dim_element: self.dim_element.duplicate(),
            name: self.name.clone(),
            display_name: copy_text(&self.display_name),
            description: copy_text(&self.description),
            alternate_group: copy_text(&self.alternate_group),
            alternate_register: copy_text(&self.alternate_register),
            address_offset: self.address_offset,
            register_properties: self.register_properties,
            data_type: self.data_type,
            modified_write_values: self.modified_write_values,
            read_action: self.read_action,
            fields: copy_opt_vec(&self.fields),
        }
    }
}

/// Bit size of a register whose properties give none.
pub const DEFAULT_REGISTER_SIZE: u64 = 32;

impl RegisterModel {
    /// This register after taking what it leaves unset from `src`, and `src`'s
    /// own `derivedFrom`.
    pub open spec fn merged(self, src: RegisterModel) -> RegisterModel {
        RegisterModel {
            derived_from: src.derived_from,
            dim_element: self.dim_element.merged(src.dim_element),
            display_name: first_some(self.display_name, src.display_name),
            description: first_some(self.description, src.description),
            alternate_group: first_some(self.alternate_group, src.alternate_group),
            alternate_register: first_some(self.alternate_register, src.alternate_register),
            register_properties: self.register_properties.spec_merge(src.register_properties),
            data_type: first_some(self.data_type, src.data_type),
            modified_write_values: first_some(self.modified_write_values, src.modified_write_values),
            read_action: first_some(self.read_action, src.read_action),
            fields: first_nonempty(self.fields, src.fields),
            ..self
        }
    }

    /// This register with the `derivedFrom` references among its fields resolved.
    pub open spec fn resolved(self) -> Result<RegisterModel, ErrorModel> {
        match self.fields {
            None => Ok(self),
            Some(fs) => match resolve_scope::<Field>(fs) {
                Ok(t) => Ok(RegisterModel { fields: Some(t), ..self }),
                Err(e) => Err(e),
            },
        }
    }

    /// This register with `parent` filling the properties it leaves unset.
    pub open spec fn cascaded(self, parent: RegisterPropertiesGroup) -> RegisterModel {
        RegisterModel { register_properties: self.register_properties.spec_merge(parent), ..self }
    }

    /// Bit size of this register: its own, else the default.
    pub open spec fn size(self) -> u64 {
        match self.register_properties.size {
            Some(s) => s.0,
            None => DEFAULT_REGISTER_SIZE,
        }
    }
}

impl Register {
    pub fn is_read(&self) -> (r: bool)
        ensures
            r == readable(self.register_properties.access),
    {
        option_is_read(&self.register_properties.access)
    }

    pub fn is_write(&self) -> (r: bool)
        ensures
            r == writable(self.register_properties.access),
    {
        option_is_write(&self.register_properties.access)
    }

    pub fn size(&self) -> (r: u64)
        ensures
            r == self.deep_view().size(),
    {
        match self.register_properties.size {
            Some(s) => s.0,
            None => DEFAULT_REGISTER_SIZE,
        }
    }

    pub fn merge_derived_from(&mut self, derived_from: &Register)
        ensures
            final(self).deep_view() == old(self).deep_view().merged(derived_from.deep_view()),
    {
        self.derived_from = copy_text(&derived_from.derived_from);
        self.dim_element.merge_derived_from(&derived_from.dim_element);
        self.display_name = first_text(&self.display_name, &derived_from.display_name);
        self.description = first_text(&self.description, &derived_from.description);
        self.alternate_group = first_text(&self.alternate_group, &derived_from.alternate_group);
        self.alternate_register = first_text(
            &self.alternate_register,
            &derived_from.alternate_register,
        );
        self.register_properties = self.register_properties.merge(
            &derived_from.register_properties,
        );
        self.data_type = first_present(self.data_type, derived_from.data_type);
        self.modified_write_values = first_present(
            self.modified_write_values,
            derived_from.modified_write_values,
        );
        self.read_action = first_present(self.read_action, derived_from.read_action);
        let empty = match &self.fields {
            Some(fs) => fs.len() == 0,
            None => true,
        };
        if empty {
            self.fields = copy_opt_vec(&derived_from.fields);
        }
    }

    /// Resolves the `derivedFrom` references among the fields of this register.
    /// On failure the register is left as it was.
    pub fn propagate_derived_from(&mut self) -> (r: Result<(), Error>)
        ensures
            match old(self).deep_view().resolved() {
                Ok(m) => r is Ok && final(self).deep_view() == m,
                Err(e) => r is Err && r->Err_0.deep_view() == e && final(self).deep_view()
                    == old(self).deep_view(),
            },
    {
        match self.fields.take() {
            None => Ok(()),
            Some(mut fields) => {
                let r = resolve_siblings(&mut fields);
                self.fields = Some(fields);
                r
            },
        }
    }
}

/// Resolving a register whose fields name no source changes nothing.
pub proof fn lemma_register_without_references(r: RegisterModel)
    requires
        r.fields is Some ==> forall|i: int|
            0 <= i < r.fields->Some_0.len() ==> (#[trigger] r.fields->Some_0[i]).derived_from is None,
    ensures
        r.resolved() == Ok::<RegisterModel, ErrorModel>(r),
{
    if r.fields is Some {
        crate::derivation::lemma_resolve_without_references::<Field>(r.fields->Some_0);
    }
}

} // verus!
