use vstd::prelude::*;
use vstd::string::StringExecFns;
use crate::register_properties_group::Protection;
use crate::types::ScaledNonNegativeInteger;
use crate::utils::Duplicate;

verus! {

/// Use of an address block.
#[derive(Clone, Copy, Debug, PartialEq, Eq, Structural, PartialOrd, Ord, Hash)]
pub enum Usage {
    Registers,
    Buffer,
    Reserved,
}

/// A block of addresses of a peripheral.
#[derive(Clone, Copy, Debug, PartialEq, Eq, Structural)]
pub struct AddresBlock {
    pub offset: ScaledNonNegativeInteger,
    pub size: ScaledNonNegativeInteger,
    pub usage: Usage,
    pub protection: Option<Protection>,
}

impl DeepView for AddresBlock {
    type V = AddresBlock;

    open spec fn deep_view(&self) -> AddresBlock {
        *self
    }
}

impl Duplicate for AddresBlock {
    fn duplicate(&self) -> (r: Self) {
        *self
    }
}

} // verus!

verus! {

/// The Usage that a text names, where it names one.
pub open spec fn usage_named(s: Seq<char>) -> Option<Usage> {
    if s == "registers"@ {
        Some(Usage::Registers)
    } else if s == "buffer"@ {
        Some(Usage::Buffer)
    } else if s == "reserved"@ {
        Some(Usage::Reserved)
    } else {
        None
    }
}

impl Usage {
    /// The Usage that `s` names.
    pub fn from_name(s: &str) -> (r: Result<Usage, crate::errors::Error>)
        ensures
            match usage_named(s@) {
                Some(v) => r == Ok::<Usage, crate::errors::Error>(v),
                None => r is Err && r->Err_0 is UnexpectedValue,
            },
    {
        let t = String::from_str(s);
        if t == String::from_str("registers") {
            Ok(Usage::Registers)
        } else if t == String::from_str("buffer") {
            Ok(Usage::Buffer)
        } else if t == String::from_str("reserved") {
            Ok(Usage::Reserved)
        } else {
            Err(crate::errors::Error::UnexpectedValue(String::from_str("one of registers, buffer or reserved"), t))
        }
    }
}

} // verus!
