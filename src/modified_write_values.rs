use vstd::prelude::*;
use vstd::string::StringExecFns;

verus! {

/// Effect of a write on the bits of a register or a field.
#[derive(Clone, Copy, Debug, PartialEq, Eq, Structural, PartialOrd, Ord, Hash)]
pub enum ModifiedWriteValues {
    OneToClear,
    OneToSet,
    OneToToggle,
    ZeroToClear,
    ZeroToSet,
    ZeroToToggle,
    Clear,
    SetBits,
    Modify,
}

} // verus!

verus! {

/// The ModifiedWriteValues that a text names, where it names one.
pub open spec fn modified_write_values_named(s: Seq<char>) -> Option<ModifiedWriteValues> {
    if s == "oneToClear"@ {
        Some(ModifiedWriteValues::OneToClear)
    } else if s == "oneToSet"@ {
        Some(ModifiedWriteValues::OneToSet)
    } else if s == "oneToToggle"@ {
        Some(ModifiedWriteValues::OneToToggle)
    } else if s == "zeroToClear"@ {
        Some(ModifiedWriteValues::ZeroToClear)
    } else if s == "zeroToSet"@ {
        Some(ModifiedWriteValues::ZeroToSet)
    } else if s == "zeroToToggle"@ {
        Some(ModifiedWriteValues::ZeroToToggle)
    } else if s == "clear"@ {
        Some(ModifiedWriteValues::Clear)
    } else if s == "set"@ {
        Some(ModifiedWriteValues::SetBits)
    } else if s == "modify"@ {
        Some(ModifiedWriteValues::Modify)
    } else {
        None
    }
}

impl ModifiedWriteValues {
    /// The ModifiedWriteValues that `s` names.
    pub fn from_name(s: &str) -> (r: Result<ModifiedWriteValues, crate::errors::Error>)
        ensures
            match modified_write_values_named(s@) {
                Some(v) => r == Ok::<ModifiedWriteValues, crate::errors::Error>(v),
                None => r is Err && r->Err_0 is UnexpectedValue,
            },
    {
        let t = String::from_str(s);
        if t == String::from_str("oneToClear") {
            Ok(ModifiedWriteValues::OneToClear)
        } else if t == String::from_str("oneToSet") {
            Ok(ModifiedWriteValues::OneToSet)
        } else if t == String::from_str("oneToToggle") {
            Ok(ModifiedWriteValues::OneToToggle)
        } else if t == String::from_str("zeroToClear") {
            Ok(ModifiedWriteValues::ZeroToClear)
        } else if t == String::from_str("zeroToSet") {
            Ok(ModifiedWriteValues::ZeroToSet)
        } else if t == String::from_str("zeroToToggle") {
            Ok(ModifiedWriteValues::ZeroToToggle)
        } else if t == String::from_str("clear") {
            Ok(ModifiedWriteValues::Clear)
        } else if t == String::from_str("set") {
            Ok(ModifiedWriteValues::SetBits)
        } else if t == String::from_str("modify") {
            Ok(ModifiedWriteValues::Modify)
        } else {
            Err(crate::errors::Error::UnexpectedValue(String::from_str("one of oneToClear, oneToSet, oneToToggle, zeroToClear, zeroToSet, zeroToToggle, clear, set or modify"), t))
        }
    }
}

} // verus!
