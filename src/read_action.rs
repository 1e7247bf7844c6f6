use vstd::prelude::*;
use vstd::string::StringExecFns;

verus! {

/// Side effect of reading a register or a field.
#[derive(Clone, Copy, Debug, PartialEq, Eq, Structural, PartialOrd, Ord, Hash)]
pub enum ReadAction {
    Clear,
    SetBits,
    Modify,
    ModifyExternal,
}

} // verus!

verus! {

/// The ReadAction that a text names, where it names one.
pub open spec fn read_action_named(s: Seq<char>) -> Option<ReadAction> {
    if s == "clear"@ {
        Some(ReadAction::Clear)
    } else if s == "set"@ {
        Some(ReadAction::SetBits)
    } else if s == "modify"@ {
        Some(ReadAction::Modify)
    } else if s == "modifyExternal"@ {
        Some(ReadAction::ModifyExternal)
    } else {
        None
    }
}

impl ReadAction {
    /// The ReadAction that `s` names.
    pub fn from_name(s: &str) -> (r: Result<ReadAction, crate::errors::Error>)
        ensures
            match read_action_named(s@) {
                Some(v) => r == Ok::<ReadAction, crate::errors::Error>(v),
                None => r is Err && r->Err_0 is UnexpectedValue,
            },
    {
        let t = String::from_str(s);
        if t == String::from_str("clear") {
            Ok(ReadAction::Clear)
        } else if t == String::from_str("set") {
            Ok(ReadAction::SetBits)
        } else if t == String::from_str("modify") {
            Ok(ReadAction::Modify)
        } else if t == String::from_str("modifyExternal") {
            Ok(ReadAction::ModifyExternal)
        } else {
            Err(crate::errors::Error::UnexpectedValue(String::from_str("one of clear, set, modify or modifyExternal"), t))
        }
    }
}

} // verus!
