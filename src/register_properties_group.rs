use vstd::prelude::*;
use vstd::string::StringExecFns;
use crate::access::Access;
use crate::types::ScaledNonNegativeInteger;

verus! {

/// Protection level of a register.
#[derive(Clone, Copy, Debug, PartialEq, Eq, Structural, PartialOrd, Ord, Hash)]
pub enum Protection {
    Secure,
    NonSecure,
    Privileged,
}

/// Default register properties; an absent value is inherited.
#[derive(Clone, Copy, Debug, PartialEq, Eq, Structural)]
pub struct RegisterPropertiesGroup {
    pub size: Option<ScaledNonNegativeInteger>,
    pub access: Option<Access>,
    pub protection: Option<Protection>,
    pub reset_value: Option<ScaledNonNegativeInteger>,
    pub reset_mask: Option<ScaledNonNegativeInteger>,
}

/// The first of two optional values that is present.
pub open spec fn first_some<T>(a: Option<T>, b: Option<T>) -> Option<T> {
    if a is Some {
        a
    } else {
        b
    }
}

/// The first of two optional values that is present.
pub fn first_present<T: Copy>(a: Option<T>, b: Option<T>) -> (r: Option<T>)
    ensures
        r == first_some(a, b),
{
    match a {
        Some(_) => a,
        None => b,
    }
}

/// An optional list that is absent or empty takes `b`; another keeps its items.
pub open spec fn first_nonempty<T>(a: Option<Seq<T>>, b: Option<Seq<T>>) -> Option<Seq<T>> {
    match a {
        Some(x) => if x.len() > 0 {
            a
        } else {
            b
        },
        None => b,
    }
}

impl RegisterPropertiesGroup {
    /// Each property of `self`, or of `other` where `self` has none.
    pub open spec fn spec_merge(self, other: RegisterPropertiesGroup) -> RegisterPropertiesGroup {
        RegisterPropertiesGroup {
            size: first_some(self.size, other.size),
            access: first_some(self.access, other.access),
            protection: first_some(self.protection, other.protection),
            reset_value: first_some(self.reset_value, other.reset_value),
            reset_mask: first_some(self.reset_mask, other.reset_mask),
        }
    }

    pub fn merge(&self, other: &RegisterPropertiesGroup) -> (r: RegisterPropertiesGroup)
        ensures
            r == self.spec_merge(*other),
    {
        RegisterPropertiesGroup {
            size: first_present(self.size, other.size),
            access: first_present(self.access, other.access),
            protection: first_present(self.protection, other.protection),
            reset_value: first_present(self.reset_value, other.reset_value),
            reset_mask: first_present(self.reset_mask, other.reset_mask),
        }
    }
}

} // verus!

verus! {

/// The Protection that a text names, where it names one.
pub open spec fn protection_named(s: Seq<char>) -> Option<Protection> {
    if s == "s"@ {
        Some(Protection::Secure)
    } else if s == "n"@ {
        Some(Protection::NonSecure)
    } else if s == "p"@ {
        Some(Protection::Privileged)
    } else {
        None
    }
}

impl Protection {
    /// The Protection that `s` names.
    pub fn from_name(s: &str) -> (r: Result<Protection, crate::errors::Error>)
        ensures
            match protection_named(s@) {
                Some(v) => r == Ok::<Protection, crate::errors::Error>(v),
                None => r is Err && r->Err_0 is UnexpectedValue,
            },
    {
        let t = String::from_str(s);
        if t == String::from_str("s") {
            Ok(Protection::Secure)
        } else if t == String::from_str("n") {
            Ok(Protection::NonSecure)
        } else if t == String::from_str("p") {
            Ok(Protection::Privileged)
        } else {
            Err(crate::errors::Error::UnexpectedValue(String::from_str("one of s, n or p"), t))
        }
    }
}

} // verus!
