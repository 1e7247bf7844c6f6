use vstd::prelude::*;
use vstd::string::StringExecFns;

verus! {

/// Access mode of a register or a field.
#[derive(Clone, Copy, Debug, PartialEq, Eq, Structural, PartialOrd, Ord, Hash)]
pub enum Access {
    ReadOnly,
    WriteOnly,
    ReadWrite,
    WriteOnce,
    ReadWriteOnce,
}

impl Access {
    /// Whether this mode lets software read the value.
    pub open spec fn spec_is_read(&self) -> bool {
        *self is ReadOnly || *self is ReadWrite || *self is ReadWriteOnce
    }

    /// Whether this mode lets software write the value.
    pub open spec fn spec_is_write(&self) -> bool {
        !(*self is ReadOnly)
    }

    #[verifier::when_used_as_spec(spec_is_read)]
    pub fn is_read(&self) -> (r: bool)
        ensures
            r == self.spec_is_read(),
    {
        match *self {
            Access::ReadOnly | Access::ReadWrite | Access::ReadWriteOnce => true,
            Access::WriteOnly | Access::WriteOnce => false,
        }
    }

    #[verifier::when_used_as_spec(spec_is_write)]
    pub fn is_write(&self) -> (r: bool)
        ensures
            r == self.spec_is_write(),
    {
        match *self {
            Access::ReadOnly => false,
            Access::WriteOnly | Access::ReadWrite | Access::WriteOnce | Access::ReadWriteOnce => {
                true
            },
        }
    }
}

/// Read permission of an optional access mode: absent means permitted.
pub open spec fn readable(a: Option<Access>) -> bool {
    match a {
        Some(m) => m.spec_is_read(),
        None => true,
    }
}

/// Write permission of an optional access mode: absent means permitted.
pub open spec fn writable(a: Option<Access>) -> bool {
    match a {
        Some(m) => m.spec_is_write(),
        None => true,
    }
}

pub fn option_is_read(a: &Option<Access>) -> (r: bool)
    ensures
        r == readable(*a),
{
    match a {
        Some(m) => m.is_read(),
        None => true,
    }
}

pub fn option_is_write(a: &Option<Access>) -> (r: bool)
    ensures
        r == writable(*a),
{
    match a {
        Some(m) => m.is_write(),
        None => true,
    }
}

} // verus!

verus! {

/// The Access that a text names, where it names one.
pub open spec fn access_named(s: Seq<char>) -> Option<Access> {
    if s == "read-only"@ {
        Some(Access::ReadOnly)
    } else if s == "write-only"@ {
        Some(Access::WriteOnly)
    } else if s == "read-write"@ {
        Some(Access::ReadWrite)
    } else if s == "writeOnce"@ {
        Some(Access::WriteOnce)
    } else if s == "read-writeOnce"@ {
        Some(Access::ReadWriteOnce)
    } else {
        None
    }
}

impl Access {
    /// The Access that `s` names.
    pub fn from_name(s: &str) -> (r: Result<Access, crate::errors::Error>)
        ensures
            match access_named(s@) {
                Some(v) => r == Ok::<Access, crate::errors::Error>(v),
                None => r is Err && r->Err_0 is UnexpectedValue,
            },
    {
        let t = String::from_str(s);
        if t == String::from_str("read-only") {
            Ok(Access::ReadOnly)
        } else if t == String::from_str("write-only") {
            Ok(Access::WriteOnly)
        } else if t == String::from_str("read-write") {
            Ok(Access::ReadWrite)
        } else if t == String::from_str("writeOnce") {
            Ok(Access::WriteOnce)
        } else if t == String::from_str("read-writeOnce") {
            Ok(Access::ReadWriteOnce)
        } else {
            Err(crate::errors::Error::UnexpectedValue(String::from_str("one of read-only, write-only, read-write, writeOnce or read-writeOnce"), t))
        }
    }
}

} // verus!
