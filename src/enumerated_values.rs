use vstd::prelude::*;
use vstd::string::StringExecFns;
use crate::utils::{copy_text, copy_vec, Duplicate};

verus! {

/// Intended use of a set of enumerated values.
#[derive(Clone, Copy, Debug, PartialEq, Eq, Structural, PartialOrd, Ord, Hash)]
pub enum EnumUsage {
    Read,
    Write,
    ReadWrite,
}

/// The value of an enumerated value: a default marker, or a bit pattern in
/// which the bits of `do_not_care` may take any value.
#[derive(Clone, Copy, Debug, PartialEq, Eq, Structural, PartialOrd, Ord, Hash)]
pub enum EnumeratedValueData {
    IsDefault(bool),
    Value { value: u64, do_not_care: u64 },
}

/// A named value of a field.
#[derive(Clone, Debug)]
pub struct EnumeratedValue {
    pub name: String,
    pub description: Option<String>,
    pub value: EnumeratedValueData,
}

/// A set of named values of a field.
#[derive(Clone, Debug)]
pub struct EnumeratedValues {
    pub derived_from: Option<String>,
    pub name: Option<String>,
    pub usage: Option<EnumUsage>,
    pub enumerated_values: Vec<EnumeratedValue>,
}

/// Mathematical model of an [`EnumeratedValue`].
pub ghost struct EnumeratedValueModel {
    pub name: Seq<char>,
    pub description: Option<Seq<char>>,
    pub value: EnumeratedValueData,
}

/// Mathematical model of an [`EnumeratedValues`].
pub ghost struct EnumeratedValuesModel {
    pub derived_from: Option<Seq<char>>,
    pub name: Option<Seq<char>>,
    pub usage: Option<EnumUsage>,
    pub enumerated_values: Seq<EnumeratedValueModel>,
}

impl DeepView for EnumeratedValue {
    type V = EnumeratedValueModel;

    open spec fn deep_view(&self) -> EnumeratedValueModel {
        EnumeratedValueModel {
            name: self.name@,
            description: self.description.deep_view(),
            value: self.value,
        }
    }
}

impl DeepView for EnumeratedValues {
    type V = EnumeratedValuesModel;

    open spec fn deep_view(&self) -> EnumeratedValuesModel {
        EnumeratedValuesModel {
            derived_from: self.derived_from.deep_view(),
            name: self.name.deep_view(),
            usage: self.usage,
            enumerated_values: self.enumerated_values.deep_view(),
        }
    }
}

impl Duplicate for EnumeratedValue {
    fn duplicate(&self) -> (r: Self) {
        EnumeratedValue {
            name: self.name.clone(),
            description: copy_text(&self.description),
            value: self.value,
        }
    }
}

impl Duplicate for EnumeratedValues {
    fn duplicate(&self) -> (r: Self) {
        EnumeratedValues {
            derived_from: copy_text(&self.derived_from),
            name: copy_text(&self.name),
            usage: self.usage,
            enumerated_values: copy_vec(&self.enumerated_values),
        }
    }
}

} // verus!

verus! {

/// Whether two optional texts are equal.
pub fn same_text(a: &Option<String>, b: &Option<String>) -> (r: bool)
    ensures
        r == (a.deep_view() == b.deep_view()),
{
    match (a, b) {
        (Some(x), Some(y)) => *x == *y,
        (None, None) => true,
        _ => false,
    }
}

impl EnumeratedValue {
    pub fn same_as(&self, other: &EnumeratedValue) -> (r: bool)
        ensures
            r == (self.deep_view() == other.deep_view()),
    {
        self.name == other.name && same_text(&self.description, &other.description)
            && self.value == other.value
    }
}

impl EnumeratedValues {
    pub fn same_as(&self, other: &EnumeratedValues) -> (r: bool)
        ensures
            r == (self.deep_view() == other.deep_view()),
    {
        if !(same_text(&self.derived_from, &other.derived_from) && same_text(&self.name, &other.name)
            && self.usage == other.usage) {
            return false;
        }
        let a = &self.enumerated_values;
        let b = &other.enumerated_values;
        if a.len() != b.len() {
            assert(a.deep_view().len() != b.deep_view().len());
            return false;
        }
        let mut i: usize = 0;
        while i < a.len()
            invariant
                i <= a.len(),
                a.len() == b.len(),
                self.deep_view().enumerated_values == a.deep_view(),
                other.deep_view().enumerated_values == b.deep_view(),
                forall|k: int| 0 <= k < i ==> a.deep_view()[k] == #[trigger] b.deep_view()[k],
            decreases a.len() - i,
        {
            if !a[i].same_as(&b[i]) {
                assert(a.deep_view()[i as int] != b.deep_view()[i as int]);
                return false;
            }
            i = i + 1;
        }
        assert(a.deep_view() =~= b.deep_view());
        true
    }
}

/// Whether two lists of enumerated value sets are equal.
pub fn same_enumerated_values(a: &Vec<EnumeratedValues>, b: &Vec<EnumeratedValues>) -> (r: bool)
    ensures
        r == (a.deep_view() == b.deep_view()),
{
    if a.len() != b.len() {
        assert(a.deep_view().len() != b.deep_view().len());
        return false;
    }
    let mut i: usize = 0;
    while i < a.len()
        invariant
            i <= a.len(),
            a.len() == b.len(),
            forall|k: int| 0 <= k < i ==> a.deep_view()[k] == #[trigger] b.deep_view()[k],
        decreases a.len() - i,
    {
        if !a[i].same_as(&b[i]) {
            assert(a.deep_view()[i as int] != b.deep_view()[i as int]);
            return false;
        }
        i = i + 1;
    }
    assert(a.deep_view() =~= b.deep_view());
    true
}

} // verus!

verus! {

/// The EnumUsage that a text names, where it names one.
pub open spec fn enum_usage_named(s: Seq<char>) -> Option<EnumUsage> {
    if s == "read"@ {
        Some(EnumUsage::Read)
    } else if s == "write"@ {
        Some(EnumUsage::Write)
    } else if s == "read-write"@ {
        Some(EnumUsage::ReadWrite)
    } else {
        None
    }
}

impl EnumUsage {
    /// The EnumUsage that `s` names.
    pub fn from_name(s: &str) -> (r: Result<EnumUsage, crate::errors::Error>)
        ensures
            match enum_usage_named(s@) {
                Some(v) => r == Ok::<EnumUsage, crate::errors::Error>(v),
                None => r is Err && r->Err_0 is UnexpectedValue,
            },
    {
        let t = String::from_str(s);
        if t == String::from_str("read") {
            Ok(EnumUsage::Read)
        } else if t == String::from_str("write") {
            Ok(EnumUsage::Write)
        } else if t == String::from_str("read-write") {
            Ok(EnumUsage::ReadWrite)
        } else {
            Err(crate::errors::Error::UnexpectedValue(String::from_str("one of read, write or read-write"), t))
        }
    }
}

} // verus!
