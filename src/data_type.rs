use vstd::prelude::*;
use vstd::string::StringExecFns;

verus! {

/// Data type hint of a register.
#[derive(Clone, Copy, Debug, PartialEq, Eq, Structural, PartialOrd, Ord, Hash)]
pub enum DataType {
    UInt8,
    UInt16,
    UInt32,
    UInt64,
    Int8,
    Int16,
    Int32,
    Int64,
    UInt8Ptr,
    UInt16Ptr,
    UInt32Ptr,
    UInt64Ptr,
    Int8Ptr,
    Int16Ptr,
    Int32Ptr,
    Int64Ptr,
}

} // verus!

verus! {

/// The DataType that a text names, where it names one.
pub open spec fn data_type_named(s: Seq<char>) -> Option<DataType> {
    if s == "uint8_t"@ {
        Some(DataType::UInt8)
    } else if s == "uint16_t"@ {
        Some(DataType::UInt16)
    } else if s == "uint32_t"@ {
        Some(DataType::UInt32)
    } else if s == "uint64_t"@ {
        Some(DataType::UInt64)
    } else if s == "int8_t"@ {
        Some(DataType::Int8)
    } else if s == "int16_t"@ {
        Some(DataType::Int16)
    } else if s == "int32_t"@ {
        Some(DataType::Int32)
    } else if s == "int64_t"@ {
        Some(DataType::Int64)
    } else if s == "uint8_t *"@ {
        Some(DataType::UInt8Ptr)
    } else if s == "uint16_t *"@ {
        Some(DataType::UInt16Ptr)
    } else if s == "uint32_t *"@ {
        Some(DataType::UInt32Ptr)
    } else if s == "uint64_t *"@ {
        Some(DataType::UInt64Ptr)
    } else if s == "int8_t *"@ {
        Some(DataType::Int8Ptr)
    } else if s == "int16_t *"@ {
        Some(DataType::Int16Ptr)
    } else if s == "int32_t *"@ {
        Some(DataType::Int32Ptr)
    } else if s == "int64_t *"@ {
        Some(DataType::Int64Ptr)
    } else {
        None
    }
}

impl DataType {
    /// The DataType that `s` names.
    pub fn from_name(s: &str) -> (r: Result<DataType, crate::errors::Error>)
        ensures
            match data_type_named(s@) {
                Some(v) => r == Ok::<DataType, crate::errors::Error>(v),
                None => r is Err && r->Err_0 is UnexpectedValue,
            },
    {
        let t = String::from_str(s);
        if t == String::from_str("uint8_t") {
            Ok(DataType::UInt8)
        } else if t == String::from_str("uint16_t") {
            Ok(DataType::UInt16)
        } else if t == String::from_str("uint32_t") {
            Ok(DataType::UInt32)
        } else if t == String::from_str("uint64_t") {
            Ok(DataType::UInt64)
        } else if t == String::from_str("int8_t") {
            Ok(DataType::Int8)
        } else if t == String::from_str("int16_t") {
            Ok(DataType::Int16)
        } else if t == String::from_str("int32_t") {
            Ok(DataType::Int32)
        } else if t == String::from_str("int64_t") {
            Ok(DataType::Int64)
        } else if t == String::from_str("uint8_t *") {
            Ok(DataType::UInt8Ptr)
        } else if t == String::from_str("uint16_t *") {
            Ok(DataType::UInt16Ptr)
        } else if t == String::from_str("uint32_t *") {
            Ok(DataType::UInt32Ptr)
        } else if t == String::from_str("uint64_t *") {
            Ok(DataType::UInt64Ptr)
        } else if t == String::from_str("int8_t *") {
            Ok(DataType::Int8Ptr)
        } else if t == String::from_str("int16_t *") {
            Ok(DataType::Int16Ptr)
        } else if t == String::from_str("int32_t *") {
            Ok(DataType::Int32Ptr)
        } else if t == String::from_str("int64_t *") {
            Ok(DataType::Int64Ptr)
        } else {
            Err(crate::errors::Error::UnexpectedValue(String::from_str("one of uint8_t, uint16_t, uint32_t, uint64_t, int8_t, int16_t, int32_t, int64_t, uint8_t *, uint16_t *, uint32_t *, uint64_t *, int8_t *, int16_t *, int32_t * or int64_t *"), t))
        }
    }
}

} // verus!
