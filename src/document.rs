//! Building the model from a parsed description document.
use vstd::prelude::*;
use crate::access::Access;
use crate::data_type::DataType;
use crate::element::{child_text, get_child_text, Element};
use crate::enumerated_values::EnumUsage;
use crate::errors::Error;
use crate::modified_write_values::ModifiedWriteValues;
use crate::read_action::ReadAction;
use crate::register_properties_group::Protection;
use crate::types::{parse_digits, parse_radix, scaled_value, scaled_value_of, ScaledNonNegativeInteger};
use crate::bit_range::BitRange;
use crate::register_properties_group::RegisterPropertiesGroup;
use crate::enumerated_values::{
    EnumeratedValue,
    EnumeratedValueData,
    EnumeratedValueModel,
    EnumeratedValues,
    EnumeratedValuesModel,
};
use crate::field::{Field, FieldModel};
use crate::register::{Register, RegisterModel};
use crate::cluster::{Cluster, ClusterModel};
use crate::register_or_cluster::{RegisterOrCluster, RegisterOrClusterModel};
use crate::element::child_index;
use crate::address_block::{AddresBlock, Usage};
use crate::interrupt::{Interrupt, InterruptModel};
use crate::peripheral::{Peripheral, PeripheralModel};
use crate::device::{Device, DeviceModel};
use crate::types::{all_digits, radix_value};
use crate::element::attribute_value;
use crate::dim_element_group::{dim_index_char, is_dim_index_str_valid, DimElementGroup, DimElementModel, DimIndexModel, DimIndexType};
use vstd::string::{StrSliceExecFns, StringExecFns};

verus! {

/// An optional child value parsed by `f`: `Some(None)` where the child is
/// absent, `Some(Some(v))` where it parses as `v`, `None` where it does not parse.
pub open spec fn parsed_child<T>(t: Option<Seq<char>>, f: spec_fn(Seq<char>) -> Option<T>) -> Option<Option<T>> {
    match t {
        None => Some(None),
        Some(s) => match f(s) {
            Some(v) => Some(Some(v)),
            None => None,
        },
    }
}

/// The optional child `name` of `e` read as a value of type `ScaledNonNegativeInteger`.
pub open spec fn opt_scaled(e: Element, name: Seq<char>) -> Option<Option<ScaledNonNegativeInteger>> {
    parsed_child(child_text(e, name), |s: Seq<char>| crate::types::scaled_value_of(s))
}

pub fn child_scaled(e: &Element, name: &str) -> (r: Result<Option<ScaledNonNegativeInteger>, Error>)
    ensures
        match opt_scaled(*e, name@) {
            Some(v) => r == Ok::<Option<ScaledNonNegativeInteger>, Error>(v),
            None => r is Err,
        },
{
    match get_child_text(e, name) {
        None => Ok(None),
        Some(t) => match ScaledNonNegativeInteger::from_str(t.as_str()) {
            Ok(v) => Ok(Some(v)),
            Err(x) => Err(x),
        },
    }
}

/// The optional child `name` of `e` read as a value of type `Access`.
pub open spec fn opt_access(e: Element, name: Seq<char>) -> Option<Option<Access>> {
    parsed_child(child_text(e, name), |s: Seq<char>| crate::access::access_named(s))
}

pub fn child_access(e: &Element, name: &str) -> (r: Result<Option<Access>, Error>)
    ensures
        match opt_access(*e, name@) {
            Some(v) => r == Ok::<Option<Access>, Error>(v),
            None => r is Err,
        },
{
    match get_child_text(e, name) {
        None => Ok(None),
        Some(t) => match Access::from_name(t.as_str()) {
            Ok(v) => Ok(Some(v)),
            Err(x) => Err(x),
        },
    }
}

/// The optional child `name` of `e` read as a value of type `Protection`.
pub open spec fn opt_protection(e: Element, name: Seq<char>) -> Option<Option<Protection>> {
    parsed_child(child_text(e, name), |s: Seq<char>| crate::register_properties_group::protection_named(s))
}

pub fn child_protection(e: &Element, name: &str) -> (r: Result<Option<Protection>, Error>)
    ensures
        match opt_protection(*e, name@) {
            Some(v) => r == Ok::<Option<Protection>, Error>(v),
            None => r is Err,
        },
{
    match get_child_text(e, name) {
        None => Ok(None),
        Some(t) => match Protection::from_name(t.as_str()) {
            Ok(v) => Ok(Some(v)),
            Err(x) => Err(x),
        },
    }
}

/// The optional child `name` of `e` read as a value of type `DataType`.
pub open spec fn opt_data_type(e: Element, name: Seq<char>) -> Option<Option<DataType>> {
    parsed_child(child_text(e, name), |s: Seq<char>| crate::data_type::data_type_named(s))
}

pub fn child_data_type(e: &Element, name: &str) -> (r: Result<Option<DataType>, Error>)
    ensures
        match opt_data_type(*e, name@) {
            Some(v) => r == Ok::<Option<DataType>, Error>(v),
            None => r is Err,
        },
{
    match get_child_text(e, name) {
        None => Ok(None),
        Some(t) => match DataType::from_name(t.as_str()) {
            Ok(v) => Ok(Some(v)),
            Err(x) => Err(x),
        },
    }
}

/// The optional child `name` of `e` read as a value of type `ModifiedWriteValues`.
pub open spec fn opt_modified_write_values(e: Element, name: Seq<char>) -> Option<Option<ModifiedWriteValues>> {
    parsed_child(child_text(e, name), |s: Seq<char>| crate::modified_write_values::modified_write_values_named(s))
}

pub fn child_modified_write_values(e: &Element, name: &str) -> (r: Result<Option<ModifiedWriteValues>, Error>)
    ensures
        match opt_modified_write_values(*e, name@) {
            Some(v) => r == Ok::<Option<ModifiedWriteValues>, Error>(v),
            None => r is Err,
        },
{
    match get_child_text(e, name) {
        None => Ok(None),
        Some(t) => match ModifiedWriteValues::from_name(t.as_str()) {
            Ok(v) => Ok(Some(v)),
            Err(x) => Err(x),
        },
    }
}

/// The optional child `name` of `e` read as a value of type `ReadAction`.
pub open spec fn opt_read_action(e: Element, name: Seq<char>) -> Option<Option<ReadAction>> {
    parsed_child(child_text(e, name), |s: Seq<char>| crate::read_action::read_action_named(s))
}

pub fn child_read_action(e: &Element, name: &str) -> (r: Result<Option<ReadAction>, Error>)
    ensures
        match opt_read_action(*e, name@) {
            Some(v) => r == Ok::<Option<ReadAction>, Error>(v),
            None => r is Err,
        },
{
    match get_child_text(e, name) {
        None => Ok(None),
        Some(t) => match ReadAction::from_name(t.as_str()) {
            Ok(v) => Ok(Some(v)),
            Err(x) => Err(x),
        },
    }
}

/// The optional child `name` of `e` read as a value of type `EnumUsage`.
pub open spec fn opt_enum_usage(e: Element, name: Seq<char>) -> Option<Option<EnumUsage>> {
    parsed_child(child_text(e, name), |s: Seq<char>| crate::enumerated_values::enum_usage_named(s))
}

pub fn child_enum_usage(e: &Element, name: &str) -> (r: Result<Option<EnumUsage>, Error>)
    ensures
        match opt_enum_usage(*e, name@) {
            Some(v) => r == Ok::<Option<EnumUsage>, Error>(v),
            None => r is Err,
        },
{
    match get_child_text(e, name) {
        None => Ok(None),
        Some(t) => match EnumUsage::from_name(t.as_str()) {
            Ok(v) => Ok(Some(v)),
            Err(x) => Err(x),
        },
    }
}

/// The register properties that the children of `e` give, where all that
/// are present parse.
pub open spec fn properties_of(e: Element) -> Option<RegisterPropertiesGroup> {
    match (
        opt_scaled(e, "size"@),
        opt_access(e, "access"@),
        opt_protection(e, "protection"@),
        opt_scaled(e, "resetValue"@),
        opt_scaled(e, "resetMask"@),
    ) {
        (Some(a), Some(b), Some(c), Some(d), Some(f)) => Some(
            RegisterPropertiesGroup {
                size: a,
                access: b,
                protection: c,
                reset_value: d,
                reset_mask: f,
            },
        ),
        _ => None,
    }
}

impl RegisterPropertiesGroup {
    pub fn from_element(element: &Element) -> (r: Result<RegisterPropertiesGroup, Error>)
        ensures
            match properties_of(*element) {
                Some(v) => r == Ok::<RegisterPropertiesGroup, Error>(v),
                None => r is Err,
            },
    {
        let size = child_scaled(element, "size")?;
        let access = child_access(element, "access")?;
        let protection = child_protection(element, "protection")?;
        let reset_value = child_scaled(element, "resetValue")?;
        let reset_mask = child_scaled(element, "resetMask")?;
        Ok(RegisterPropertiesGroup { size, access, protection, reset_value, reset_mask })
    }
}

/// Index of the first `c` in `s` from `k` on; -1 where there is none.
pub open spec fn index_of(s: Seq<char>, c: char, k: int) -> int
    decreases s.len() - k,
{
    if k < 0 || k >= s.len() {
        -1
    } else if s[k] == c {
        k
    } else {
        index_of(s, c, k + 1)
    }
}

/// A `u32` that a decimal text spells.
pub open spec fn u32_text(s: Seq<char>) -> Option<u32> {
    match parse_radix(s, 10) {
        Some(v) => if v <= u32::MAX {
            Some(v as u32)
        } else {
            None
        },
        None => None,
    }
}

/// The bit range of a text of the form `[msb:lsb]`, with `msb` not below `lsb`.
pub open spec fn bit_range_text(s: Seq<char>) -> Option<BitRange> {
    let c = index_of(s, ':', 0);
    if s.len() >= 2 && s[0] == '[' && s.last() == ']' && c >= 0 {
        match (u32_text(s.subrange(1, c)), u32_text(s.subrange(c + 1, s.len() - 1))) {
            (Some(m), Some(l)) => if l <= m {
                Some(BitRange { lsb: l, msb: m })
            } else {
                None
            },
            _ => None,
        }
    } else {
        None
    }
}

/// Whether `e` gives its bit range in none of the three accepted forms.
pub open spec fn bit_range_missing(e: Element) -> bool {
    &&& !(child_text(e, "bitOffset"@) is Some && child_text(e, "bitWidth"@) is Some)
    &&& !(child_text(e, "lsb"@) is Some && child_text(e, "msb"@) is Some)
    &&& child_text(e, "bitRange"@) is None
}

/// The bit range that `e` gives: an offset and a width, a least and a most
/// significant bit, or a text `[msb:lsb]`, tried in that order. A range of
/// no bit (a width of 0, or a most significant bit below the least) is none.
pub open spec fn bit_range_of(e: Element) -> Option<BitRange> {
    let off = child_text(e, "bitOffset"@);
    let w = child_text(e, "bitWidth"@);
    let l = child_text(e, "lsb"@);
    let m = child_text(e, "msb"@);
    let br = child_text(e, "bitRange"@);
    if off is Some && w is Some {
        match (scaled_value(off->Some_0), scaled_value(w->Some_0)) {
            (Some(o), Some(x)) => if x >= 1 && o + x - 1 <= u32::MAX {
                Some(BitRange { lsb: o as u32, msb: (o + x - 1) as u32 })
            } else {
                None
            },
            _ => None,
        }
    } else if l is Some && m is Some {
        match (scaled_value(l->Some_0), scaled_value(m->Some_0)) {
            (Some(a), Some(b)) => if a <= b && b <= u32::MAX {
                Some(BitRange { lsb: a as u32, msb: b as u32 })
            } else {
                None
            },
            _ => None,
        }
    } else if br is Some {
        bit_range_text(br->Some_0)
    } else {
        None
    }
}

fn parse_u32_text(s: &str) -> (r: Option<u32>)
    ensures
        r == u32_text(s@),
{
    assert(s@.subrange(0, s@.len() as int) =~= s@);
    match parse_digits(s, 0, 10) {
        Some(v) => if v <= u32::MAX as u64 {
            Some(v as u32)
        } else {
            None
        },
        None => None,
    }
}

fn parse_bit_range_text(s: &str) -> (r: Option<BitRange>)
    ensures
        r == bit_range_text(s@),
{
    let n = s.unicode_len();
    let mut c: usize = 0;
    while c < n
        invariant
            c <= n,
            n == s@.len(),
            index_of(s@, ':', 0) == index_of(s@, ':', c as int),
        ensures
            c <= n,
            index_of(s@, ':', 0) == index_of(s@, ':', c as int),
            c < n ==> s@[c as int] == ':',
        decreases n - c,
    {
        if s.get_char(c) == ':' {
            break;
        }
        c = c + 1;
    }
    if n < 2 || s.get_char(0) != '[' || s.get_char(n - 1) != ']' || c == n {
        return None;
    }
    assert(index_of(s@, ':', 0) == c);
    let m = parse_u32_text(s.substring_char(1, c));
    let l = parse_u32_text(s.substring_char(c + 1, n - 1));
    match (m, l) {
        (Some(m), Some(l)) => if l <= m {
            Some(BitRange { lsb: l, msb: m })
        } else {
            None
        },
        _ => None,
    }
}

impl BitRange {
    pub fn from_element(element: &Element) -> (r: Result<BitRange, Error>)
        ensures
            match bit_range_of(*element) {
                Some(b) => r == Ok::<BitRange, Error>(b),
                None => r is Err && (r->Err_0 is MissingField <==> bit_range_missing(*element)),
            },
            r is Ok ==> r->Ok_0.wf(),
    {
        let offset = get_child_text(element, "bitOffset");
        let width = get_child_text(element, "bitWidth");
        let lsb = get_child_text(element, "lsb");
        let msb = get_child_text(element, "msb");
        let bit_range = get_child_text(element, "bitRange");
        let bad = Error::UnexpectedValue(
            String::from_str("a bit range of at least one bit that fits in 32 bits"),
            String::new(),
        );
        if let (Some(offset), Some(width)) = (&offset, &width) {
            let o = ScaledNonNegativeInteger::from_str(offset.as_str())?;
            let w = ScaledNonNegativeInteger::from_str(width.as_str())?;
            if w.0 == 0 || o.0 > u32::MAX as u64 || w.0 - 1 > u32::MAX as u64 - o.0 {
                return Err(bad);
            }
            Ok(BitRange { lsb: o.0 as u32, msb: (o.0 + w.0 - 1) as u32 })
        } else if let (Some(lsb), Some(msb)) = (&lsb, &msb) {
            let l = ScaledNonNegativeInteger::from_str(lsb.as_str())?;
            let m = ScaledNonNegativeInteger::from_str(msb.as_str())?;
            if m.0 < l.0 || m.0 > u32::MAX as u64 {
                return Err(bad);
            }
            Ok(BitRange { lsb: l.0 as u32, msb: m.0 as u32 })
        } else if let Some(bit_range) = &bit_range {
            match parse_bit_range_text(bit_range.as_str()) {
                Some(b) => Ok(b),
                None => Err(
                    Error::UnexpectedValue(
                        String::from_str(" a value of the form \\[[0-9]+:[0-9]+\\]"),
                        bit_range.clone(),
                    ),
                ),
            }
        } else {
            Err(
                Error::MissingField(
                    String::from_str("field"),
                    String::from_str("bitOffset and bitWidth, lsb and msb, or bitRange"),
                ),
            )
        }
    }
}

/// The children of `cs` whose names `keep` accepts, each read by `f`, in
/// order; none where one of them cannot be read.
pub open spec fn parse_children<M>(
    cs: Seq<Element>,
    keep: spec_fn(Seq<char>) -> bool,
    f: spec_fn(Element) -> Option<M>,
) -> Option<Seq<M>>
    decreases cs.len(),
{
    if cs.len() == 0 {
        Some(Seq::empty())
    } else {
        match parse_children(cs.drop_last(), keep, f) {
            None => None,
            Some(p) => if keep(cs.last().name@) {
                match f(cs.last()) {
                    Some(x) => Some(p.push(x)),
                    None => None,
                }
            } else {
                Some(p)
            },
        }
    }
}

/// The value and don't-care masks of the bit pattern `s` (`0`, `1`, and `x`
/// or `X` for a bit of any value), most significant bit first.
pub open spec fn pattern_bits(s: Seq<char>) -> Option<(u64, u64)>
    decreases s.len(),
{
    if s.len() == 0 {
        Some((0u64, 0u64))
    } else {
        match pattern_bits(s.drop_last()) {
            None => None,
            Some((v, d)) => {
                let c = s.last();
                if c == 'x' || c == 'X' {
                    Some(((v << 1u64) as u64, ((d << 1u64) | 1u64) as u64))
                } else if c == '1' {
                    Some((((v << 1u64) | 1u64) as u64, (d << 1u64) as u64))
                } else if c == '0' {
                    Some(((v << 1u64) as u64, (d << 1u64) as u64))
                } else {
                    None
                }
            },
        }
    }
}

/// The data of an enumerated value given as text: after an optional `x`, a
/// `#` pattern holding `x` or `X` bits, else a non-negative integer literal.
pub open spec fn value_data_text(s: Seq<char>) -> Option<EnumeratedValueData> {
    let s1 = if s.len() > 0 && s[0] == 'x' {
        s.drop_first()
    } else {
        s
    };
    if s1.len() > 0 && s1[0] == '#' && (index_of(s1, 'x', 0) >= 0 || index_of(s1, 'X', 0) >= 0) {
        match pattern_bits(s1.drop_first()) {
            Some((v, d)) => Some(EnumeratedValueData::Value { value: v, do_not_care: d }),
            None => None,
        }
    } else {
        match scaled_value(s1) {
            Some(v) => Some(EnumeratedValueData::Value { value: v, do_not_care: 0 }),
            None => None,
        }
    }
}

/// The data of the enumerated value `e`: a default marker, else a value.
pub open spec fn value_data_of(e: Element) -> Option<EnumeratedValueData> {
    match child_text(e, "isDefault"@) {
        Some(t) => if t == "true"@ {
            Some(EnumeratedValueData::IsDefault(true))
        } else if t == "false"@ {
            Some(EnumeratedValueData::IsDefault(false))
        } else {
            None
        },
        None => match child_text(e, "value"@) {
            Some(t) => value_data_text(t),
            None => None,
        },
    }
}

/// The enumerated value that `e` describes.
pub open spec fn enumerated_value_of(e: Element) -> Option<EnumeratedValueModel> {
    match (child_text(e, "name"@), value_data_of(e)) {
        (Some(n), Some(v)) => Some(
            EnumeratedValueModel { name: n, description: child_text(e, "description"@), value: v },
        ),
        _ => None,
    }
}

/// The set of enumerated values that `e` describes: at least one value.
pub open spec fn enumerated_values_of(e: Element) -> Option<EnumeratedValuesModel> {
    match (
        opt_enum_usage(e, "usage"@),
        parse_children(
            e.children@,
            |n: Seq<char>| n == "enumeratedValue"@,
            |c: Element| enumerated_value_of(c),
        ),
    ) {
        (Some(u), Some(vs)) => if vs.len() > 0 {
            Some(
                EnumeratedValuesModel {
                    derived_from: attribute_value(e, "derivedFrom"@),
                    name: child_text(e, "name"@),
                    usage: u,
                    enumerated_values: vs,
                },
            )
        } else {
            None
        },
        _ => None,
    }
}

fn contains_char(s: &str, c: char) -> (r: bool)
    ensures
        r == (index_of(s@, c, 0) >= 0),
{
    let n = s.unicode_len();
    let mut i: usize = 0;
    while i < n
        invariant
            i <= n,
            n == s@.len(),
            index_of(s@, c, 0) == index_of(s@, c, i as int),
        decreases n - i,
    {
        if s.get_char(i) == c {
            return true;
        }
        i = i + 1;
    }
    false
}

impl EnumeratedValueData {
    pub fn from_value_str(s: &str) -> (r: Result<EnumeratedValueData, Error>)
        ensures
            match value_data_text(s@) {
                Some(v) => r == Ok::<EnumeratedValueData, Error>(v),
                None => r is Err,
            },
    {
        let n = s.unicode_len();
        let t = if n > 0 && s.get_char(0) == 'x' {
            s.substring_char(1, n)
        } else {
            s
        };
        assert(t@ =~= if s@.len() > 0 && s@[0] == 'x' {
            s@.drop_first()
        } else {
            s@
        });
        let m = t.unicode_len();
        if m > 0 && t.get_char(0) == '#' && (contains_char(t, 'x') || contains_char(t, 'X')) {
            let mut do_not_care: u64 = 0;
            let mut value: u64 = 0;
            let mut i: usize = 1;
            let ghost p = t@.drop_first();
            while i < m
                invariant
                    1 <= i <= m,
                    m == t@.len(),
                    p == t@.drop_first(),
                    t@.len() > 0 && t@[0] == '#',
                    index_of(t@, 'x', 0) >= 0 || index_of(t@, 'X', 0) >= 0,
                    t@ == (if s@.len() > 0 && s@[0] == 'x' {
                        s@.drop_first()
                    } else {
                        s@
                    }),
                    pattern_bits(p.subrange(0, i - 1)) == Some((value, do_not_care)),
                decreases m - i,
            {
                let c = t.get_char(i);
                assert(p[i - 1] == c);
                assert(p.subrange(0, i as int).drop_last() =~= p.subrange(0, i - 1));
                assert(p.subrange(0, i as int).last() == c);
                do_not_care = do_not_care << 1;
                value = value << 1;
                if c == 'x' || c == 'X' {
                    do_not_care = do_not_care | 1;
                } else if c == '1' {
                    value = value | 1;
                } else if c != '0' {
                    proof {
                        assert(pattern_bits(p.subrange(0, i as int)) is None);
                        lemma_pattern_none(p, i as int);
                    }
                    return Err(
                        Error::UnexpectedValue(String::from_str("one of x, X, 0 or 1"), String::from_str(t)),
                    );
                }
                i = i + 1;
            }
            assert(p.subrange(0, m - 1) =~= p);
            Ok(EnumeratedValueData::Value { value, do_not_care })
        } else {
            let v = ScaledNonNegativeInteger::from_str(t)?;
            Ok(EnumeratedValueData::Value { value: v.0, do_not_care: 0 })
        }
    }

    pub fn from_element(element: &Element) -> (r: Result<EnumeratedValueData, Error>)
        ensures
            match value_data_of(*element) {
                Some(v) => r == Ok::<EnumeratedValueData, Error>(v),
                None => r is Err,
            },
    {
        if let Some(is_default) = get_child_text(element, "isDefault") {
            if is_default == String::from_str("true") {
                Ok(EnumeratedValueData::IsDefault(true))
            } else if is_default == String::from_str("false") {
                Ok(EnumeratedValueData::IsDefault(false))
            } else {
                Err(Error::UnexpectedValue(String::from_str("one of true or false"), is_default))
            }
        } else if let Some(value) = get_child_text(element, "value") {
            EnumeratedValueData::from_value_str(value.as_str())
        } else {
            Err(
                Error::MissingField(
                    String::from_str("enumeratedValue"),
                    String::from_str("isDefault or value"),
                ),
            )
        }
    }
}

proof fn lemma_pattern_none(p: Seq<char>, i: int)
    requires
        1 <= i <= p.len(),
        pattern_bits(p.subrange(0, i)) is None,
    ensures
        pattern_bits(p) is None,
    decreases p.len() - i,
{
    if i < p.len() {
        assert(p.subrange(0, i + 1).drop_last() =~= p.subrange(0, i));
        lemma_pattern_none(p, i + 1);
    } else {
        assert(p.subrange(0, i) =~= p);
    }
}

impl EnumeratedValue {
    pub fn from_element(element: &Element) -> (r: Result<EnumeratedValue, Error>)
        ensures
            match enumerated_value_of(*element) {
                Some(v) => r is Ok && r->Ok_0.deep_view() == v,
                None => r is Err,
            },
    {
        let name = match get_child_text(element, "name") {
            Some(n) => n,
            None => {
                return Err(
                    Error::MissingField(String::from_str("enumeratedValue"), String::from_str("name")),
                );
            },
        };
        let description = get_child_text(element, "description");
        let value = EnumeratedValueData::from_element(element)?;
        Ok(EnumeratedValue { name, description, value })
    }
}

impl EnumeratedValues {
    pub fn from_element(element: &Element) -> (r: Result<EnumeratedValues, Error>)
        ensures
            match enumerated_values_of(*element) {
                Some(v) => r is Ok && r->Ok_0.deep_view() == v,
                None => r is Err,
            },
    {
        let derived_from = element.attribute("derivedFrom");
        let name = get_child_text(element, "name");
        let usage = child_enum_usage(element, "usage")?;
        let ghost keep = |n: Seq<char>| n == "enumeratedValue"@;
        let ghost f = |c: Element| enumerated_value_of(c);
        let ghost cs = element.children@;
        let tag = String::from_str("enumeratedValue");
        let mut values: Vec<EnumeratedValue> = Vec::new();
        let mut i: usize = 0;
        assert(cs.subrange(0, 0) =~= Seq::<Element>::empty());
        assert(values.deep_view() =~= Seq::<EnumeratedValueModel>::empty());
        while i < element.children.len()
            invariant
                i <= element.children.len(),
                cs == element.children@,
                tag@ == "enumeratedValue"@,
                keep == (|n: Seq<char>| n == "enumeratedValue"@),
                f == (|c: Element| enumerated_value_of(c)),
                parse_children(cs.subrange(0, i as int), keep, f) == Some(values.deep_view()),
            decreases element.children.len() - i,
        {
            let c = &element.children[i];
            assert(cs.subrange(0, i + 1).drop_last() =~= cs.subrange(0, i as int));
            assert(cs.subrange(0, i + 1).last() == *c);
            if c.name == tag {
                match EnumeratedValue::from_element(c) {
                    Ok(v) => {
                        let ghost before = values.deep_view();
                        values.push(v);
                        assert(values.deep_view() =~= before.push(v.deep_view()));
                    },
                    Err(e) => {
                        proof {
                            lemma_children_none(cs, keep, f, i + 1);
                        }
                        return Err(e);
                    },
                }
            }
            i = i + 1;
        }
        assert(cs.subrange(0, i as int) =~= cs);
        if values.len() == 0 {
            return Err(
                Error::MissingField(
                    String::from_str("enumeratedValues"),
                    String::from_str("enumeratedValue"),
                ),
            );
        }
        Ok(EnumeratedValues { derived_from, name, usage, enumerated_values: values })
    }
}

/// Once a prefix of the children cannot be read, neither can all of them.
pub proof fn lemma_children_none<M>(
    cs: Seq<Element>,
    keep: spec_fn(Seq<char>) -> bool,
    f: spec_fn(Element) -> Option<M>,
    i: int,
)
    requires
        0 <= i <= cs.len(),
        parse_children(cs.subrange(0, i), keep, f) is None,
    ensures
        parse_children(cs, keep, f) is None,
    decreases cs.len() - i,
{
    if i < cs.len() {
        assert(cs.subrange(0, i + 1).drop_last() =~= cs.subrange(0, i));
        lemma_children_none(cs, keep, f, i + 1);
    } else {
        assert(cs.subrange(0, i) =~= cs);
    }
}

/// The field that `e` describes.
pub open spec fn field_of(e: Element) -> Option<FieldModel> {
    match (
        child_text(e, "name"@),
        bit_range_of(e),
        opt_access(e, "access"@),
        opt_modified_write_values(e, "modifiedWriteValues"@),
        opt_read_action(e, "readAction"@),
        parse_children(
            e.children@,
            |n: Seq<char>| n == "enumeratedValues"@,
            |c: Element| enumerated_values_of(c),
        ),
    ) {
        (Some(n), Some(b), Some(a), Some(m), Some(ra), Some(evs)) => Some(
            FieldModel {
                derived_from: attribute_value(e, "derivedFrom"@),
                name: n,
                description: child_text(e, "description"@),
                bit_range: b,
                access: a,
                modified_write_values: m,
                read_action: ra,
                enumerated_values: evs,
            },
        ),
        _ => None,
    }
}

impl Field {
    pub fn from_element(element: &Element) -> (r: Result<Field, Error>)
        ensures
            match field_of(*element) {
                Some(v) => r is Ok && r->Ok_0.deep_view() == v,
                None => r is Err,
            },
    {
        let derived_from = element.attribute("derivedFrom");
        let name = get_child_text(element, "name");
        let description = get_child_text(element, "description");
        let bit_range = BitRange::from_element(element)?;
        let access = child_access(element, "access")?;
        let modified_write_values = child_modified_write_values(element, "modifiedWriteValues")?;
        let read_action = child_read_action(element, "readAction")?;
        let ghost keep = |n: Seq<char>| n == "enumeratedValues"@;
        let ghost f = |c: Element| enumerated_values_of(c);
        let ghost cs = element.children@;
        let tag = String::from_str("enumeratedValues");
        let mut values: Vec<EnumeratedValues> = Vec::new();
        let mut i: usize = 0;
        assert(cs.subrange(0, 0) =~= Seq::<Element>::empty());
        assert(values.deep_view() =~= Seq::<EnumeratedValuesModel>::empty());
        while i < element.children.len()
            invariant
                i <= element.children.len(),
                cs == element.children@,
                tag@ == "enumeratedValues"@,
                keep == (|n: Seq<char>| n == "enumeratedValues"@),
                f == (|c: Element| enumerated_values_of(c)),
                parse_children(cs.subrange(0, i as int), keep, f) == Some(values.deep_view()),
            decreases element.children.len() - i,
        {
            let c = &element.children[i];
            assert(cs.subrange(0, i + 1).drop_last() =~= cs.subrange(0, i as int));
            assert(cs.subrange(0, i + 1).last() == *c);
            if c.name == tag {
                match EnumeratedValues::from_element(c) {
                    Ok(v) => {
                        let ghost before = values.deep_view();
                        values.push(v);
                        assert(values.deep_view() =~= before.push(v.deep_view()));
                    },
                    Err(e) => {
                        proof {
                            lemma_children_none(cs, keep, f, i + 1);
                        }
                        return Err(e);
                    },
                }
            }
            i = i + 1;
        }
        assert(cs.subrange(0, i as int) =~= cs);
        match name {
            Some(name) => Ok(
                Field {
                    derived_from,
                    name,
                    description,
                    bit_range,
                    access,
                    modified_write_values,
                    read_action,
                    enumerated_values: values,
                },
            ),
            None => Err(Error::MissingField(String::from_str("field"), String::from_str("name"))),
        }
    }
}

/// Whether `c` is white space (the Unicode `White_Space` property).
pub open spec fn is_space(c: char) -> bool {
    ||| c == '\t' || c == '\n' || c == '\u{b}' || c == '\u{c}' || c == '\r' || c == ' '
    ||| c == '\u{85}' || c == '\u{a0}' || c == '\u{1680}'
    ||| ('\u{2000}' <= c && c <= '\u{200a}')
    ||| c == '\u{2028}' || c == '\u{2029}' || c == '\u{202f}' || c == '\u{205f}' || c == '\u{3000}'
}

fn space(c: char) -> (r: bool)
    ensures
        r == is_space(c),
{
    c == '\t' || c == '\n' || c == '\u{b}' || c == '\u{c}' || c == '\r' || c == ' ' || c == '\u{85}'
        || c == '\u{a0}' || c == '\u{1680}' || ('\u{2000}' <= c && c <= '\u{200a}') || c == '\u{2028}'
        || c == '\u{2029}' || c == '\u{202f}' || c == '\u{205f}' || c == '\u{3000}'
}

/// `s` without leading white space.
pub open spec fn trim_start(s: Seq<char>) -> Seq<char>
    decreases s.len(),
{
    if s.len() > 0 && is_space(s[0]) {
        trim_start(s.drop_first())
    } else {
        s
    }
}

/// `s` without trailing white space.
pub open spec fn trim_end(s: Seq<char>) -> Seq<char>
    decreases s.len(),
{
    if s.len() > 0 && is_space(s.last()) {
        trim_end(s.drop_last())
    } else {
        s
    }
}

/// `s` without leading or trailing white space.
pub open spec fn trim(s: Seq<char>) -> Seq<char> {
    trim_end(trim_start(s))
}

/// The parts of `s` between commas, each trimmed.
pub open spec fn split_trim(s: Seq<char>) -> Seq<Seq<char>>
    decreases s.len(),
{
    let c = index_of(s, ',', 0);
    if c < 0 || c >= s.len() {
        seq![trim(s)]
    } else {
        seq![trim(s.subrange(0, c))] + split_trim(s.subrange(c + 1, s.len() as int))
    }
}

/// The index names that a `dimIndex` text gives: a range of two capital
/// letters or of two numbers around a `-`, else a comma-separated list of
/// names made of letters, digits and underscores.
pub open spec fn dim_index_of(s: Seq<char>) -> Option<DimIndexModel> {
    let dash = index_of(s, '-', 0);
    if dash >= 0 {
        let left = s.subrange(0, dash);
        let rest = s.subrange(dash + 1, s.len() as int);
        let d2 = index_of(rest, '-', 0);
        let right = if d2 >= 0 {
            rest.subrange(0, d2)
        } else {
            rest
        };
        if left.len() == 1 && right.len() == 1 && 'A' <= left[0] && left[0] <= 'Z' && 'A' <= right[0]
            && right[0] <= 'Z' {
            Some(DimIndexModel::CharRange { start: left[0], end: right[0] })
        } else {
            match (parse_radix(left, 10), parse_radix(right, 10)) {
                (Some(a), Some(b)) => Some(DimIndexModel::DecimalRange { start: a, end: b }),
                _ => None,
            }
        }
    } else {
        let items = split_trim(s);
        if forall|i: int, k: int|
            0 <= i < items.len() && 0 <= k < items[i].len() ==> dim_index_char(#[trigger] items[i][k]) {
            Some(DimIndexModel::List(items))
        } else {
            None
        }
    }
}

proof fn lemma_trim_start(s: Seq<char>, i: int)
    requires
        0 <= i <= s.len(),
        forall|k: int| 0 <= k < i ==> is_space(#[trigger] s[k]),
    ensures
        trim_start(s) == trim_start(s.subrange(i, s.len() as int)),
    decreases i,
{
    if i > 0 {
        assert forall|k: int| 0 <= k < i - 1 implies is_space(#[trigger] s.drop_first()[k]) by {
            assert(s.drop_first()[k] == s[k + 1]);
        }
        lemma_trim_start(s.drop_first(), i - 1);
        assert(s.drop_first().subrange(i - 1, s.len() - 1) =~= s.subrange(i, s.len() as int));
    } else {
        assert(s.subrange(0, s.len() as int) =~= s);
    }
}

proof fn lemma_trim_end(s: Seq<char>, j: int)
    requires
        0 <= j <= s.len(),
        forall|k: int| j <= k < s.len() ==> is_space(#[trigger] s[k]),
    ensures
        trim_end(s) == trim_end(s.subrange(0, j)),
    decreases s.len() - j,
{
    if j < s.len() {
        assert forall|k: int| j <= k < s.len() - 1 implies is_space(#[trigger] s.drop_last()[k]) by {
            assert(s.drop_last()[k] == s[k]);
        }
        lemma_trim_end(s.drop_last(), j);
        assert(s.drop_last().subrange(0, j) =~= s.subrange(0, j));
    } else {
        assert(s.subrange(0, j) =~= s);
    }
}

/// `s` without leading or trailing white space.
fn trimmed(s: &str) -> (r: String)
    ensures
        r@ == trim(s@),
{
    let n = s.unicode_len();
    let mut i: usize = 0;
    while i < n && space(s.get_char(i))
        invariant
            i <= n,
            n == s@.len(),
            forall|k: int| 0 <= k < i ==> is_space(#[trigger] s@[k]),
        decreases n - i,
    {
        i = i + 1;
    }
    proof {
        lemma_trim_start(s@, i as int);
    }
    let ghost t = s@.subrange(i as int, n as int);
    assert(i < n ==> !is_space(t[0]));
    let mut j: usize = n;
    while j > i && space(s.get_char(j - 1))
        invariant
            i <= j <= n,
            n == s@.len(),
            forall|k: int| j <= k < n ==> is_space(#[trigger] s@[k]),
        decreases j,
    {
        j = j - 1;
    }
    proof {
        assert(trim_start(s@) == t);
        assert forall|k: int| j - i <= k < t.len() implies is_space(#[trigger] t[k]) by {
            assert(t[k] == s@[k + i]);
        }
        lemma_trim_end(t, j - i);
        assert(t.subrange(0, j - i) =~= s@.subrange(i as int, j as int));
        if j > i {
            assert(!is_space(s@[j - 1]));
        }
        assert(trim_end(s@.subrange(i as int, j as int)) == s@.subrange(i as int, j as int));
    }
    String::from_str(s.substring_char(i, j))
}

fn index_of_char(s: &str, c: char) -> (r: usize)
    ensures
        r <= s@.len(),
        r < s@.len() ==> index_of(s@, c, 0) == r,
        r == s@.len() ==> index_of(s@, c, 0) == -1,
{
    let n = s.unicode_len();
    let mut i: usize = 0;
    while i < n
        invariant
            i <= n,
            n == s@.len(),
            index_of(s@, c, 0) == index_of(s@, c, i as int),
        decreases n - i,
    {
        if s.get_char(i) == c {
            return i;
        }
        i = i + 1;
    }
    i
}

impl DimIndexType {
    #[verifier::rlimit(80)]
    pub fn from_str(s: &str) -> (r: Result<DimIndexType, Error>)
        ensures
            match dim_index_of(s@) {
                Some(v) => r is Ok && r->Ok_0.deep_view() == v,
                None => r is Err,
            },
        decreases s@.len(),
    {
        let n = s.unicode_len();
        let dash = index_of_char(s, '-');
        let bad = Error::UnexpectedValue(String::from_str("a value valid for dimIndex"), String::from_str(s));
        if dash < n {
            let left = s.substring_char(0, dash);
            let rest = s.substring_char(dash + 1, n);
            let d2 = index_of_char(rest, '-');
            let right = rest.substring_char(0, d2);
            assert(right@ =~= if index_of(rest@, '-', 0) >= 0 {
                rest@.subrange(0, index_of(rest@, '-', 0))
            } else {
                rest@
            });
            if left.unicode_len() == 1 && right.unicode_len() == 1 {
                let a = left.get_char(0);
                let b = right.get_char(0);
                if 'A' <= a && a <= 'Z' && 'A' <= b && b <= 'Z' {
                    return Ok(DimIndexType::CharRange { start: a, end: b });
                }
            }
            assert(left@.subrange(0, left@.len() as int) =~= left@);
            assert(right@.subrange(0, right@.len() as int) =~= right@);
            match (parse_digits(left, 0, 10), parse_digits(right, 0, 10)) {
                (Some(a), Some(b)) => Ok(DimIndexType::DecimalRange { start: a, end: b }),
                _ => Err(bad),
            }
        } else {
            let mut list: Vec<String> = Vec::new();
            let mut start: usize = 0;
            let mut j: usize = 0;
            assert(s@.subrange(0, n as int) =~= s@);
            while j < n
                invariant
                    start <= j <= n,
                    n == s@.len(),
                    split_trim(s@) == list.deep_view() + split_trim(s@.subrange(start as int, n as int)),
                    index_of(s@.subrange(start as int, n as int), ',', 0) == index_of(
                        s@.subrange(start as int, n as int),
                        ',',
                        j - start,
                    ),
                decreases n - j,
            {
                if s.get_char(j) == ',' {
                    let ghost rest = s@.subrange(start as int, n as int);
                    assert(rest[j - start] == ',');
                    assert(rest.subrange(0, j - start) =~= s@.subrange(start as int, j as int));
                    assert(rest.subrange(j - start + 1, rest.len() as int) =~= s@.subrange(j + 1, n as int));
                    let part = trimmed(s.substring_char(start, j));
                    let ghost before = list.deep_view();
                    list.push(part);
                    assert(list.deep_view() =~= before.push(part@));
                    assert(split_trim(rest) == seq![part@] + split_trim(s@.subrange(j + 1, n as int)));
                    assert(split_trim(s@) =~= list.deep_view() + split_trim(s@.subrange(j + 1, n as int)));
                    start = j + 1;
                    assert(index_of(s@.subrange(start as int, n as int), ',', 0) == index_of(
                        s@.subrange(start as int, n as int),
                        ',',
                        0,
                    ));
                }
                j = j + 1;
            }
            let ghost rest = s@.subrange(start as int, n as int);
            assert(rest =~= s@.subrange(start as int, n as int));
            let last = trimmed(s.substring_char(start, n));
            let ghost before = list.deep_view();
            list.push(last);
            assert(split_trim(rest) == seq![last@]);
            assert(split_trim(s@) =~= list.deep_view());
            let mut i: usize = 0;
            while i < list.len()
                invariant
                    i <= list.len(),
                    split_trim(s@) == list.deep_view(),
                    index_of(s@, '-', 0) == -1,
                    forall|a: int, k: int|
                        0 <= a < i && 0 <= k < list.deep_view()[a].len() ==> dim_index_char(
                            #[trigger] list.deep_view()[a][k],
                        ),
                decreases list.len() - i,
            {
                if !is_dim_index_str_valid(list[i].as_str()) {
                    proof {
                        let k = choose|k: int| 0 <= k < list@[i as int]@.len() && !dim_index_char(list@[i as int]@[k]);
                        assert(list.deep_view()[i as int] == list@[i as int]@);
                        assert(!dim_index_char(list.deep_view()[i as int][k]));
                    }
                    return Err(bad);
                }
                i = i + 1;
            }
            Ok(DimIndexType::List(list))
        }
    }
}

/// The repetition attributes that the children of `e` give.
pub open spec fn dim_element_of(e: Element) -> Option<DimElementModel> {
    match (
        opt_scaled(e, "dim"@),
        opt_scaled(e, "dimIncrement"@),
        parsed_child(child_text(e, "dimIndex"@), |s: Seq<char>| dim_index_of(s)),
    ) {
        (Some(a), Some(b), Some(c)) => Some(DimElementModel { dim: a, dim_increment: b, dim_index: c }),
        _ => None,
    }
}

impl DimElementGroup {
    pub fn from_element(element: &Element) -> (r: Result<DimElementGroup, Error>)
        ensures
            match dim_element_of(*element) {
                Some(v) => r is Ok && r->Ok_0.deep_view() == v,
                None => r is Err,
            },
    {
        let dim = child_scaled(element, "dim")?;
        let dim_increment = child_scaled(element, "dimIncrement")?;
        let dim_index = match get_child_text(element, "dimIndex") {
            Some(s) => Some(DimIndexType::from_str(s.as_str())?),
            None => None,
        };
        Ok(DimElementGroup { dim, dim_increment, dim_index })
    }
}

/// A mandatory child value parsed by `f`: none where the child is absent
/// or does not parse.
pub open spec fn required<T>(t: Option<Seq<char>>, f: spec_fn(Seq<char>) -> Option<T>) -> Option<T> {
    match t {
        Some(s) => f(s),
        None => None,
    }
}

/// The fields that the `fields` child of `e` lists: `Some(None)` where there
/// is no such child, `None` where one of them cannot be read.
pub open spec fn fields_child_of(e: Element) -> Option<Option<Seq<FieldModel>>> {
    let i = child_index(e, "fields"@, 0);
    if i < 0 {
        Some(None)
    } else {
        match parse_children(e.children@[i].children@, |n: Seq<char>| true, |c: Element| field_of(c)) {
            Some(fs) => Some(Some(fs)),
            None => None,
        }
    }
}

/// The register that `e` describes.
pub open spec fn register_of(e: Element) -> Option<RegisterModel> {
    match (
        dim_element_of(e),
        child_text(e, "name"@),
        required(child_text(e, "addressOffset"@), |s: Seq<char>| scaled_value_of(s)),
        properties_of(e),
        opt_data_type(e, "dataType"@),
        opt_modified_write_values(e, "modifiedWriteValues"@),
        opt_read_action(e, "readAction"@),
        fields_child_of(e),
    ) {
        (Some(d), Some(n), Some(o), Some(rp), Some(dt), Some(m), Some(ra), Some(fs)) => Some(
            RegisterModel {
                derived_from: attribute_value(e, "derivedFrom"@),
                dim_element: d,
                name: n,
                display_name: child_text(e, "displayName"@),
                description: child_text(e, "description"@),
                alternate_group: child_text(e, "alternateGroup"@),
                alternate_register: child_text(e, "alternateRegister"@),
                address_offset: o,
                register_properties: rp,
                data_type: dt,
                modified_write_values: m,
                read_action: ra,
                fields: fs,
            },
        ),
        _ => None,
    }
}

/// The fields that the children of `list` describe, each of them read.
fn fields_from(list: &Element) -> (r: Result<Vec<Field>, Error>)
    ensures
        match parse_children(list.children@, |n: Seq<char>| true, |c: Element| field_of(c)) {
            Some(fs) => r is Ok && r->Ok_0.deep_view() == fs,
            None => r is Err,
        },
{
    let ghost keep = |n: Seq<char>| true;
    let ghost f = |c: Element| field_of(c);
    let ghost cs = list.children@;
    let mut out: Vec<Field> = Vec::new();
    let mut i: usize = 0;
    assert(cs.subrange(0, 0) =~= Seq::<Element>::empty());
    assert(out.deep_view() =~= Seq::<FieldModel>::empty());
    while i < list.children.len()
        invariant
            i <= list.children.len(),
            cs == list.children@,
            keep == (|n: Seq<char>| true),
            f == (|c: Element| field_of(c)),
            parse_children(cs.subrange(0, i as int), keep, f) == Some(out.deep_view()),
        decreases list.children.len() - i,
    {
        let c = &list.children[i];
        assert(cs.subrange(0, i + 1).drop_last() =~= cs.subrange(0, i as int));
        assert(cs.subrange(0, i + 1).last() == *c);
        match Field::from_element(c) {
            Ok(v) => {
                let ghost before = out.deep_view();
                out.push(v);
                assert(out.deep_view() =~= before.push(v.deep_view()));
            },
            Err(e) => {
                proof {
                    lemma_children_none(cs, keep, f, i + 1);
                }
                return Err(e);
            },
        }
        i = i + 1;
    }
    assert(cs.subrange(0, i as int) =~= cs);
    Ok(out)
}

/// The value of the mandatory child `name` of `element`, an integer literal.
fn required_scaled(element: &Element, kind: &str, name: &str) -> (r: Result<ScaledNonNegativeInteger, Error>)
    ensures
        match required(child_text(*element, name@), |s: Seq<char>| scaled_value_of(s)) {
            Some(v) => r == Ok::<ScaledNonNegativeInteger, Error>(v),
            None => r is Err,
        },
{
    match get_child_text(element, name) {
        Some(t) => ScaledNonNegativeInteger::from_str(t.as_str()),
        None => Err(Error::MissingField(String::from_str(kind), String::from_str(name))),
    }
}

impl Register {
    #[verifier::rlimit(80)]
    pub fn from_element(element: &Element) -> (r: Result<Register, Error>)
        ensures
            match register_of(*element) {
                Some(v) => r is Ok && r->Ok_0.deep_view() == v,
                None => r is Err,
            },
    {
        let derived_from = element.attribute("derivedFrom");
        let dim_element = DimElementGroup::from_element(element)?;
        let name = match get_child_text(element, "name") {
            Some(n) => n,
            None => {
                return Err(Error::MissingField(String::from_str("register"), String::from_str("name")));
            },
        };
        let display_name = get_child_text(element, "displayName");
        let description = get_child_text(element, "description");
        let alternate_group = get_child_text(element, "alternateGroup");
        let alternate_register = get_child_text(element, "alternateRegister");
        let address_offset = required_scaled(element, "register", "addressOffset")?;
        let register_properties = RegisterPropertiesGroup::from_element(element)?;
        let data_type = child_data_type(element, "dataType")?;
        let modified_write_values = child_modified_write_values(element, "modifiedWriteValues")?;
        let read_action = child_read_action(element, "readAction")?;
        let fields = match element.get_child("fields") {
            Some(list) => Some(fields_from(list)?),
            None => None,
        };
        Ok(Register {
            derived_from,
            dim_element,
            name,
            display_name,
            description,
            alternate_group,
            alternate_register,
            address_offset,
            register_properties,
            data_type,
            modified_write_values,
            read_action,
            fields,
        })
    }
}

/// Whether a child named `n` is an entry of a register list.
pub open spec fn is_entry_name(n: Seq<char>) -> bool {
    n == "register"@ || n == "cluster"@
}

/// The entry that `e` describes: a register or a cluster.
pub open spec fn rc_of(e: Element) -> Option<RegisterOrClusterModel>
    decreases e, 1nat,
{
    if e.name@ == "register"@ {
        match register_of(e) {
            Some(r) => Some(RegisterOrClusterModel::Register(r)),
            None => None,
        }
    } else if e.name@ == "cluster"@ {
        match cluster_of(e) {
            Some(c) => Some(RegisterOrClusterModel::Cluster(c)),
            None => None,
        }
    } else {
        None
    }
}

/// The entries that the register and cluster children among `cs` describe.
pub open spec fn rcs_of(cs: Seq<Element>) -> Option<Seq<RegisterOrClusterModel>>
    decreases cs, 0nat,
{
    if cs.len() == 0 {
        Some(Seq::empty())
    } else {
        match rcs_of(cs.drop_last()) {
            None => None,
            Some(p) => if is_entry_name(cs.last().name@) {
                match rc_of(cs.last()) {
                    Some(x) => Some(p.push(x)),
                    None => None,
                }
            } else {
                Some(p)
            },
        }
    }
}

/// The cluster that `e` describes.
pub open spec fn cluster_of(e: Element) -> Option<ClusterModel>
    decreases e, 0nat,
{
    match (
        dim_element_of(e),
        child_text(e, "name"@),
        required(child_text(e, "addressOffset"@), |s: Seq<char>| scaled_value_of(s)),
        properties_of(e),
        rcs_of(e.children@),
    ) {
        (Some(d), Some(n), Some(o), Some(rp), Some(rs)) => Some(
            ClusterModel {
                derived_from: attribute_value(e, "derivedFrom"@),
                dim_element: d,
                name: n,
                alternate_cluster: child_text(e, "alternateCluster"@),
                header_struct_name: child_text(e, "headerStructName"@),
                address_offset: o,
                register_properties: rp,
                registers: rs,
            },
        ),
        _ => None,
    }
}

proof fn lemma_rcs_none(cs: Seq<Element>, i: int)
    requires
        0 <= i <= cs.len(),
        rcs_of(cs.subrange(0, i)) is None,
    ensures
        rcs_of(cs) is None,
    decreases cs.len() - i,
{
    if i < cs.len() {
        assert(cs.subrange(0, i + 1).drop_last() =~= cs.subrange(0, i));
        lemma_rcs_none(cs, i + 1);
    } else {
        assert(cs.subrange(0, i) =~= cs);
    }
}

/// The entries that the register and cluster children of `e` describe.
fn entries_from(e: &Element) -> (r: Result<Vec<RegisterOrCluster>, Error>)
    ensures
        match rcs_of(e.children@) {
            Some(rs) => r is Ok && r->Ok_0.deep_view() == rs,
            None => r is Err,
        },
    decreases e, 0nat,
{
    let ghost cs = e.children@;
    let reg = String::from_str("register");
    let clu = String::from_str("cluster");
    let mut out: Vec<RegisterOrCluster> = Vec::new();
    let mut i: usize = 0;
    assert(cs.subrange(0, 0) =~= Seq::<Element>::empty());
    assert(out.deep_view() =~= Seq::<RegisterOrClusterModel>::empty());
    while i < e.children.len()
        invariant
            i <= e.children.len(),
            cs == e.children@,
            reg@ == "register"@,
            clu@ == "cluster"@,
            rcs_of(cs.subrange(0, i as int)) == Some(out.deep_view()),
        decreases e.children.len() - i,
    {
        let c = &e.children[i];
        proof {
            assert(decreases_to!(e.children => e.children@[i as int]));
        }
        assert(cs.subrange(0, i + 1).drop_last() =~= cs.subrange(0, i as int));
        assert(cs.subrange(0, i + 1).last() == *c);
        if c.name == reg || c.name == clu {
            match RegisterOrCluster::from_element(c) {
                Ok(v) => {
                    let ghost before = out.deep_view();
                    out.push(v);
                    assert(out.deep_view() =~= before.push(v.deep_view()));
                },
                Err(x) => {
                    proof {
                        lemma_rcs_none(cs, i + 1);
                    }
                    return Err(x);
                },
            }
        }
        i = i + 1;
    }
    assert(cs.subrange(0, i as int) =~= cs);
    Ok(out)
}

impl Cluster {
    pub fn from_element(element: &Element) -> (r: Result<Cluster, Error>)
        ensures
            match cluster_of(*element) {
                Some(v) => r is Ok && r->Ok_0.deep_view() == v,
                None => r is Err,
            },
        decreases element, 1nat,
    {
        let derived_from = element.attribute("derivedFrom");
        let dim_element = DimElementGroup::from_element(element)?;
        let name = match get_child_text(element, "name") {
            Some(n) => n,
            None => {
                return Err(Error::MissingField(String::from_str("cluster"), String::from_str("name")));
            },
        };
        let alternate_cluster = get_child_text(element, "alternateCluster");
        let header_struct_name = get_child_text(element, "headerStructName");
        let address_offset = required_scaled(element, "cluster", "addressOffset")?;
        let register_properties = RegisterPropertiesGroup::from_element(element)?;
        let registers = entries_from(element)?;
        proof {
            crate::register_or_cluster::lemma_models(registers);
        }
        Ok(Cluster {
            derived_from,
            dim_element,
            name,
            alternate_cluster,
            header_struct_name,
            address_offset,
            register_properties,
            registers,
        })
    }
}

impl RegisterOrCluster {
    pub fn from_element(element: &Element) -> (r: Result<RegisterOrCluster, Error>)
        ensures
            match rc_of(*element) {
                Some(v) => r is Ok && r->Ok_0.deep_view() == v,
                None => r is Err,
            },
        decreases element, 2nat,
    {
        if element.name == String::from_str("register") {
            Ok(RegisterOrCluster::Register(Register::from_element(element)?))
        } else if element.name == String::from_str("cluster") {
            Ok(RegisterOrCluster::Cluster(Cluster::from_element(element)?))
        } else {
            Err(Error::UnexpectedValue(String::from_str("one of register or cluster"), element.name.clone()))
        }
    }
}

/// The address block that `e` describes.
pub open spec fn address_block_of(e: Element) -> Option<AddresBlock> {
    match (
        required(child_text(e, "offset"@), |s: Seq<char>| scaled_value_of(s)),
        required(child_text(e, "size"@), |s: Seq<char>| scaled_value_of(s)),
        required(child_text(e, "usage"@), |s: Seq<char>| crate::address_block::usage_named(s)),
        opt_protection(e, "protection"@),
    ) {
        (Some(o), Some(s), Some(u), Some(p)) => Some(AddresBlock { offset: o, size: s, usage: u, protection: p }),
        _ => None,
    }
}

impl AddresBlock {
    pub fn from_element(element: &Element) -> (r: Result<AddresBlock, Error>)
        ensures
            match address_block_of(*element) {
                Some(v) => r == Ok::<AddresBlock, Error>(v),
                None => r is Err,
            },
    {
        let offset = required_scaled(element, "addressBlock", "offset")?;
        let size = required_scaled(element, "addressBlock", "size")?;
        let usage = match get_child_text(element, "usage") {
            Some(t) => Usage::from_name(t.as_str())?,
            None => {
                return Err(Error::MissingField(String::from_str("addressBlock"), String::from_str("usage")));
            },
        };
        let protection = child_protection(element, "protection")?;
        Ok(AddresBlock { offset, size, usage, protection })
    }
}

/// A signed decimal `i64`: an optional sign, then at least one digit.
pub open spec fn i64_text(s: Seq<char>) -> Option<i64> {
    if s.len() > 0 && s[0] == '-' {
        let d = s.drop_first();
        if d.len() == 0 || !all_digits(d, 10) || radix_value(d, 10) > 0x8000_0000_0000_0000 {
            None
        } else {
            Some((0 - radix_value(d, 10)) as i64)
        }
    } else {
        match parse_radix(s, 10) {
            Some(v) => if v <= i64::MAX {
                Some(v as i64)
            } else {
                None
            },
            None => None,
        }
    }
}

fn parse_i64(s: &str) -> (r: Option<i64>)
    ensures
        r == i64_text(s@),
{
    let n = s.unicode_len();
    if n > 0 && s.get_char(0) == '-' {
        if n > 1 && s.get_char(1) == '+' {
            assert(crate::types::digit_in(s@.drop_first()[0], 10) is None);
            return None;
        }
        let ghost d = s@.drop_first();
        assert(s@.subrange(1, n as int) =~= d);
        match parse_digits(s, 1, 10) {
            Some(v) => if v <= 0x8000_0000_0000_0000u64 {
                if v == 0x8000_0000_0000_0000u64 {
                    Some(i64::MIN)
                } else {
                    Some(0 - (v as i64))
                }
            } else {
                None
            },
            None => None,
        }
    } else {
        assert(s@.subrange(0, n as int) =~= s@);
        match parse_digits(s, 0, 10) {
            Some(v) => if v <= i64::MAX as u64 {
                Some(v as i64)
            } else {
                None
            },
            None => None,
        }
    }
}

/// The interrupt that `e` describes.
pub open spec fn interrupt_of(e: Element) -> Option<InterruptModel> {
    match (child_text(e, "name"@), required(child_text(e, "value"@), |s: Seq<char>| i64_text(s))) {
        (Some(n), Some(v)) => Some(
            InterruptModel { name: n, description: child_text(e, "description"@), value: v },
        ),
        _ => None,
    }
}

impl Interrupt {
    pub fn from_element(element: &Element) -> (r: Result<Interrupt, Error>)
        ensures
            match interrupt_of(*element) {
                Some(v) => r is Ok && r->Ok_0.deep_view() == v,
                None => r is Err,
            },
    {
        let name = match get_child_text(element, "name") {
            Some(n) => n,
            None => {
                return Err(Error::MissingField(String::from_str("interrupt"), String::from_str("name")));
            },
        };
        let description = get_child_text(element, "description");
        let value = match get_child_text(element, "value") {
            Some(t) => match parse_i64(t.as_str()) {
                Some(v) => v,
                None => {
                    return Err(Error::UnexpectedValue(String::from_str("an integer"), t));
                },
            },
            None => {
                return Err(Error::MissingField(String::from_str("interrupt"), String::from_str("value")));
            },
        };
        Ok(Interrupt { name, description, value })
    }
}

/// The address blocks among the children of `e`.
fn address_blocks_from(e: &Element) -> (r: Result<Vec<AddresBlock>, Error>)
    ensures
        match parse_children(e.children@, |n: Seq<char>| n == "addressBlock"@, |c: Element| address_block_of(c)) {
            Some(v) => r is Ok && r->Ok_0.deep_view() == v,
            None => r is Err,
        },
{
    let ghost keep = |n: Seq<char>| n == "addressBlock"@;
    let ghost f = |c: Element| address_block_of(c);
    let ghost cs = e.children@;
    let tag = String::from_str("addressBlock");
    let mut out: Vec<AddresBlock> = Vec::new();
    let mut i: usize = 0;
    assert(cs.subrange(0, 0) =~= Seq::<Element>::empty());
    assert(out.deep_view() =~= Seq::<AddresBlock>::empty());
    while i < e.children.len()
        invariant
            i <= e.children.len(),
            cs == e.children@,
            tag@ == "addressBlock"@,
            keep == (|n: Seq<char>| n == "addressBlock"@),
            f == (|c: Element| address_block_of(c)),
            parse_children(cs.subrange(0, i as int), keep, f) == Some(out.deep_view()),
        decreases e.children.len() - i,
    {
        let c = &e.children[i];
        assert(cs.subrange(0, i + 1).drop_last() =~= cs.subrange(0, i as int));
        assert(cs.subrange(0, i + 1).last() == *c);
        if c.name == tag {
            match AddresBlock::from_element(c) {
                Ok(v) => {
                    let ghost before = out.deep_view();
                    out.push(v);
                    assert(out.deep_view() =~= before.push(v.deep_view()));
                },
                Err(x) => {
                    proof {
                        lemma_children_none(cs, keep, f, i + 1);
                    }
                    return Err(x);
                },
            }
        }
        i = i + 1;
    }
    assert(cs.subrange(0, i as int) =~= cs);
    Ok(out)
}

/// The interrupts among the children of `e`.
fn interrupts_from(e: &Element) -> (r: Result<Vec<Interrupt>, Error>)
    ensures
        match parse_children(e.children@, |n: Seq<char>| n == "interrupt"@, |c: Element| interrupt_of(c)) {
            Some(v) => r is Ok && r->Ok_0.deep_view() == v,
            None => r is Err,
        },
{
    let ghost keep = |n: Seq<char>| n == "interrupt"@;
    let ghost f = |c: Element| interrupt_of(c);
    let ghost cs = e.children@;
    let tag = String::from_str("interrupt");
    let mut out: Vec<Interrupt> = Vec::new();
    let mut i: usize = 0;
    assert(cs.subrange(0, 0) =~= Seq::<Element>::empty());
    assert(out.deep_view() =~= Seq::<InterruptModel>::empty());
    while i < e.children.len()
        invariant
            i <= e.children.len(),
            cs == e.children@,
            tag@ == "interrupt"@,
            keep == (|n: Seq<char>| n == "interrupt"@),
            f == (|c: Element| interrupt_of(c)),
            parse_children(cs.subrange(0, i as int), keep, f) == Some(out.deep_view()),
        decreases e.children.len() - i,
    {
        let c = &e.children[i];
        assert(cs.subrange(0, i + 1).drop_last() =~= cs.subrange(0, i as int));
        assert(cs.subrange(0, i + 1).last() == *c);
        if c.name == tag {
            match Interrupt::from_element(c) {
                Ok(v) => {
                    let ghost before = out.deep_view();
                    out.push(v);
                    assert(out.deep_view() =~= before.push(v.deep_view()));
                },
                Err(x) => {
                    proof {
                        lemma_children_none(cs, keep, f, i + 1);
                    }
                    return Err(x);
                },
            }
        }
        i = i + 1;
    }
    assert(cs.subrange(0, i as int) =~= cs);
    Ok(out)
}

/// The entries that all the children of `e` describe.
fn all_entries_from(e: &Element) -> (r: Result<Vec<RegisterOrCluster>, Error>)
    ensures
        match parse_children(e.children@, |n: Seq<char>| true, |c: Element| rc_of(c)) {
            Some(v) => r is Ok && r->Ok_0.deep_view() == v,
            None => r is Err,
        },
{
    let ghost keep = |n: Seq<char>| true;
    let ghost f = |c: Element| rc_of(c);
    let ghost cs = e.children@;
    let mut out: Vec<RegisterOrCluster> = Vec::new();
    let mut i: usize = 0;
    assert(cs.subrange(0, 0) =~= Seq::<Element>::empty());
    assert(out.deep_view() =~= Seq::<RegisterOrClusterModel>::empty());
    while i < e.children.len()
        invariant
            i <= e.children.len(),
            cs == e.children@,
            keep == (|n: Seq<char>| true),
            f == (|c: Element| rc_of(c)),
            parse_children(cs.subrange(0, i as int), keep, f) == Some(out.deep_view()),
        decreases e.children.len() - i,
    {
        let c = &e.children[i];
        assert(cs.subrange(0, i + 1).drop_last() =~= cs.subrange(0, i as int));
        assert(cs.subrange(0, i + 1).last() == *c);
        match RegisterOrCluster::from_element(c) {
            Ok(v) => {
                let ghost before = out.deep_view();
                out.push(v);
                assert(out.deep_view() =~= before.push(v.deep_view()));
            },
            Err(x) => {
                proof {
                    lemma_children_none(cs, keep, f, i + 1);
                }
                return Err(x);
            },
        }
        i = i + 1;
    }
    assert(cs.subrange(0, i as int) =~= cs);
    Ok(out)
}

/// The peripherals that all the children of `e` describe.
fn peripherals_from(e: &Element) -> (r: Result<Vec<Peripheral>, Error>)
    ensures
        match parse_children(e.children@, |n: Seq<char>| true, |c: Element| peripheral_of(c)) {
            Some(v) => r is Ok && r->Ok_0.deep_view() == v,
            None => r is Err,
        },
{
    let ghost keep = |n: Seq<char>| true;
    let ghost f = |c: Element| peripheral_of(c);
    let ghost cs = e.children@;
    let mut out: Vec<Peripheral> = Vec::new();
    let mut i: usize = 0;
    assert(cs.subrange(0, 0) =~= Seq::<Element>::empty());
    assert(out.deep_view() =~= Seq::<PeripheralModel>::empty());
    while i < e.children.len()
        invariant
            i <= e.children.len(),
            cs == e.children@,
            keep == (|n: Seq<char>| true),
            f == (|c: Element| peripheral_of(c)),
            parse_children(cs.subrange(0, i as int), keep, f) == Some(out.deep_view()),
        decreases e.children.len() - i,
    {
        let c = &e.children[i];
        assert(cs.subrange(0, i + 1).drop_last() =~= cs.subrange(0, i as int));
        assert(cs.subrange(0, i + 1).last() == *c);
        match Peripheral::from_element(c) {
            Ok(v) => {
                let ghost before = out.deep_view();
                out.push(v);
                assert(out.deep_view() =~= before.push(v.deep_view()));
            },
            Err(x) => {
                proof {
                    lemma_children_none(cs, keep, f, i + 1);
                }
                return Err(x);
            },
        }
        i = i + 1;
    }
    assert(cs.subrange(0, i as int) =~= cs);
    Ok(out)
}

/// The entries that the `registers` child of `e` lists: `Some(None)` where
/// there is no such child, `None` where one of them cannot be read.
pub open spec fn registers_child_of(e: Element) -> Option<Option<Seq<RegisterOrClusterModel>>> {
    let i = child_index(e, "registers"@, 0);
    if i < 0 {
        Some(None)
    } else {
        match parse_children(e.children@[i].children@, |n: Seq<char>| true, |c: Element| rc_of(c)) {
            Some(rs) => Some(Some(rs)),
            None => None,
        }
    }
}

/// The peripheral that `e` describes.
pub open spec fn peripheral_of(e: Element) -> Option<PeripheralModel> {
    match (
        dim_element_of(e),
        child_text(e, "name"@),
        required(child_text(e, "baseAddress"@), |s: Seq<char>| scaled_value_of(s)),
        properties_of(e),
        parse_children(e.children@, |n: Seq<char>| n == "addressBlock"@, |c: Element| address_block_of(c)),
        parse_children(e.children@, |n: Seq<char>| n == "interrupt"@, |c: Element| interrupt_of(c)),
        registers_child_of(e),
    ) {
        (Some(d), Some(n), Some(b), Some(rp), Some(ab), Some(it), Some(rs)) => Some(
            PeripheralModel {
                derived_from: attribute_value(e, "derivedFrom"@),
                dim_element: d,
                name: n,
                version: child_text(e, "version"@),
                description: child_text(e, "description"@),
                alternate_peripheral: child_text(e, "alternatePeripheral"@),
                group_name: child_text(e, "groupName"@),
                prepend_to_name: child_text(e, "prependToName"@),
                append_to_name: child_text(e, "appendToName"@),
                header_struct_name: child_text(e, "headerStructName"@),
                disable_condition: child_text(e, "disableCondition"@),
                base_address: b,
                register_properties: rp,
                address_blocks: ab,
                interrupts: it,
                registers: rs,
            },
        ),
        _ => None,
    }
}

impl Peripheral {
    #[verifier::rlimit(80)]
    pub fn from_element(element: &Element) -> (r: Result<Peripheral, Error>)
        ensures
            match peripheral_of(*element) {
                Some(v) => r is Ok && r->Ok_0.deep_view() == v,
                None => r is Err,
            },
    {
        let derived_from = element.attribute("derivedFrom");
        let dim_element = DimElementGroup::from_element(element)?;
        let name = match get_child_text(element, "name") {
            Some(n) => n,
            None => {
                return Err(Error::MissingField(String::from_str("peripheral"), String::from_str("name")));
            },
        };
        let version = get_child_text(element, "version");
        let description = get_child_text(element, "description");
        let alternate_peripheral = get_child_text(element, "alternatePeripheral");
        let group_name = get_child_text(element, "groupName");
        let prepend_to_name = get_child_text(element, "prependToName");
        let append_to_name = get_child_text(element, "appendToName");
        let header_struct_name = get_child_text(element, "headerStructName");
        let disable_condition = get_child_text(element, "disableCondition");
        let base_address = required_scaled(element, "peripheral", "baseAddress")?;
        let register_properties = RegisterPropertiesGroup::from_element(element)?;
        let address_blocks = address_blocks_from(element)?;
        let interrupts = interrupts_from(element)?;
        let registers = match element.get_child("registers") {
            Some(list) => Some(all_entries_from(list)?),
            None => None,
        };
        Ok(Peripheral {
            derived_from,
            dim_element,
            name,
            version,
            description,
            alternate_peripheral,
            group_name,
            prepend_to_name,
            append_to_name,
            header_struct_name,
            disable_condition,
            base_address,
            register_properties,
            address_blocks,
            interrupts,
            registers,
        })
    }
}

/// The device that `e` describes.
pub open spec fn device_of(e: Element) -> Option<DeviceModel> {
    let pi = child_index(e, "peripherals"@, 0);
    match (
        child_text(e, "name"@),
        child_text(e, "version"@),
        child_text(e, "description"@),
        required(child_text(e, "addressUnitBits"@), |s: Seq<char>| scaled_value_of(s)),
        required(child_text(e, "width"@), |s: Seq<char>| scaled_value_of(s)),
        properties_of(e),
    ) {
        (Some(n), Some(v), Some(d), Some(a), Some(w), Some(rp)) => if pi < 0 {
            None
        } else {
            match parse_children(
                e.children@[pi].children@,
                |n: Seq<char>| true,
                |c: Element| peripheral_of(c),
            ) {
                Some(ps) => Some(
                    DeviceModel {
                        vendor: child_text(e, "vendor"@),
                        vendor_id: child_text(e, "vendor_id"@),
                        name: n,
                        series: child_text(e, "series"@),
                        version: v,
                        description: d,
                        license_text: child_text(e, "licenseText"@),
                        header_system_filename: child_text(e, "headerSystemFilename"@),
                        header_definition_prefix: child_text(e, "headerDefinitionsPrefix"@),
                        address_unit_bits: a,
                        width: w,
                        register_properties: rp,
                        peripherals: ps,
                    },
                ),
                None => None,
            }
        },
        _ => None,
    }
}

/// The text of the mandatory child `name` of `element`.
fn required_text(element: &Element, kind: &str, name: &str) -> (r: Result<String, Error>)
    ensures
        match child_text(*element, name@) {
            Some(t) => r is Ok && r->Ok_0@ == t,
            None => r is Err && r->Err_0 is MissingField,
        },
{
    match get_child_text(element, name) {
        Some(t) => Ok(t),
        None => Err(Error::MissingField(String::from_str(kind), String::from_str(name))),
    }
}

impl Device {
    #[verifier::rlimit(80)]
    pub fn from_element(element: &Element) -> (r: Result<Device, Error>)
        ensures
            match device_of(*element) {
                Some(v) => r is Ok && r->Ok_0.deep_view() == v,
                None => r is Err,
            },
    {
        let vendor = get_child_text(element, "vendor");
        let vendor_id = get_child_text(element, "vendor_id");
        let name = required_text(element, "device", "name")?;
        let series = get_child_text(element, "series");
        let version = required_text(element, "device", "version")?;
        let description = required_text(element, "device", "description")?;
        let license_text = get_child_text(element, "licenseText");
        let header_system_filename = get_child_text(element, "headerSystemFilename");
        let header_definition_prefix = get_child_text(element, "headerDefinitionsPrefix");
        let address_unit_bits = required_scaled(element, "device", "addressUnitBits")?;
        let width = required_scaled(element, "device", "width")?;
        let register_properties = RegisterPropertiesGroup::from_element(element)?;
        let list = match element.get_child("peripherals") {
            Some(list) => list,
            None => {
                return Err(Error::MissingField(String::from_str("device"), String::from_str("peripherals")));
            },
        };
        let peripherals = peripherals_from(list)?;
        Ok(Device {
            vendor,
            vendor_id,
            name,
            series,
            version,
            description,
            license_text,
            header_system_filename,
            header_definition_prefix,
            address_unit_bits,
            width,
            register_properties,
            peripherals,
        })
    }
}

} // verus!
