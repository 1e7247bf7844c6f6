use vstd::prelude::*;
use vstd::string::StrSliceExecFns;
use crate::register_properties_group::{first_present, first_some};
use crate::types::ScaledNonNegativeInteger;
use crate::utils::copy_texts;

verus! {

/// Index names of an array-like entity.
#[derive(Clone, Debug)]
pub enum DimIndexType {
    /// A list of names.
    List(Vec<String>),
    /// A range of upper-case letters.
    CharRange { start: char, end: char },
    /// A range of decimal numbers.
    DecimalRange { start: u64, end: u64 },
}

/// Mathematical model of a [`DimIndexType`].
pub ghost enum DimIndexModel {
    List(Seq<Seq<char>>),
    CharRange { start: char, end: char },
    DecimalRange { start: u64, end: u64 },
}

/// Repetition of an array-like entity.
#[derive(Clone, Debug)]
pub struct DimElementGroup {
    pub dim: Option<ScaledNonNegativeInteger>,
    pub dim_increment: Option<ScaledNonNegativeInteger>,
    pub dim_index: Option<DimIndexType>,
}

/// Mathematical model of a [`DimElementGroup`].
pub ghost struct DimElementModel {
    pub dim: Option<ScaledNonNegativeInteger>,
    pub dim_increment: Option<ScaledNonNegativeInteger>,
    pub dim_index: Option<DimIndexModel>,
}

impl DeepView for DimIndexType {
    type V = DimIndexModel;

    open spec fn deep_view(&self) -> DimIndexModel {
        match self {
            DimIndexType::List(v) => DimIndexModel::List(v.deep_view()),
            DimIndexType::CharRange { start, end } => DimIndexModel::CharRange {
                start: *start,
                end: *end,
            },
            DimIndexType::DecimalRange { start, end } => DimIndexModel::DecimalRange {
                start: *start,
                end: *end,
            },
        }
    }
}

impl DeepView for DimElementGroup {
    type V = DimElementModel;

    open spec fn deep_view(&self) -> DimElementModel {
        DimElementModel {
            dim: self.dim,
            dim_increment: self.dim_increment,
            dim_index: self.dim_index.deep_view(),
        }
    }
}

impl DimIndexType {
    pub fn duplicate(&self) -> (r: DimIndexType)
        ensures
            r.deep_view() == self.deep_view(),
    {
        match self {
            DimIndexType::List(v) => DimIndexType::List(copy_texts(v)),
            DimIndexType::CharRange { start, end } => DimIndexType::CharRange {
                start: *start,
                end: *end,
            },
            DimIndexType::DecimalRange { start, end } => DimIndexType::DecimalRange {
                start: *start,
                end: *end,
            },
        }
    }
}

impl DimElementModel {
    /// Each repetition attribute of `self`, or of `src` where `self` has none.
    pub open spec fn merged(self, src: DimElementModel) -> DimElementModel {
        DimElementModel {
            dim: first_some(self.dim, src.dim),
            dim_increment: first_some(self.dim_increment, src.dim_increment),
            dim_index: first_some(self.dim_index, src.dim_index),
        }
    }
}

/// Whether a character may stand in a name of an index list.
pub open spec fn dim_index_char(c: char) -> bool {
    c == '_' || ('0' <= c && c <= '9') || ('a' <= c && c <= 'z') || ('A' <= c && c <= 'Z')
}

pub fn is_dim_index_char_valid(c: char) -> (r: bool)
    ensures
        r == dim_index_char(c),
{
    c == '_' || ('0' <= c && c <= '9') || ('a' <= c && c <= 'z') || ('A' <= c && c <= 'Z')
}

pub fn is_dim_index_str_valid(s: &str) -> (r: bool)
    ensures
        r == (forall|i: int| 0 <= i < s@.len() ==> dim_index_char(#[trigger] s@[i])),
{
    let n = s.unicode_len();
    let mut i: usize = 0;
    while i < n
        invariant
            n == s@.len(),
            i <= n,
            forall|k: int| 0 <= k < i ==> dim_index_char(#[trigger] s@[k]),
        decreases n - i,
    {
        if !is_dim_index_char_valid(s.get_char(i)) {
            return false;
        }
        i = i + 1;
    }
    true
}

impl DimElementGroup {
    pub fn duplicate(&self) -> (r: DimElementGroup)
        ensures
            r.deep_view() == self.deep_view(),
    {
        DimElementGroup {
            dim: self.dim,
            dim_increment: self.dim_increment,
            dim_index: match &self.dim_index {
                Some(d) => Some(d.duplicate()),
                None => None,
            },
        }
    }

    pub fn merge_derived_from(&mut self, derived_from: &DimElementGroup)
        ensures
            final(self).deep_view() == old(self).deep_view().merged(derived_from.deep_view()),
    {
        self.dim = first_present(self.dim, derived_from.dim);
        self.dim_increment = first_present(self.dim_increment, derived_from.dim_increment);
        if self.dim_index.is_none() {
            self.dim_index = match &derived_from.dim_index {
                Some(d) => Some(d.duplicate()),
                None => None,
            };
        }
    }
}

} // verus!
