use vstd::prelude::*;
use crate::access::{option_is_read, option_is_write, readable, writable, Access};
use crate::bit_range::BitRange;
use crate::derivation::Derivable;
use crate::enumerated_values::{EnumeratedValues, EnumeratedValuesModel};
use crate::modified_write_values::ModifiedWriteValues;
use crate::read_action::ReadAction;
use crate::register_properties_group::{first_present, first_some};
use crate::utils::{copy_text, copy_vec, extract_prefix, first_text, name_prefix, name_suffix, Duplicate};
use vstd::string::StringExecFns;

verus! {

/// A named bit range of a register.
#[derive(Clone, Debug)]
pub struct Field {
    pub derived_from: Option<String>,
    pub name: String,
    pub description: Option<String>,
    pub bit_range: BitRange,
    pub access: Option<Access>,
    pub modified_write_values: Option<ModifiedWriteValues>,
    pub read_action: Option<ReadAction>,
    pub enumerated_values: Vec<EnumeratedValues>,
}

/// Mathematical model of a [`Field`].
pub ghost struct FieldModel {
    pub derived_from: Option<Seq<char>>,
    pub name: Seq<char>,
    pub description: Option<Seq<char>>,
    pub bit_range: BitRange,
    pub access: Option<Access>,
    pub modified_write_values: Option<ModifiedWriteValues>,
    pub read_action: Option<ReadAction>,
    pub enumerated_values: Seq<EnumeratedValuesModel>,
}

impl DeepView for Field {
    type V = FieldModel;

    open spec fn deep_view(&self) -> FieldModel {
        FieldModel {
            derived_from: self.derived_from.deep_view(),
            name: self.name@,
            description: self.description.deep_view(),
            bit_range: self.bit_range,
            access: self.access,
            modified_write_values: self.modified_write_values,
            read_action: self.read_action,
            enumerated_values: self.enumerated_values.deep_view(),
        }
    }
}

impl Duplicate for Field {
    fn duplicate(&self) -> (r: Self) {
        Field {
            derived_from: copy_text(&self.derived_from),
            name: self.name.clone(),
            description: copy_text(&self.description),
            bit_range: self.bit_range,
            access: self.access,
            modified_write_values: self.modified_write_values,
            read_action: self.read_action,
            enumerated_values: copy_vec(&self.enumerated_values),
        }
    }
}

impl FieldModel {
    /// This field after taking what it leaves unset from `src`: each optional
    /// attribute it lacks, the enumerated values if it has none, and `src`'s
    /// own `derivedFrom`.
    pub open spec fn merged(self, src: FieldModel) -> FieldModel {
        FieldModel {
            derived_from: src.derived_from,
            description: first_some(self.description, src.description),
            access: first_some(self.access, src.access),
            modified_write_values: first_some(self.modified_write_values, src.modified_write_values),
            read_action: first_some(self.read_action, src.read_action),
            enumerated_values: if self.enumerated_values.len() == 0 {
                src.enumerated_values
            } else {
                self.enumerated_values
            },
            ..self
        }
    }
}

impl Field {
    pub fn is_read(&self) -> (r: bool)
        ensures
            r == readable(self.access),
    {
        option_is_read(&self.access)
    }

    pub fn is_write(&self) -> (r: bool)
        ensures
            r == writable(self.access),
    {
        option_is_write(&self.access)
    }

    pub fn merge_derived_from(&mut self, derived_from: &Field)
        ensures
            final(self).deep_view() == old(self).deep_view().merged(derived_from.deep_view()),
    {
        self.derived_from = copy_text(&derived_from.derived_from);
        self.description = first_text(&self.description, &derived_from.description);
        self.access = first_present(self.access, derived_from.access);
        self.modified_write_values = first_present(
            self.modified_write_values,
            derived_from.modified_write_values,
        );
        self.read_action = first_present(self.read_action, derived_from.read_action);
        if self.enumerated_values.len() == 0 {
            self.enumerated_values = copy_vec(&derived_from.enumerated_values);
        }
    }
}

impl Derivable for Field {
    open spec fn name_of(m: FieldModel) -> Seq<char> {
        m.name
    }

    open spec fn source_of(m: FieldModel) -> Option<Seq<char>> {
        m.derived_from
    }

    open spec fn merged(m: FieldModel, src: FieldModel) -> FieldModel {
        m.merged(src)
    }

    proof fn lemma_merged_keeps_name(m: FieldModel, src: FieldModel) {
    }

    fn name_ref(&self) -> (r: &String) {
        &self.name
    }

    fn source_ref(&self) -> (r: &Option<String>) {
        &self.derived_from
    }

    fn merge_from(&mut self, src: &Self) {
        self.merge_derived_from(src);
    }
}

} // verus!

verus! {

/// A chain of fields `a` from `b`, `b` from `c`: once resolved, each
/// optional attribute of `a` is its own, else `b`'s, else `c`'s.
pub proof fn lemma_field_chain(a: FieldModel, b: FieldModel, c: FieldModel)
    requires
        a.name != b.name,
        a.name != c.name,
        b.name != c.name,
        a.derived_from == Some(b.name),
        b.derived_from == Some(c.name),
        c.derived_from is None,
    ensures
        crate::derivation::resolve_scope::<Field>(seq![a, b, c]) is Ok,
        ({
            let r = crate::derivation::resolve_scope::<Field>(seq![a, b, c])->Ok_0[0];
            &&& r.derived_from is None
            &&& r.name == a.name
            &&& r.bit_range == a.bit_range
            &&& r.description == first_some(a.description, first_some(b.description, c.description))
            &&& r.access == first_some(a.access, first_some(b.access, c.access))
            &&& r.modified_write_values == first_some(
                a.modified_write_values,
                first_some(b.modified_write_values, c.modified_write_values),
            )
            &&& r.read_action == first_some(a.read_action, first_some(b.read_action, c.read_action))
        }),
{
    crate::derivation::lemma_chain::<Field>(seq![a, b, c]);
}

} // verus!

verus! {

/// Fields of one register that share a name prefix, numbered from 0, and
/// that are accessed by an index.
#[derive(Clone, Debug)]
pub struct FieldsGroup {
    pub prefix: String,
    pub lsb: u32,
    pub width: u32,
    pub count: usize,
    pub lsb_increment: i64,
    pub description: Option<String>,
    pub access: Option<Access>,
}

/// Mathematical model of a [`FieldsGroup`].
pub ghost struct FieldsGroupModel {
    pub prefix: Seq<char>,
    pub lsb: u32,
    pub width: u32,
    pub count: usize,
    pub lsb_increment: i64,
    pub description: Option<Seq<char>>,
    pub access: Option<Access>,
}

impl DeepView for FieldsGroup {
    type V = FieldsGroupModel;

    open spec fn deep_view(&self) -> FieldsGroupModel {
        FieldsGroupModel {
            prefix: self.prefix@,
            lsb: self.lsb,
            width: self.width,
            count: self.count,
            lsb_increment: self.lsb_increment,
            description: self.description.deep_view(),
            access: self.access,
        }
    }
}

/// The name prefix of a field: its name without the trailing digits.
pub open spec fn prefix_of(f: FieldModel) -> Seq<char> {
    name_prefix(f.name)
}

/// The index that the trailing digits of a field's name spell.
pub open spec fn suffix_of(f: FieldModel) -> Option<usize> {
    name_suffix(f.name)
}

/// The fields of `fs` whose prefix is `p`, in order.
pub open spec fn members(fs: Seq<FieldModel>, p: Seq<char>) -> Seq<FieldModel> {
    fs.filter(has_prefix(p))
}

/// The test that a field's prefix is `p`.
pub open spec fn has_prefix(p: Seq<char>) -> spec_fn(FieldModel) -> bool {
    |f: FieldModel| prefix_of(f) == p
}

/// What each member of a group must satisfy: an index below the group's
/// size, and a well-formed range of the first member's width and access mode.
pub open spec fn member_ok(ms: Seq<FieldModel>, i: int) -> bool {
    &&& suffix_of(ms[i]) is Some
    &&& suffix_of(ms[i])->Some_0 < ms.len()
    &&& ms[i].bit_range.wf()
    &&& ms[i].bit_range.spec_width() <= u32::MAX
    &&& ms[i].bit_range.spec_width() == ms[0].bit_range.spec_width()
    &&& ms[i].access == ms[0].access
}

/// Whether some field of `ms` has the index `k`.
pub open spec fn has_suffix(ms: Seq<FieldModel>, k: int) -> bool {
    exists|i: int| 0 <= i < ms.len() && suffix_of(ms[i]) == Some(k as usize)
}

/// Whether the least significant bits of `ms` change by one constant stride
/// (of either sign) per index.
pub open spec fn constant_stride(ms: Seq<FieldModel>) -> bool {
    forall|z: int, o: int|
        0 <= z < ms.len() && 0 <= o < ms.len() && #[trigger] suffix_of(ms[z]) == Some(0usize)
            && #[trigger] suffix_of(ms[o]) == Some(1usize) ==> {
            forall|m: int|
                0 <= m < ms.len() ==> #[trigger] ms[m].bit_range.lsb == ms[z].bit_range.lsb
                    + suffix_of(ms[m])->Some_0 * (ms[o].bit_range.lsb - ms[z].bit_range.lsb)
        }
}

/// Whether fields can stand as one indexed group: at least two, well-formed
/// ranges of one width and one access mode, numbered exactly `0..n`, the
/// least significant bit changing by one constant stride per index.
pub open spec fn groupable(ms: Seq<FieldModel>) -> bool {
    &&& ms.len() >= 2
    &&& forall|i: int| 0 <= i < ms.len() ==> #[trigger] member_ok(ms, i)
    &&& forall|k: int| 0 <= k < ms.len() ==> #[trigger] has_suffix(ms, k)
    &&& constant_stride(ms)
}

/// The first non-empty description among fields, in order.
pub open spec fn first_description(ms: Seq<FieldModel>) -> Option<Seq<char>>
    decreases ms.len(),
{
    if ms.len() == 0 {
        None
    } else if ms[0].description is Some && ms[0].description->Some_0.len() > 0 {
        ms[0].description
    } else {
        first_description(ms.drop_first())
    }
}

/// The group that groupable fields `ms` of prefix `p` form.
pub open spec fn group_of(p: Seq<char>, ms: Seq<FieldModel>) -> FieldsGroupModel {
    let z = choose|z: int| 0 <= z < ms.len() && suffix_of(ms[z]) == Some(0usize);
    let o = choose|o: int| 0 <= o < ms.len() && suffix_of(ms[o]) == Some(1usize);
    FieldsGroupModel {
        prefix: p,
        lsb: ms[z].bit_range.lsb,
        width: ms[0].bit_range.spec_width() as u32,
        count: ms.len() as usize,
        lsb_increment: (ms[o].bit_range.lsb - ms[z].bit_range.lsb) as i64,
        description: first_description(ms),
        access: ms[0].access,
    }
}

/// Whether the fields of prefix `p` form a group.
pub open spec fn is_grouped(fs: Seq<FieldModel>, p: Seq<char>) -> bool {
    p.len() > 0 && groupable(members(fs, p))
}

/// Whether no field before `i` has the prefix of field `i`.
pub open spec fn first_of_prefix(fs: Seq<FieldModel>, i: int) -> bool {
    forall|j: int| 0 <= j < i ==> prefix_of(#[trigger] fs[j]) != prefix_of(fs[i])
}

/// The groups that the first `k` fields open, in the order of each prefix's
/// first field.
pub open spec fn groups_upto(fs: Seq<FieldModel>, k: int) -> Seq<FieldsGroupModel>
    decreases k,
{
    if k <= 0 {
        Seq::empty()
    } else {
        let g = groups_upto(fs, k - 1);
        let p = prefix_of(fs[k - 1]);
        if first_of_prefix(fs, k - 1) && is_grouped(fs, p) {
            g.push(group_of(p, members(fs, p)))
        } else {
            g
        }
    }
}

/// The fields that belong to no group, in order.
pub open spec fn ungrouped(fs: Seq<FieldModel>) -> Seq<FieldModel> {
    fs.filter(|f: FieldModel| !is_grouped(fs, prefix_of(f)))
}

/// The fields of `fields` whose prefix is `p`, copied.
fn collect_members(fields: &Vec<Field>, p: &String) -> (r: Vec<Field>)
    ensures
        r.deep_view() == members(fields.deep_view(), p@),
{
    let ghost fs = fields.deep_view();
    proof {
        reveal(Seq::filter);
    }
    let mut out: Vec<Field> = Vec::new();
    let mut i: usize = 0;
    assert(fs.subrange(0, 0).filter(has_prefix(p@)) =~= Seq::<FieldModel>::empty());
    assert(out.deep_view() =~= Seq::<FieldModel>::empty());
    while i < fields.len()
        invariant
            i <= fields.len(),
            fs == fields.deep_view(),
            out.deep_view() == fs.subrange(0, i as int).filter(has_prefix(p@)),
        decreases fields.len() - i,
    {
        let ghost before = out.deep_view();
        assert(fs.subrange(0, i + 1).drop_last() =~= fs.subrange(0, i as int));
        let (q, _) = extract_prefix(fields[i].name.as_str());
        let q = String::from_str(q);
        assert(fs.subrange(0, i + 1).last() == fs[i as int]);
        assert(q@ == prefix_of(fs[i as int]));
        proof {
            reveal(Seq::filter);
        }
        assert(fs.subrange(0, i + 1).filter(has_prefix(p@)) == if prefix_of(fs[i as int]) == p@ {
            before.push(fs[i as int])
        } else {
            before
        });
        if q == *p {
            out.push(fields[i].duplicate());
            assert(out.deep_view() =~= before.push(fs[i as int]));
        }
        i = i + 1;
    }
    assert(fs.subrange(0, fields.len() as int) =~= fs);
    out
}

/// Index of the first field of `ms` whose index suffix is `k`.
fn find_suffix(ms: &Vec<Field>, k: usize) -> (r: Option<usize>)
    ensures
        match r {
            Some(i) => i < ms.len() && suffix_of(ms.deep_view()[i as int]) == Some(k),
            None => forall|i: int| 0 <= i < ms.len() ==> suffix_of(#[trigger] ms.deep_view()[i]) != Some(k),
        },
{
    let mut i: usize = 0;
    while i < ms.len()
        invariant
            i <= ms.len(),
            forall|j: int| 0 <= j < i ==> suffix_of(#[trigger] ms.deep_view()[j]) != Some(k),
        decreases ms.len() - i,
    {
        let (_, s) = extract_prefix(ms[i].name.as_str());
        if s == Some(k) {
            return Some(i);
        }
        i = i + 1;
    }
    None
}

/// The first description among fields, copied.
fn first_description_of(ms: &Vec<Field>) -> (r: Option<String>)
    ensures
        r.deep_view() == first_description(ms.deep_view()),
{
    let ghost s = ms.deep_view();
    let mut i: usize = 0;
    assert(s.subrange(0, s.len() as int) =~= s);
    while i < ms.len()
        invariant
            i <= ms.len(),
            s == ms.deep_view(),
            first_description(s) == first_description(s.subrange(i as int, s.len() as int)),
        decreases ms.len() - i,
    {
        assert(s.subrange(i as int, s.len() as int).drop_first() =~= s.subrange(i + 1, s.len() as int));
        let non_empty = match &ms[i].description {
            Some(d) => d.as_str().unicode_len() > 0,
            None => false,
        };
        if non_empty {
            return copy_text(&ms[i].description);
        }
        i = i + 1;
    }
    None
}

/// The group that `ms` forms, where it forms one.
#[verifier::rlimit(80)]
fn check_group(ms: &Vec<Field>, p: &String) -> (r: Option<FieldsGroup>)
    ensures
        r is Some == groupable(ms.deep_view()),
        r is Some ==> r->Some_0.deep_view() == group_of(p@, ms.deep_view()),
{
    let ghost s = ms.deep_view();
    let n = ms.len();
    if n < 2 {
        return None;
    }
    let w0 = ms[0].bit_range;
    let a0 = ms[0].access;
    let mut i: usize = 0;
    while i < n
        invariant
            i <= n,
            n == ms.len(),
            n >= 2,
            s == ms.deep_view(),
            w0 == s[0].bit_range,
            a0 == s[0].access,
            forall|j: int| 0 <= j < i ==> #[trigger] member_ok(s, j),
        decreases n - i,
    {
        let (_, suffix) = extract_prefix(ms[i].name.as_str());
        let b = ms[i].bit_range;
        let ok = match suffix {
            Some(x) => x < n,
            None => false,
        };
        if !ok || b.lsb > b.msb || (b.msb as u64) - (b.lsb as u64) + 1 > u32::MAX as u64 || w0.lsb
            > w0.msb || (b.msb as u64) - (b.lsb as u64) != (w0.msb as u64) - (w0.lsb as u64)
            || ms[i].access != a0 {
            assert(!groupable(s)) by {
                if groupable(s) {
                    assert(member_ok(s, i as int));
                    assert(member_ok(s, 0));
                }
            }
            return None;
        }
        assert(member_ok(s, i as int));
        i = i + 1;
    }
    let mut k: usize = 0;
    while k < n
        invariant
            k <= n,
            n == ms.len(),
            s == ms.deep_view(),
            forall|j: int| 0 <= j < k ==> #[trigger] has_suffix(s, j),
        decreases n - k,
    {
        match find_suffix(ms, k) {
            None => {
                assert(!groupable(s)) by {
                    if groupable(s) {
                        assert(has_suffix(s, k as int));
                    }
                }
                return None;
            },
            Some(x) => {
                assert(suffix_of(s[x as int]) == Some(k));
                assert(has_suffix(s, k as int));
            },
        }
        k = k + 1;
    }
    assert(has_suffix(s, 0));
    assert(has_suffix(s, 1));
    let z = match find_suffix(ms, 0) {
        Some(z) => z,
        None => {
            return None;
        },
    };
    let o = match find_suffix(ms, 1) {
        Some(o) => o,
        None => {
            return None;
        },
    };
    let lz = ms[z].bit_range.lsb;
    let lo = ms[o].bit_range.lsb;
    let stride: i64 = lo as i64 - lz as i64;
    let mut m: usize = 0;
    while m < n
        invariant
            m <= n,
            n == ms.len(),
            s == ms.deep_view(),
            z < n,
            o < n,
            suffix_of(s[z as int]) == Some(0usize),
            suffix_of(s[o as int]) == Some(1usize),
            lz == s[z as int].bit_range.lsb,
            lo == s[o as int].bit_range.lsb,
            stride == lo - lz,
            forall|j: int| 0 <= j < n ==> #[trigger] member_ok(s, j),
            forall|j: int|
                0 <= j < m ==> #[trigger] s[j].bit_range.lsb == lz + suffix_of(s[j])->Some_0 * stride,
        decreases n - m,
    {
        assert(member_ok(s, m as int));
        let (_, suffix) = extract_prefix(ms[m].name.as_str());
        let x = suffix.unwrap();
        let l = ms[m].bit_range.lsb;
        assert(-0x1_0000_0000_0000_0000_0000_0000i128 <= (x as i128) * (stride as i128)
            <= 0x1_0000_0000_0000_0000_0000_0000i128) by (nonlinear_arith)
            requires
                0 <= x <= 0xffff_ffff_ffff_ffffu64,
                -0xffff_ffffi64 <= stride <= 0xffff_ffffi64,
        ;
        let expected: i128 = lz as i128 + (x as i128) * (stride as i128);
        if l as i128 != expected {
            assert(!constant_stride(s)) by {
                if constant_stride(s) {
                    assert(s[m as int].bit_range.lsb == s[z as int].bit_range.lsb + suffix_of(
                        s[m as int],
                    )->Some_0 * (s[o as int].bit_range.lsb - s[z as int].bit_range.lsb));
                }
            }
            return None;
        }
        m = m + 1;
    }
    assert(constant_stride(s)) by {
        assert forall|z2: int, o2: int|
            0 <= z2 < s.len() && 0 <= o2 < s.len() && #[trigger] suffix_of(s[z2]) == Some(0usize)
                && #[trigger] suffix_of(s[o2]) == Some(1usize) implies {
            forall|m2: int|
                0 <= m2 < s.len() ==> #[trigger] s[m2].bit_range.lsb == s[z2].bit_range.lsb
                    + suffix_of(s[m2])->Some_0 * (s[o2].bit_range.lsb - s[z2].bit_range.lsb)
        } by {
            assert(s[z2].bit_range.lsb == lz + suffix_of(s[z2])->Some_0 * stride);
            assert(s[o2].bit_range.lsb == lz + suffix_of(s[o2])->Some_0 * stride);
        }
    }
    let ghost zc = choose|zc: int| 0 <= zc < s.len() && suffix_of(s[zc]) == Some(0usize);
    let ghost oc = choose|oc: int| 0 <= oc < s.len() && suffix_of(s[oc]) == Some(1usize);
    assert(s[zc].bit_range.lsb == lz + suffix_of(s[zc])->Some_0 * stride);
    assert(s[oc].bit_range.lsb == lz + suffix_of(s[oc])->Some_0 * stride);
    assert(member_ok(s, 0));
    Some(FieldsGroup {
        prefix: p.clone(),
        lsb: lz,
        width: (w0.msb - w0.lsb + 1) as u32,
        count: n,
        lsb_increment: stride,
        description: first_description_of(ms),
        access: a0,
    })
}

/// The name prefix of a field.
fn prefix_string(f: &Field) -> (r: String)
    ensures
        r@ == prefix_of(f.deep_view()),
{
    let (q, _) = extract_prefix(f.name.as_str());
    String::from_str(q)
}

/// The group that the fields of prefix `p` form, where they form one.
fn group_for(fields: &Vec<Field>, p: &String) -> (r: Option<FieldsGroup>)
    ensures
        r is Some == is_grouped(fields.deep_view(), p@),
        r is Some ==> r->Some_0.deep_view() == group_of(p@, members(fields.deep_view(), p@)),
{
    if p.as_str().unicode_len() == 0 {
        return None;
    }
    let ms = collect_members(fields, p);
    check_group(&ms, p)
}

/// Whether no field before `i` has the prefix of field `i`.
fn is_first_of_prefix(fields: &Vec<Field>, i: usize) -> (r: bool)
    requires
        i < fields.len(),
    ensures
        r == first_of_prefix(fields.deep_view(), i as int),
{
    let p = prefix_string(&fields[i]);
    let mut j: usize = 0;
    while j < i
        invariant
            j <= i,
            i < fields.len(),
            p@ == prefix_of(fields.deep_view()[i as int]),
            forall|k: int| 0 <= k < j ==> prefix_of(#[trigger] fields.deep_view()[k]) != p@,
        decreases i - j,
    {
        let q = prefix_string(&fields[j]);
        if q == p {
            assert(prefix_of(fields.deep_view()[j as int]) == prefix_of(fields.deep_view()[i as int]));
            return false;
        }
        j = j + 1;
    }
    true
}

/// The test that a field of `fs` belongs to no group.
pub open spec fn not_grouped_in(fs: Seq<FieldModel>) -> spec_fn(FieldModel) -> bool {
    |f: FieldModel| !is_grouped(fs, prefix_of(f))
}

impl FieldsGroup {
    /// Groups the fields that share a non-empty prefix and that can stand as
    /// one indexed group. Returns the groups, in the order of the first field
    /// of each, and the fields that belong to none, in order.
    #[verifier::rlimit(80)]
    pub fn from_fields(fields: &Vec<Field>) -> (r: (Vec<FieldsGroup>, Vec<Field>))
        ensures
            r.0.deep_view() == groups_upto(fields.deep_view(), fields.len() as int),
            r.1.deep_view() == ungrouped(fields.deep_view()),
    {
        let ghost fs = fields.deep_view();
        let mut groups: Vec<FieldsGroup> = Vec::new();
        let mut i: usize = 0;
        assert(groups.deep_view() =~= Seq::<FieldsGroupModel>::empty());
        while i < fields.len()
            invariant
                i <= fields.len(),
                fs == fields.deep_view(),
                groups.deep_view() == groups_upto(fs, i as int),
            decreases fields.len() - i,
        {
            let ghost before = groups.deep_view();
            if is_first_of_prefix(fields, i) {
                let p = prefix_string(&fields[i]);
                match group_for(fields, &p) {
                    Some(g) => {
                        groups.push(g);
                        assert(groups.deep_view() =~= before.push(g.deep_view()));
                    },
                    None => {},
                }
            }
            i = i + 1;
        }
        let mut individuals: Vec<Field> = Vec::new();
        let mut i: usize = 0;
        proof {
            reveal(Seq::filter);
        }
        assert(fs.subrange(0, 0).filter(not_grouped_in(fs)) =~= Seq::<FieldModel>::empty());
        assert(individuals.deep_view() =~= Seq::<FieldModel>::empty());
        while i < fields.len()
            invariant
                i <= fields.len(),
                fs == fields.deep_view(),
                individuals.deep_view() == fs.subrange(0, i as int).filter(not_grouped_in(fs)),
            decreases fields.len() - i,
        {
            let ghost before = individuals.deep_view();
            assert(fs.subrange(0, i + 1).drop_last() =~= fs.subrange(0, i as int));
            assert(fs.subrange(0, i + 1).last() == fs[i as int]);
            proof {
                reveal(Seq::filter);
            }
            assert(fs.subrange(0, i + 1).filter(not_grouped_in(fs)) == if !is_grouped(
                fs,
                prefix_of(fs[i as int]),
            ) {
                before.push(fs[i as int])
            } else {
                before
            });
            let p = prefix_string(&fields[i]);
            if group_for(fields, &p).is_none() {
                individuals.push(fields[i].duplicate());
                assert(individuals.deep_view() =~= before.push(fs[i as int]));
            }
            i = i + 1;
        }
        assert(fs.subrange(0, fields.len() as int) =~= fs);
        (groups, individuals)
    }

    pub fn is_read(&self) -> (r: bool)
        ensures
            r == readable(self.access),
    {
        option_is_read(&self.access)
    }

    pub fn is_write(&self) -> (r: bool)
        ensures
            r == writable(self.access),
    {
        option_is_write(&self.access)
    }

    pub fn prefix(&self) -> (r: &str)
        ensures
            r@ == self.prefix@,
    {
        self.prefix.as_str()
    }

    pub fn lsb(&self) -> (r: u32)
        ensures
            r == self.lsb,
    {
        self.lsb
    }

    pub fn width(&self) -> (r: u32)
        ensures
            r == self.width,
    {
        self.width
    }

    pub fn count(&self) -> (r: usize)
        ensures
            r == self.count,
    {
        self.count
    }

    pub fn lsb_increment(&self) -> (r: i64)
        ensures
            r == self.lsb_increment,
    {
        self.lsb_increment
    }

    pub fn access(&self) -> (r: Option<Access>)
        ensures
            r == self.access,
    {
        self.access
    }

    pub fn description(&self) -> (r: &Option<String>)
        ensures
            r == &self.description,
    {
        &self.description
    }
}

} // verus!
