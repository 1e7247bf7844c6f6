use vstd::prelude::*;
use vstd::string::{StrSliceExecFns, StringExecFns};
use crate::codegen::error::CodegenError;
use crate::access::{readable, writable};
use crate::field::{groups_upto, ungrouped, Field, FieldModel, FieldsGroup, FieldsGroupModel};
use crate::register::{Register, RegisterModel};
use crate::device::Device;
use crate::is_similar::IsSimilarOptions;
use crate::peripheral::{
    first_description_of_group,
    grouping,
    Peripheral,
    PeripheralModel,
    PeripheralsGroup,
    PeripheralsGroupModel,
};
use crate::register_or_cluster::{RegisterOrCluster, RegisterOrClusterModel};
use crate::register_properties_group::{first_present, first_some};
use crate::utils::Duplicate;
use crate::text::{decimal_string, decimal_text, hex_text, push_digits};

verus! {

/// Generates accessor code as a list of lines, each indented by the
/// nesting depth at which it was written.
#[derive(Clone, Debug)]
pub struct CodeGenerator {
    pub indentation_level: u32,
    pub out: Vec<String>,
    pub with_field: bool,
    pub group_fields: bool,
    pub bool_field: bool,
    pub group_peripherals: bool,
    pub with_doc: bool,
}

/// The indentation of nesting depth `level`: four spaces per level.
pub open spec fn indentation(level: nat) -> Seq<char>
    decreases level,
{
    if level == 0 {
        Seq::empty()
    } else {
        indentation((level - 1) as nat) + "    "@
    }
}

/// A line of text `t` at nesting depth `level`.
pub open spec fn line(level: nat, t: Seq<char>) -> Seq<char> {
    indentation(level) + t
}

/// The options of a generator that decide what it writes.
pub ghost struct Style {
    pub with_field: bool,
    pub group_fields: bool,
    pub bool_field: bool,
    pub group_peripherals: bool,
    pub with_doc: bool,
}

/// The options of generator `g`.
pub open spec fn style(g: CodeGenerator) -> Style {
    Style {
        with_field: g.with_field,
        group_fields: g.group_fields,
        bool_field: g.bool_field,
        group_peripherals: g.group_peripherals,
        with_doc: g.with_doc,
    }
}

/// Whether a generator may nest `k` levels deeper.
pub open spec fn has_room(g: CodeGenerator, k: nat) -> bool {
    g.indentation_level + k <= u32::MAX
}

/// Lines of documentation for `doc`, where documentation is wanted.
pub open spec fn doc_lines(with_doc: bool, level: nat, doc: Option<Seq<char>>) -> Seq<Seq<char>> {
    if with_doc && doc is Some {
        seq![line(level, "#[doc = \""@ + doc->Some_0 + "\"]"@)]
    } else {
        Seq::empty()
    }
}

/// The mask of a field of `width` bits: `(1 << width) - 1`.
pub open spec fn mask_of(width: u32) -> u64 {
    if width >= 64 {
        u64::MAX
    } else {
        ((1u64 << width) - 1) as u64
    }
}

/// Whether a field width can be expressed in the generated code.
pub open spec fn width_ok(width: int) -> bool {
    1 <= width <= 64
}

/// Lines that read a field of `width` bits at `lsb` (an expression) of `self.0`.
pub open spec fn bits_get_lines(bool_field: bool, level: nat, lsb: Seq<char>, width: u32) -> Seq<
    Seq<char>,
> {
    if bool_field && width == 1 {
        seq![line(level, "(self.0 & (1 << "@ + lsb + ")) != 0"@)]
    } else {
        seq![
            line(level, "let mask = "@ + decimal_text(mask_of(width) as nat) + " << "@ + lsb + ";"@),
            line(level, "(self.0 & mask) >> "@ + lsb),
        ]
    }
}

/// Lines that write a field of `width` bits at `lsb` (an expression) of `self.0`.
pub open spec fn bits_set_lines(bool_field: bool, level: nat, lsb: Seq<char>, width: u32) -> Seq<
    Seq<char>,
> {
    if bool_field && width == 1 {
        seq![
            line(level, "if value {"@),
            line(level, "    self.0 |= 1 << "@ + lsb + ";"@),
            line(level, "} else {"@),
            line(level, "    self.0 &= !(1 << "@ + lsb + ");"@),
            line(level, "}"@),
        ]
    } else {
        seq![
            line(level, "let mask = "@ + decimal_text(mask_of(width) as nat) + " << "@ + lsb + ";"@),
            line(level, "self.0 = (self.0 & !mask) | ((value << "@ + lsb + ") & mask)"@),
        ]
    }
}

/// What the generated getter reads: the `width` bits of `storage` at `lsb`.
pub open spec fn field_get(storage: u64, lsb: u64, width: u32) -> u64 {
    (storage & (mask_of(width) << lsb)) >> lsb
}

/// What the generated setter leaves in `storage` after writing `value` to
/// the `width` bits at `lsb`.
pub open spec fn field_set(storage: u64, lsb: u64, width: u32, value: u64) -> u64 {
    (storage & !(mask_of(width) << lsb)) | ((value << lsb) & (mask_of(width) << lsb))
}

/// Writing a value that fits in a field and reading it back gives the
/// value, and the write leaves every bit outside the field as it was.
pub proof fn lemma_field_round_trip(storage: u64, lsb: u64, width: u32, value: u64)
    requires
        1 <= width <= 64,
        lsb + width <= 64,
        value <= mask_of(width),
    ensures
        field_get(field_set(storage, lsb, width, value), lsb, width) == value,
        (field_set(storage, lsb, width, value) ^ storage) & !(mask_of(width) << lsb) == 0,
{
    let m = mask_of(width);
    let w = width as u64;
    if width < 64 {
        assert(1u64 << width >= 1) by (bit_vector)
            requires
                width < 64,
        ;
        assert(m == (1u64 << width) - 1);
        assert((((storage & !(m << lsb)) | ((value << lsb) & (m << lsb))) & (m << lsb)) >> lsb == value)
            by (bit_vector)
            requires
                1 <= width < 64,
                w == width as u64,
                lsb + w <= 64,
                m == (1u64 << width) - 1,
                value <= m,
        ;
        assert((((storage & !(m << lsb)) | ((value << lsb) & (m << lsb))) ^ storage) & !(m << lsb) == 0)
            by (bit_vector);
    } else {
        assert(lsb == 0);
        assert((((storage & !(m << lsb)) | ((value << lsb) & (m << lsb))) & (m << lsb)) >> lsb == value)
            by (bit_vector)
            requires
                lsb == 0,
                m == 0xffff_ffff_ffff_ffffu64,
        ;
        assert((((storage & !(m << lsb)) | ((value << lsb) & (m << lsb))) ^ storage) & !(m << lsb) == 0)
            by (bit_vector);
    }
}

/// Number of bits of a field.
pub open spec fn field_width(f: FieldModel) -> int {
    f.bit_range.msb - f.bit_range.lsb + 1
}

/// The type of a field's value: `bool` for a flag, else the storage type.
pub open spec fn value_type(bool_field: bool, width: int, ty: Seq<char>) -> Seq<char> {
    if bool_field && width == 1 {
        "bool"@
    } else {
        ty
    }
}

/// Lines of texts `pre`, each at nesting depth `level`.
pub open spec fn lines_at(level: nat, pre: Seq<Seq<char>>) -> Seq<Seq<char>> {
    pre.map_values(|t: Seq<char>| line(level, t))
}

/// Lines of one accessor: its documentation, its header, the texts `pre`
/// and the bit access (a write where `setter`), one level deeper, and the
/// closing brace.
pub open spec fn accessor_lines(
    g: Style,
    level: nat,
    doc: Option<Seq<char>>,
    header: Seq<char>,
    pre: Seq<Seq<char>>,
    setter: bool,
    width: u32,
) -> Seq<Seq<char>> {
    doc_lines(g.with_doc, level, doc) + seq![line(level, header)] + lines_at(level + 1, pre) + (if setter {
        bits_set_lines(g.bool_field, level + 1, "lsb"@, width)
    } else {
        bits_get_lines(g.bool_field, level + 1, "lsb"@, width)
    }) + seq![line(level, "}"@)]
}

/// Lines of the getter and the setter of field `f` of a wrapper over `ty`,
/// each as the access mode permits.
pub open spec fn field_lines(g: Style, level: nat, f: FieldModel, ty: Seq<char>) -> Seq<
    Seq<char>,
> {
    let w = field_width(f) as u32;
    let t = value_type(g.bool_field, field_width(f), ty);
    let pre = seq!["let lsb = "@ + decimal_text(f.bit_range.lsb as nat) + ";"@];
    (if readable(f.access) {
        accessor_lines(g, level, f.description, "pub fn "@ + f.name + "(&self) -> "@ + t + " {"@, pre, false, w)
    } else {
        Seq::empty()
    }) + (if writable(f.access) {
        accessor_lines(
            g,
            level,
            f.description,
            "pub fn set_"@ + f.name + "(&mut self, value: "@ + t + ") {"@,
            pre,
            true,
            w,
        )
    } else {
        Seq::empty()
    })
}

/// The step of an indexed accessor: ` + index * s` for a stride `s` that is
/// not negative, else ` - index * |s|`.
pub open spec fn stride_text(stride: i64) -> Seq<char> {
    if stride >= 0 {
        " + index * "@ + decimal_text(stride as nat)
    } else {
        " - index * "@ + decimal_text((0 - stride) as nat)
    }
}

/// Lines of the indexed getter and setter of the field group `fg` of a
/// wrapper over `ty`; each checks its index against the group's size.
pub open spec fn group_lines(g: Style, level: nat, fg: FieldsGroupModel, ty: Seq<char>) -> Seq<
    Seq<char>,
> {
    let t = value_type(g.bool_field, fg.width as int, ty);
    let pre = seq![
        "assert!(index < "@ + decimal_text(fg.count as nat) + ");"@,
        "let lsb = "@ + decimal_text(fg.lsb as nat) + stride_text(fg.lsb_increment) + ";"@,
    ];
    (if readable(fg.access) {
        accessor_lines(
            g,
            level,
            fg.description,
            "pub fn "@ + fg.prefix + "(&self, index: usize) -> "@ + t + " {"@,
            pre,
            false,
            fg.width,
        )
    } else {
        Seq::empty()
    }) + (if writable(fg.access) {
        accessor_lines(
            g,
            level,
            fg.description,
            "pub fn set_"@ + fg.prefix + "(&mut self, index: usize, value: "@ + t + ") {"@,
            pre,
            true,
            fg.width,
        )
    } else {
        Seq::empty()
    })
}

/// The storage type of a register of `size` bits, where there is one.
pub open spec fn rust_type(size: u64) -> Option<Seq<char>> {
    if size == 8 {
        Some("u8"@)
    } else if size == 16 {
        Some("u16"@)
    } else if size == 32 {
        Some("u32"@)
    } else if size == 64 {
        Some("u64"@)
    } else {
        None
    }
}

/// Whether a register gets a wrapper type over its storage: it has more than
/// one field, or one field narrower or wider than the register.
pub open spec fn has_field(r: RegisterModel) -> bool {
    match r.fields {
        Some(fs) => fs.len() > 0 && (fs.len() > 1 || field_width(fs[0]) != r.size()),
        None => false,
    }
}

/// A field of a register whose access mode falls back to the register's.
pub open spec fn with_access(f: FieldModel, r: RegisterModel) -> FieldModel {
    FieldModel { access: first_some(f.access, r.register_properties.access), ..f }
}

/// A field group of a register whose access mode falls back to the register's.
pub open spec fn group_with_access(fg: FieldsGroupModel, r: RegisterModel) -> FieldsGroupModel {
    FieldsGroupModel { access: first_some(fg.access, r.register_properties.access), ..fg }
}

/// Lines of the accessors of fields `fs` of register `r`.
pub open spec fn fields_lines(g: Style, level: nat, r: RegisterModel, fs: Seq<FieldModel>, ty: Seq<char>) -> Seq<
    Seq<char>,
>
    decreases fs.len(),
{
    if fs.len() == 0 {
        Seq::empty()
    } else {
        fields_lines(g, level, r, fs.drop_last(), ty) + field_lines(g, level, with_access(fs.last(), r), ty)
    }
}

/// Lines of the accessors of field groups `gs` of register `r`.
pub open spec fn groups_lines(g: Style, level: nat, r: RegisterModel, gs: Seq<FieldsGroupModel>, ty: Seq<char>) -> Seq<
    Seq<char>,
>
    decreases gs.len(),
{
    if gs.len() == 0 {
        Seq::empty()
    } else {
        groups_lines(g, level, r, gs.drop_last(), ty) + group_lines(g, level, group_with_access(gs.last(), r), ty)
    }
}

/// Whether every field of `fs` has a width the code can express.
pub open spec fn fields_ok(fs: Seq<FieldModel>) -> bool {
    forall|i: int| 0 <= i < fs.len() ==> width_ok(field_width(#[trigger] fs[i]))
}

/// Whether every group of `gs` has a width the code can express.
pub open spec fn groups_ok(gs: Seq<FieldsGroupModel>) -> bool {
    forall|i: int| 0 <= i < gs.len() ==> width_ok((#[trigger] gs[i]).width as int)
}

/// Lines of the accessors inside the wrapper of register `r` over `ty`:
/// field groups then ungrouped fields where fields are grouped, else every
/// field.
#[verifier::opaque]
pub open spec fn wrapper_items(g: Style, level: nat, r: RegisterModel, ty: Seq<char>) -> Seq<
    Seq<char>,
> {
    let fs = r.fields->Some_0;
    if g.group_fields {
        groups_lines(g, level, r, groups_upto(fs, fs.len() as int), ty) + fields_lines(
            g,
            level,
            r,
            ungrouped(fs),
            ty,
        )
    } else {
        fields_lines(g, level, r, fs, ty)
    }
}

/// Whether the accessors inside the wrapper of register `r` can be written.
#[verifier::opaque]
pub open spec fn wrapper_ok(g: Style, r: RegisterModel) -> bool {
    let fs = r.fields->Some_0;
    if g.group_fields {
        groups_ok(groups_upto(fs, fs.len() as int)) && fields_ok(ungrouped(fs))
    } else {
        fields_ok(fs)
    }
}

/// Whether the storage and field accessors of register `r` can be written.
pub open spec fn register_type_ok(g: Style, r: RegisterModel) -> bool {
    rust_type(r.size()) is Some && (g.with_field && has_field(r) ==> wrapper_ok(g, r))
}

/// The type through which register `r` is accessed: its wrapper, else its
/// storage type.
pub open spec fn register_type(g: Style, r: RegisterModel) -> Seq<char> {
    if g.with_field && has_field(r) {
        r.name
    } else {
        rust_type(r.size())->Some_0
    }
}

/// Lines of the wrapper type of register `r` over storage type `ty`, where
/// it has one.
pub open spec fn wrapper_lines(g: Style, level: nat, r: RegisterModel) -> Seq<Seq<char>> {
    let ty = rust_type(r.size())->Some_0;
    if g.with_field && has_field(r) {
        doc_lines(g.with_doc, level, r.description) + lines_at(
            level,
            seq![
                "pub struct "@ + r.name + "(pub "@ + ty + ");"@,
                "impl From<"@ + ty + "> for "@ + r.name + " {"@,
                "    fn from(value: "@ + ty + ") -> "@ + r.name + " {"@,
                "        "@ + r.name + "(value)"@,
                "    }"@,
                "}"@,
                "impl "@ + r.name + " {"@,
            ],
        ) + wrapper_items(g, level + 1, r, ty) + seq![line(level, "}"@)]
    } else {
        Seq::empty()
    }
}

/// The mask of a field of `width` bits.
fn mask_value(width: u32) -> (r: u64)
    requires
        width_ok(width as int),
    ensures
        r == mask_of(width),
{
    if width >= 64 {
        u64::MAX
    } else {
        assert(1u64 << width >= 1) by (bit_vector)
            requires
                width < 64,
        ;
        (1u64 << width) - 1
    }
}

impl CodeGenerator {
    pub fn new() -> (r: CodeGenerator)
        ensures
            r.indentation_level == 0,
            r.out@.len() == 0,
            r.with_field && r.group_fields && r.bool_field && r.group_peripherals && r.with_doc,
    {
        CodeGenerator {
            indentation_level: 0,
            out: Vec::new(),
            with_field: true,
            group_fields: true,
            bool_field: true,
            group_peripherals: true,
            with_doc: true,
        }
    }

    /// If true, generates structs to access the fields of the registers.
    pub fn with_field(self, with_field: bool) -> (r: CodeGenerator)
        ensures
            r == (CodeGenerator { with_field, ..self }),
    {
        CodeGenerator { with_field, ..self }
    }

    /// If true, some fields are grouped and can be accessed with an index.
    pub fn group_fields(self, group_fields: bool) -> (r: CodeGenerator)
        ensures
            r == (CodeGenerator { group_fields, ..self }),
    {
        CodeGenerator { group_fields, ..self }
    }

    /// If true, use `bool` for single bit fields.
    pub fn bool_field(self, bool_field: bool) -> (r: CodeGenerator)
        ensures
            r == (CodeGenerator { bool_field, ..self }),
    {
        CodeGenerator { bool_field, ..self }
    }

    /// If true, some peripherals are grouped together and share a common `struct`.
    pub fn group_peripherals(self, group_peripherals: bool) -> (r: CodeGenerator)
        ensures
            r == (CodeGenerator { group_peripherals, ..self }),
    {
        CodeGenerator { group_peripherals, ..self }
    }

    /// If true, add doc comments with content from the description fields.
    pub fn with_doc(self, with_doc: bool) -> (r: CodeGenerator)
        ensures
            r == (CodeGenerator { with_doc, ..self }),
    {
        CodeGenerator { with_doc, ..self }
    }

    /// An empty generator with the options and nesting depth of this one.
    fn scratch(&self) -> (r: CodeGenerator)
        ensures
            r == (CodeGenerator { out: r.out, ..*self }),
            r.out.deep_view() == Seq::<Seq<char>>::empty(),
    {
        let r = CodeGenerator {
            indentation_level: self.indentation_level,
            out: Vec::new(),
            with_field: self.with_field,
            group_fields: self.group_fields,
            bool_field: self.bool_field,
            group_peripherals: self.group_peripherals,
            with_doc: self.with_doc,
        };
        assert(r.out.deep_view() =~= Seq::<Seq<char>>::empty());
        r
    }

    /// Appends the lines written to `part`.
    fn take_lines(&mut self, part: CodeGenerator)
        ensures
            final(self).out.deep_view() == old(self).out.deep_view() + part.out.deep_view(),
            *final(self) == (CodeGenerator { out: final(self).out, ..*old(self) }),
    {
        let mut lines = part.out;
        let ghost before = self.out.deep_view();
        let ghost added = lines.deep_view();
        self.out.append(&mut lines);
        assert(self.out.deep_view() =~= before + added);
    }

    /// The lines generated so far.
    pub fn lines(&self) -> (r: &Vec<String>)
        ensures
            r == &self.out,
    {
        &self.out
    }

    /// The indentation of the current nesting depth.
    fn write_indentation(&self) -> (r: String)
        ensures
            r@ == indentation(self.indentation_level as nat),
    {
        let mut s = String::new();
        let mut i: u32 = 0;
        while i < self.indentation_level
            invariant
                i <= self.indentation_level,
                s@ == indentation(i as nat),
            decreases self.indentation_level - i,
        {
            s.append("    ");
            i = i + 1;
        }
        s
    }

    /// Writes `t` as a line at the current nesting depth.
    fn write_line(&mut self, t: &str)
        ensures
            final(self).out.deep_view() == old(self).out.deep_view().push(
                line(old(self).indentation_level as nat, t@),
            ),
            *final(self) == (CodeGenerator { out: final(self).out, ..*old(self) }),
    {
        let mut s = self.write_indentation();
        s.append(t);
        let ghost before = self.out.deep_view();
        self.out.push(s);
        assert(self.out.deep_view() =~= before.push(line(self.indentation_level as nat, t@)));
    }

    fn indent(&mut self)
        requires
            old(self).indentation_level < u32::MAX,
        ensures
            *final(self) == (CodeGenerator {
                indentation_level: (old(self).indentation_level + 1) as u32,
                ..*old(self)
            }),
    {
        self.indentation_level = self.indentation_level + 1;
    }

    fn deindent(&mut self)
        ensures
            *final(self) == (CodeGenerator {
                indentation_level: if old(self).indentation_level > 0 {
                    (old(self).indentation_level - 1) as u32
                } else {
                    0
                },
                ..*old(self)
            }),
    {
        if self.indentation_level > 0 {
            self.indentation_level = self.indentation_level - 1;
        }
    }

    pub fn generate_doc(&mut self, doc: &Option<String>)
        ensures
            final(self).out.deep_view() == old(self).out.deep_view() + doc_lines(
                old(self).with_doc,
                old(self).indentation_level as nat,
                doc.deep_view(),
            ),
            *final(self) == (CodeGenerator { out: final(self).out, ..*old(self) }),
    {
        let ghost before = self.out.deep_view();
        if self.with_doc {
            if let Some(d) = doc {
                let mut t = String::from_str("#[doc = \"");
                t.append(d.as_str());
                t.append("\"]");
                self.write_line(t.as_str());
                assert(self.out.deep_view() =~= before + doc_lines(
                    self.with_doc,
                    self.indentation_level as nat,
                    doc.deep_view(),
                ));
                return;
            }
        }
        assert(self.out.deep_view() =~= before + doc_lines(
            self.with_doc,
            self.indentation_level as nat,
            doc.deep_view(),
        ));
    }

    pub fn generate_bits_get(&mut self, lsb: &str, field_width: u32) -> (r: Result<(), CodegenError>)
        ensures
            r is Ok == width_ok(field_width as int),
            r is Ok ==> final(self).out.deep_view() == old(self).out.deep_view() + bits_get_lines(
                old(self).bool_field,
                old(self).indentation_level as nat,
                lsb@,
                field_width,
            ),
            *final(self) == (CodeGenerator { out: final(self).out, ..*old(self) }),
            r is Err ==> final(self).out.deep_view() == old(self).out.deep_view(),
    {
        if !(1 <= field_width && field_width <= 64) {
            return Err(CodegenError::UnsupportedFeature);
        }
        let ghost before = self.out.deep_view();
        let ghost level = self.indentation_level as nat;
        if self.bool_field && field_width == 1 {
            let mut t = String::from_str("(self.0 & (1 << ");
            t.append(lsb);
            t.append(")) != 0");
            self.write_line(t.as_str());
        } else {
            let mask = mask_value(field_width);
            let mut t = String::from_str("let mask = ");
            t.append(decimal_string(mask).as_str());
            t.append(" << ");
            t.append(lsb);
            t.append(";");
            self.write_line(t.as_str());
            let mut t2 = String::from_str("(self.0 & mask) >> ");
            t2.append(lsb);
            self.write_line(t2.as_str());
        }
        assert(self.out.deep_view() =~= before + bits_get_lines(self.bool_field, level, lsb@, field_width));
        Ok(())
    }

    pub fn generate_bits_set(&mut self, lsb: &str, field_width: u32) -> (r: Result<(), CodegenError>)
        ensures
            r is Ok == width_ok(field_width as int),
            r is Ok ==> final(self).out.deep_view() == old(self).out.deep_view() + bits_set_lines(
                old(self).bool_field,
                old(self).indentation_level as nat,
                lsb@,
                field_width,
            ),
            *final(self) == (CodeGenerator { out: final(self).out, ..*old(self) }),
            r is Err ==> final(self).out.deep_view() == old(self).out.deep_view(),
    {
        if !(1 <= field_width && field_width <= 64) {
            return Err(CodegenError::UnsupportedFeature);
        }
        let ghost before = self.out.deep_view();
        let ghost level = self.indentation_level as nat;
        if self.bool_field && field_width == 1 {
            self.write_line("if value {");
            let mut t = String::from_str("    self.0 |= 1 << ");
            t.append(lsb);
            t.append(";");
            self.write_line(t.as_str());
            self.write_line("} else {");
            let mut t2 = String::from_str("    self.0 &= !(1 << ");
            t2.append(lsb);
            t2.append(");");
            self.write_line(t2.as_str());
            self.write_line("}");
        } else {
            let mask = mask_value(field_width);
            let mut t = String::from_str("let mask = ");
            t.append(decimal_string(mask).as_str());
            t.append(" << ");
            t.append(lsb);
            t.append(";");
            self.write_line(t.as_str());
            let mut t2 = String::from_str("self.0 = (self.0 & !mask) | ((value << ");
            t2.append(lsb);
            t2.append(") & mask)");
            self.write_line(t2.as_str());
        }
        assert(self.out.deep_view() =~= before + bits_set_lines(self.bool_field, level, lsb@, field_width));
        Ok(())
    }
}

impl CodeGenerator {
    /// Writes one accessor: see [`accessor_lines`].
    #[verifier::rlimit(80)]
    fn emit_accessor(
        &mut self,
        doc: &Option<String>,
        header: &str,
        pre: &Vec<String>,
        setter: bool,
        width: u32,
    )
        requires
            has_room(*old(self), 1),
            width_ok(width as int),
        ensures
            final(self).out.deep_view() == old(self).out.deep_view() + accessor_lines(
                style(*old(self)),
                old(self).indentation_level as nat,
                doc.deep_view(),
                header@,
                pre.deep_view(),
                setter,
                width,
            ),
            *final(self) == (CodeGenerator { out: final(self).out, ..*old(self) }),
    {
        let ghost start = *self;
        let ghost level = self.indentation_level as nat;
        let ghost before = self.out.deep_view();
        self.generate_doc(doc);
        self.write_line(header);
        self.indent();
        let ghost b2 = self.out.deep_view();
        let mut i: usize = 0;
        while i < pre.len()
            invariant
                i <= pre.len(),
                self.indentation_level == level + 1,
                *self == (CodeGenerator { out: self.out, indentation_level: self.indentation_level, ..start }),
                self.out.deep_view() == b2 + lines_at(level + 1, pre.deep_view().subrange(0, i as int)),
            decreases pre.len() - i,
        {
            self.write_line(pre[i].as_str());
            i = i + 1;
            assert(self.out.deep_view() =~= b2 + lines_at(level + 1, pre.deep_view().subrange(0, i as int)));
        }
        assert(pre.deep_view().subrange(0, i as int) =~= pre.deep_view());
        if setter {
            let _ = self.generate_bits_set("lsb", width);
        } else {
            let _ = self.generate_bits_get("lsb", width);
        }
        self.deindent();
        self.write_line("}");
        assert(self.out.deep_view() =~= before + accessor_lines(style(start),
            level,
            doc.deep_view(),
            header@,
            pre.deep_view(),
            setter,
            width,
        ));
    }

    #[verifier::rlimit(80)]
    pub fn generate_field(&mut self, f: &Field, ty: &str) -> (r: Result<(), CodegenError>)
        requires
            has_room(*old(self), 1),
        ensures
            r is Ok == width_ok(field_width(f.deep_view())),
            r is Ok ==> final(self).out.deep_view() == old(self).out.deep_view() + field_lines(
                style(*old(self)),
                old(self).indentation_level as nat,
                f.deep_view(),
                ty@,
            ),
            *final(self) == (CodeGenerator { out: final(self).out, ..*old(self) }),
            r is Err ==> final(self).out.deep_view() == old(self).out.deep_view(),
    {
        let msb = f.bit_range.msb;
        let lsb = f.bit_range.lsb;
        if msb < lsb || msb - lsb >= 64 {
            return Err(CodegenError::UnsupportedFeature);
        }
        let width = msb - lsb + 1;
        let ghost start = *self;
        let ghost level = self.indentation_level as nat;
        let ghost before = self.out.deep_view();
        let t = if self.bool_field && width == 1 {
            "bool"
        } else {
            ty
        };
        let mut lsb_text = String::from_str("let lsb = ");
        lsb_text.append(decimal_string(lsb as u64).as_str());
        lsb_text.append(";");
        let mut pre: Vec<String> = Vec::new();
        pre.push(lsb_text);
        assert(pre.deep_view() =~= seq!["let lsb = "@ + decimal_text(f.deep_view().bit_range.lsb as nat) + ";"@]);
        if f.is_read() {
            let mut h = String::from_str("pub fn ");
            h.append(f.name.as_str());
            h.append("(&self) -> ");
            h.append(t);
            h.append(" {");
            self.emit_accessor(&f.description, h.as_str(), &pre, false, width);
        }
        let ghost mid = self.out.deep_view();
        if f.is_write() {
            let mut h = String::from_str("pub fn set_");
            h.append(f.name.as_str());
            h.append("(&mut self, value: ");
            h.append(t);
            h.append(") {");
            self.emit_accessor(&f.description, h.as_str(), &pre, true, width);
        }
        assert(self.out.deep_view() =~= before + field_lines(style(start), level, f.deep_view(), ty@));
        Ok(())
    }

    #[verifier::rlimit(80)]
    pub fn generate_fields_group(&mut self, g: &FieldsGroup, ty: &str) -> (r: Result<(), CodegenError>)
        requires
            has_room(*old(self), 1),
        ensures
            r is Ok == width_ok(g.width as int),
            r is Ok ==> final(self).out.deep_view() == old(self).out.deep_view() + group_lines(
                style(*old(self)),
                old(self).indentation_level as nat,
                g.deep_view(),
                ty@,
            ),
            *final(self) == (CodeGenerator { out: final(self).out, ..*old(self) }),
            r is Err ==> final(self).out.deep_view() == old(self).out.deep_view(),
    {
        if !(1 <= g.width && g.width <= 64) {
            return Err(CodegenError::UnsupportedFeature);
        }
        let ghost start = *self;
        let ghost level = self.indentation_level as nat;
        let ghost before = self.out.deep_view();
        let t = if self.bool_field && g.width == 1 {
            "bool"
        } else {
            ty
        };
        let mut check = String::from_str("assert!(index < ");
        check.append(decimal_string(g.count as u64).as_str());
        check.append(");");
        let mut lsb_text = String::from_str("let lsb = ");
        lsb_text.append(decimal_string(g.lsb as u64).as_str());
        if g.lsb_increment >= 0 {
            lsb_text.append(" + index * ");
            lsb_text.append(decimal_string(g.lsb_increment as u64).as_str());
        } else {
            lsb_text.append(" - index * ");
            lsb_text.append(decimal_string((0 - (g.lsb_increment as i128)) as u64).as_str());
        }
        lsb_text.append(";");
        assert(lsb_text@ =~= "let lsb = "@ + decimal_text(g.lsb as nat) + stride_text(g.lsb_increment) + ";"@);
        let mut pre: Vec<String> = Vec::new();
        pre.push(check);
        pre.push(lsb_text);
        assert(pre.deep_view() =~= seq![
            "assert!(index < "@ + decimal_text(g.count as nat) + ");"@,
            "let lsb = "@ + decimal_text(g.lsb as nat) + stride_text(g.lsb_increment) + ";"@,
        ]);
        if g.is_read() {
            let mut h = String::from_str("pub fn ");
            h.append(g.prefix.as_str());
            h.append("(&self, index: usize) -> ");
            h.append(t);
            h.append(" {");
            self.emit_accessor(&g.description, h.as_str(), &pre, false, g.width);
        }
        if g.is_write() {
            let mut h = String::from_str("pub fn set_");
            h.append(g.prefix.as_str());
            h.append("(&mut self, index: usize, value: ");
            h.append(t);
            h.append(") {");
            self.emit_accessor(&g.description, h.as_str(), &pre, true, g.width);
        }
        assert(self.out.deep_view() =~= before + group_lines(style(start), level, g.deep_view(), ty@));
        Ok(())
    }
}

/// The storage type of a register of `size` bits.
pub fn size_to_rust_type(size: u64) -> (r: Result<&'static str, CodegenError>)
    ensures
        match rust_type(size) {
            Some(t) => r is Ok && r->Ok_0@ == t,
            None => r is Err,
        },
{
    if size == 8 {
        Ok("u8")
    } else if size == 16 {
        Ok("u16")
    } else if size == 32 {
        Ok("u32")
    } else if size == 64 {
        Ok("u64")
    } else {
        Err(CodegenError::UnsupportedFeature)
    }
}

/// `a` followed by `b`.
fn cat2(a: &str, b: &str) -> (r: String)
    ensures
        r@ == a@ + b@,
{
    let mut s = String::from_str(a);
    s.append(b);
    s
}

/// `a`, `b`, `c` in a row.
fn cat3(a: &str, b: &str, c: &str) -> (r: String)
    ensures
        r@ == a@ + b@ + c@,
{
    let mut s = String::from_str(a);
    s.append(b);
    s.append(c);
    s
}

/// `a`, `b`, `c`, `d`, `e` in a row.
fn cat5(a: &str, b: &str, c: &str, d: &str, e: &str) -> (r: String)
    ensures
        r@ == a@ + b@ + c@ + d@ + e@,
{
    let mut s = String::from_str(a);
    s.append(b);
    s.append(c);
    s.append(d);
    s.append(e);
    s
}

impl CodeGenerator {
    /// Writes each of `texts` as a line at the current nesting depth.
    fn emit_texts(&mut self, texts: &Vec<String>)
        ensures
            final(self).out.deep_view() == old(self).out.deep_view() + lines_at(
                old(self).indentation_level as nat,
                texts.deep_view(),
            ),
            *final(self) == (CodeGenerator { out: final(self).out, ..*old(self) }),
    {
        let ghost start = *self;
        let ghost before = self.out.deep_view();
        let ghost level = self.indentation_level as nat;
        let mut i: usize = 0;
        while i < texts.len()
            invariant
                i <= texts.len(),
                start == *old(self),
                level == start.indentation_level as nat,
                *self == (CodeGenerator { out: self.out, ..start }),
                self.out.deep_view() == before + lines_at(level, texts.deep_view().subrange(0, i as int)),
            decreases texts.len() - i,
        {
            let ghost b1 = self.out.deep_view();
            assert(self.indentation_level == start.indentation_level);
            self.write_line(texts[i].as_str());
            assert(self.out.deep_view() == b1.push(line(level, texts@[i as int]@)));
            assert(texts.deep_view()[i as int] == texts@[i as int]@);
            assert(texts.deep_view().subrange(0, i + 1) =~= texts.deep_view().subrange(0, i as int).push(texts@[i as int]@));
            assert(lines_at(level, texts.deep_view().subrange(0, i + 1)) =~= lines_at(level, texts.deep_view().subrange(0, i as int)).push(line(level, texts@[i as int]@)));
            i = i + 1;
            assert(self.out.deep_view() =~= before + lines_at(level, texts.deep_view().subrange(0, i as int)));
        }
        assert(texts.deep_view().subrange(0, i as int) =~= texts.deep_view());
    }

    /// Writes the accessors of fields `fs` of register `r`.
    fn emit_fields(&mut self, r: &Register, fs: &Vec<Field>, ty: &str) -> (res: Result<(), CodegenError>)
        requires
            has_room(*old(self), 1),
        ensures
            res is Ok == fields_ok(fs.deep_view()),
            res is Ok ==> final(self).out.deep_view() == old(self).out.deep_view() + fields_lines(
                style(*old(self)),
                old(self).indentation_level as nat,
                r.deep_view(),
                fs.deep_view(),
                ty@,
            ),
            *final(self) == (CodeGenerator { out: final(self).out, ..*old(self) }),
    {
        let ghost start = *self;
        let ghost before = self.out.deep_view();
        let ghost level = self.indentation_level as nat;
        let ghost s = fs.deep_view();
        let mut i: usize = 0;
        assert(s.subrange(0, 0) =~= Seq::<FieldModel>::empty());
        while i < fs.len()
            invariant
                i <= fs.len(),
                s == fs.deep_view(),
                has_room(start, 1),
                start == *old(self),
                level == start.indentation_level as nat,
                *self == (CodeGenerator { out: self.out, ..start }),
                fields_ok(s.subrange(0, i as int)),
                self.out.deep_view() == before + fields_lines(style(start), level, r.deep_view(), s.subrange(0, i as int), ty@),
            decreases fs.len() - i,
        {
            let mut f = fs[i].duplicate();
            f.access = first_present(f.access, r.register_properties.access);
            assert(f.deep_view() == with_access(s[i as int], r.deep_view()));
            let ghost b2 = self.out.deep_view();
            match self.generate_field(&f, ty) {
                Ok(()) => {},
                Err(e) => {
                    assert(!width_ok(field_width(s[i as int])));
                    assert(*self == (CodeGenerator { out: self.out, ..start }));
                    return Err(e);
                },
            }
            assert(s.subrange(0, i + 1).drop_last() =~= s.subrange(0, i as int));
            assert(s.subrange(0, i + 1).last() == s[i as int]);
            assert(fields_ok(s.subrange(0, i + 1)));
            assert(self.out.deep_view() =~= before + fields_lines(style(start), level, r.deep_view(), s.subrange(0, i + 1), ty@));
            i = i + 1;
        }
        assert(s.subrange(0, i as int) =~= s);
        Ok(())
    }

    /// Writes the accessors of field groups `gs` of register `r`.
    fn emit_groups(&mut self, r: &Register, gs: &Vec<FieldsGroup>, ty: &str) -> (res: Result<(), CodegenError>)
        requires
            has_room(*old(self), 1),
        ensures
            res is Ok == groups_ok(gs.deep_view()),
            res is Ok ==> final(self).out.deep_view() == old(self).out.deep_view() + groups_lines(
                style(*old(self)),
                old(self).indentation_level as nat,
                r.deep_view(),
                gs.deep_view(),
                ty@,
            ),
            *final(self) == (CodeGenerator { out: final(self).out, ..*old(self) }),
    {
        let ghost start = *self;
        let ghost before = self.out.deep_view();
        let ghost level = self.indentation_level as nat;
        let ghost s = gs.deep_view();
        let mut i: usize = 0;
        assert(s.subrange(0, 0) =~= Seq::<FieldsGroupModel>::empty());
        while i < gs.len()
            invariant
                i <= gs.len(),
                s == gs.deep_view(),
                has_room(start, 1),
                start == *old(self),
                level == start.indentation_level as nat,
                *self == (CodeGenerator { out: self.out, ..start }),
                groups_ok(s.subrange(0, i as int)),
                self.out.deep_view() == before + groups_lines(style(start), level, r.deep_view(), s.subrange(0, i as int), ty@),
            decreases gs.len() - i,
        {
            let g = &gs[i];
            let fg = FieldsGroup {
                prefix: g.prefix.clone(),
                lsb: g.lsb,
                width: g.width,
                count: g.count,
                lsb_increment: g.lsb_increment,
                description: crate::utils::copy_text(&g.description),
                access: first_present(g.access, r.register_properties.access),
            };
            assert(fg.deep_view() == group_with_access(s[i as int], r.deep_view()));
            match self.generate_fields_group(&fg, ty) {
                Ok(()) => {},
                Err(e) => {
                    assert(!width_ok(s[i as int].width as int));
                    assert(*self == (CodeGenerator { out: self.out, ..start }));
                    return Err(e);
                },
            }
            assert(s.subrange(0, i + 1).drop_last() =~= s.subrange(0, i as int));
            assert(s.subrange(0, i + 1).last() == s[i as int]);
            assert(groups_ok(s.subrange(0, i + 1)));
            assert(self.out.deep_view() =~= before + groups_lines(style(start), level, r.deep_view(), s.subrange(0, i + 1), ty@));
            i = i + 1;
        }
        assert(s.subrange(0, i as int) =~= s);
        Ok(())
    }
}

/// Whether register `r` gets a wrapper type over its storage.
fn register_has_field(r: &Register) -> (res: bool)
    requires
        rust_type(r.deep_view().size()) is Some,
    ensures
        res == has_field(r.deep_view()),
{
    match &r.fields {
        Some(fs) => {
            if fs.len() == 0 {
                false
            } else if fs.len() > 1 {
                true
            } else {
                let b = fs[0].bit_range;
                b.msb < b.lsb || (b.msb as u64) - (b.lsb as u64) + 1 != r.size()
            }
        },
        None => false,
    }
}

/// The first lines of the wrapper type `name` over storage type `ty`.
pub open spec fn wrapper_head(name: Seq<char>, ty: Seq<char>) -> Seq<Seq<char>> {
    seq![
        "pub struct "@ + name + "(pub "@ + ty + ");"@,
        "impl From<"@ + ty + "> for "@ + name + " {"@,
        "    fn from(value: "@ + ty + ") -> "@ + name + " {"@,
        "        "@ + name + "(value)"@,
        "    }"@,
        "}"@,
        "impl "@ + name + " {"@,
    ]
}

fn wrapper_head_texts(name: &str, ty: &str) -> (r: Vec<String>)
    ensures
        r.deep_view() == wrapper_head(name@, ty@),
{
    let mut texts: Vec<String> = Vec::new();
    texts.push(cat5("pub struct ", name, "(pub ", ty, ");"));
    texts.push(cat5("impl From<", ty, "> for ", name, " {"));
    texts.push(cat5("    fn from(value: ", ty, ") -> ", name, " {"));
    texts.push(cat3("        ", name, "(value)"));
    texts.push(String::from_str("    }"));
    texts.push(String::from_str("}"));
    texts.push(cat3("impl ", name, " {"));
    assert(texts.deep_view() =~= wrapper_head(name@, ty@));
    texts
}

impl CodeGenerator {
    /// Writes the accessors inside the wrapper of register `r`.
    fn emit_wrapper_items(&mut self, r: &Register, fs: &Vec<Field>, ty: &str) -> (res: Result<(), CodegenError>)
        requires
            has_room(*old(self), 1),
            r.deep_view().fields == Some(fs.deep_view()),
        ensures
            res is Ok == wrapper_ok(style(*old(self)), r.deep_view()),
            res is Ok ==> final(self).out.deep_view() == old(self).out.deep_view() + wrapper_items(
                style(*old(self)),
                old(self).indentation_level as nat,
                r.deep_view(),
                ty@,
            ),
            *final(self) == (CodeGenerator { out: final(self).out, ..*old(self) }),
    {
        let ghost before = self.out.deep_view();
        proof {
            reveal(wrapper_items);
            reveal(wrapper_ok);
        }
        if self.group_fields {
            let (groups, individuals) = FieldsGroup::from_fields(fs);
            match self.emit_groups(r, &groups, ty) {
                Ok(()) => {},
                Err(e) => {
                    return Err(e);
                },
            }
            let r2 = self.emit_fields(r, &individuals, ty);
            assert(r2 is Ok ==> self.out.deep_view() =~= before + wrapper_items(
                style(*old(self)),
                old(self).indentation_level as nat,
                r.deep_view(),
                ty@,
            ));
            r2
        } else {
            self.emit_fields(r, fs, ty)
        }
    }

    /// Writes the wrapper type of register `r`, where it gets one, and
    /// returns the type through which the register is accessed.
    pub fn generate_fields(&mut self, r: &Register) -> (res: Result<String, CodegenError>)
        requires
            has_room(*old(self), 2),
        ensures
            res is Ok == register_type_ok(style(*old(self)), r.deep_view()),
            res is Ok ==> res->Ok_0@ == register_type(style(*old(self)), r.deep_view())
                && final(self).out.deep_view() == old(self).out.deep_view() + wrapper_lines(
                style(*old(self)),
                old(self).indentation_level as nat,
                r.deep_view(),
            ),
            *final(self) == (CodeGenerator { out: final(self).out, ..*old(self) }),
            res is Err ==> final(self).out.deep_view() == old(self).out.deep_view(),
    {
        let mut part = self.scratch();
        let res = part.write_fields(r);
        if res.is_ok() {
            self.take_lines(part);
        }
        res
    }

    #[verifier::rlimit(80)]
    fn write_fields(&mut self, r: &Register) -> (res: Result<String, CodegenError>)
        requires
            has_room(*old(self), 2),
        ensures
            res is Ok == register_type_ok(style(*old(self)), r.deep_view()),
            res is Ok ==> res->Ok_0@ == register_type(style(*old(self)), r.deep_view())
                && final(self).out.deep_view() == old(self).out.deep_view() + wrapper_lines(
                style(*old(self)),
                old(self).indentation_level as nat,
                r.deep_view(),
            ),
            *final(self) == (CodeGenerator { out: final(self).out, ..*old(self) }),
    {
        let ghost start = *self;
        let ghost before = self.out.deep_view();
        let ghost level = self.indentation_level as nat;
        let ghost rm = r.deep_view();
        let ty = size_to_rust_type(r.size())?;
        if !(self.with_field && register_has_field(r)) {
            assert(self.out.deep_view() =~= before + wrapper_lines(style(start), level, rm));
            return Ok(String::from_str(ty));
        }
        let fs = match &r.fields {
            Some(fs) => fs,
            None => {
                return Err(CodegenError::UnsupportedFeature);
            },
        };
        let name = r.name.as_str();
        self.generate_doc(&r.description);
        let ghost b1 = self.out.deep_view();
        let texts = wrapper_head_texts(name, ty);
        self.emit_texts(&texts);
        let ghost b2 = self.out.deep_view();
        self.indent();
        let items = self.emit_wrapper_items(r, fs, ty);
        self.deindent();
        if items.is_err() {
            return Err(CodegenError::UnsupportedFeature);
        }
        let ghost b3 = self.out.deep_view();
        self.write_line("}");
        proof {
            let ty_v = rust_type(rm.size())->Some_0;
            assert(b1 == before + doc_lines(start.with_doc, level, rm.description));
            assert(b2 == b1 + lines_at(level, wrapper_head(rm.name, ty_v)));
            assert(b3 == b2 + wrapper_items(style(start), level + 1, rm, ty_v));
            assert(self.out.deep_view() =~= before + wrapper_lines(style(start), level, rm));
        }
        Ok(r.name.clone())
    }
}

/// Lines of a volatile read accessor.
pub open spec fn read_block(name: Seq<char>, args: Seq<char>, ty: Seq<char>, loc: Seq<char>, star: Seq<char>) -> Seq<
    Seq<char>,
> {
    seq![
        "pub unsafe fn read_"@ + name + args + " -> "@ + ty + " {"@,
        "    let ptr = "@ + loc + " as "@ + star + "const "@ + ty + ";"@,
        "    core::ptr::read_volatile(ptr)"@,
        "}"@,
    ]
}

/// Lines of a volatile write accessor.
pub open spec fn write_block(name: Seq<char>, recv: Seq<char>, ty: Seq<char>, loc: Seq<char>, star: Seq<char>) -> Seq<
    Seq<char>,
> {
    seq![
        "pub unsafe fn write_"@ + name + "<T: Into<"@ + ty + ">>("@ + recv + "value: T) {"@,
        "    let ptr = "@ + loc + " as "@ + star + "mut "@ + ty + ";"@,
        "    core::ptr::write_volatile(ptr, value.into())"@,
        "}"@,
    ]
}

/// Lines of a pointer accessor.
pub open spec fn ptr_block(name: Seq<char>, args: Seq<char>, c: Seq<char>, ty: Seq<char>, loc: Seq<char>) -> Seq<
    Seq<char>,
> {
    seq![
        "pub fn "@ + name + "_ptr"@ + args + " -> *"@ + c + " "@ + ty + " {"@,
        "    "@ + loc + " as *"@ + c + " "@ + ty,
        "}"@,
    ]
}

/// Where the pointer accessor of a register points: `mut` where it can be
/// written, else `const`.
pub open spec fn ptr_kind(r: RegisterModel) -> Seq<char> {
    if writable(r.register_properties.access) {
        "mut"@
    } else {
        "const"@
    }
}

/// Lines of the accessors of register `r` through type `ty`: a read where
/// the access mode permits it, a write where it permits it, and a pointer.
pub open spec fn access_lines(
    g: Style,
    level: nat,
    r: RegisterModel,
    read: Seq<Seq<char>>,
    write: Seq<Seq<char>>,
    ptr: Seq<Seq<char>>,
) -> Seq<Seq<char>> {
    let doc = doc_lines(g.with_doc, level, r.description);
    (if readable(r.register_properties.access) {
        doc + lines_at(level, read)
    } else {
        Seq::empty()
    }) + (if writable(r.register_properties.access) {
        doc + lines_at(level, write)
    } else {
        Seq::empty()
    }) + doc + lines_at(level, ptr)
}

/// Lines of register `r` of a peripheral at `base`: its wrapper type, then
/// accessors at the absolute address.
pub open spec fn register_lines(g: Style, level: nat, r: RegisterModel, base: u64) -> Seq<Seq<char>> {
    let ty = register_type(g, r);
    let loc = "0x"@ + hex_text((base + r.address_offset.0) as nat);
    wrapper_lines(g, level, r) + access_lines(
        g,
        level,
        r,
        read_block(r.name, "()"@, ty, loc, "*"@),
        write_block(r.name, ""@, ty, loc, "*"@),
        ptr_block(r.name, "()"@, ptr_kind(r), ty, loc),
    )
}

/// Whether register `r` of a peripheral at `base` can be written.
pub open spec fn register_ok(g: Style, r: RegisterModel, base: u64) -> bool {
    register_type_ok(g, r) && base + r.address_offset.0 <= u64::MAX
}

/// Lines of register `r` in the handle type `handle` of a peripheral group:
/// its wrapper type, then accessors at the handle's base address plus the
/// register's offset.
pub open spec fn group_register_lines(g: Style, level: nat, r: RegisterModel, handle: Seq<char>) -> Seq<
    Seq<char>,
> {
    let ty = register_type(g, r);
    let off = r.address_offset.0 as nat;
    wrapper_lines(g, level, r) + seq![line(level, "impl "@ + handle + " {"@)] + access_lines(
        g,
        level + 1,
        r,
        read_block(r.name, "(&self)"@, ty, "(self.base_address + "@ + decimal_text(off) + ")"@, "* "@),
        write_block(r.name, "&self, "@, ty, "(self.base_address + "@ + decimal_text(off) + ")"@, "* "@),
        ptr_block(r.name, "(&self)"@, ptr_kind(r), ty, "(self.base_address + 0x"@ + hex_text(off) + ")"@),
    ) + seq![line(level, "}"@)]
}

/// Lower-case hexadecimal text of `v`.
fn hex_string(v: u64) -> (r: String)
    ensures
        r@ == hex_text(v as nat),
{
    let mut s = String::new();
    push_digits(&mut s, v, 16);
    assert(s@ =~= hex_text(v as nat));
    s
}

fn read_texts(name: &str, args: &str, ty: &str, loc: &str, star: &str) -> (r: Vec<String>)
    ensures
        r.deep_view() == read_block(name@, args@, ty@, loc@, star@),
{
    let mut v: Vec<String> = Vec::new();
    v.push(cat2(cat5("pub unsafe fn read_", name, args, " -> ", ty).as_str(), " {"));
    v.push(cat3(cat5("    let ptr = ", loc, " as ", star, "const ").as_str(), ty, ";"));
    v.push(String::from_str("    core::ptr::read_volatile(ptr)"));
    v.push(String::from_str("}"));
    assert(v.deep_view() =~= read_block(name@, args@, ty@, loc@, star@));
    v
}

fn write_texts(name: &str, recv: &str, ty: &str, loc: &str, star: &str) -> (r: Vec<String>)
    ensures
        r.deep_view() == write_block(name@, recv@, ty@, loc@, star@),
{
    let mut v: Vec<String> = Vec::new();
    v.push(cat3(cat5("pub unsafe fn write_", name, "<T: Into<", ty, ">>(").as_str(), recv, "value: T) {"));
    v.push(cat3(cat5("    let ptr = ", loc, " as ", star, "mut ").as_str(), ty, ";"));
    v.push(String::from_str("    core::ptr::write_volatile(ptr, value.into())"));
    v.push(String::from_str("}"));
    assert(v.deep_view() =~= write_block(name@, recv@, ty@, loc@, star@));
    v
}

fn ptr_texts(name: &str, args: &str, c: &str, ty: &str, loc: &str) -> (r: Vec<String>)
    ensures
        r.deep_view() == ptr_block(name@, args@, c@, ty@, loc@),
{
    let mut v: Vec<String> = Vec::new();
    v.push(cat5(cat5("pub fn ", name, "_ptr", args, " -> *").as_str(), c, " ", ty, " {"));
    v.push(cat2(cat5("    ", loc, " as *", c, " ").as_str(), ty));
    v.push(String::from_str("}"));
    assert(v.deep_view() =~= ptr_block(name@, args@, c@, ty@, loc@));
    v
}

impl CodeGenerator {
    /// Writes the accessors of register `r`: see [`access_lines`].
    fn emit_access(&mut self, r: &Register, read: &Vec<String>, write: &Vec<String>, ptr: &Vec<String>)
        ensures
            final(self).out.deep_view() == old(self).out.deep_view() + access_lines(
                style(*old(self)),
                old(self).indentation_level as nat,
                r.deep_view(),
                read.deep_view(),
                write.deep_view(),
                ptr.deep_view(),
            ),
            *final(self) == (CodeGenerator { out: final(self).out, ..*old(self) }),
    {
        let ghost start = *self;
        let ghost before = self.out.deep_view();
        if r.is_read() {
            self.generate_doc(&r.description);
            self.emit_texts(read);
        }
        let ghost b1 = self.out.deep_view();
        if r.is_write() {
            self.generate_doc(&r.description);
            self.emit_texts(write);
        }
        let ghost b2 = self.out.deep_view();
        self.generate_doc(&r.description);
        self.emit_texts(ptr);
        assert(self.out.deep_view() =~= before + access_lines(
            style(start),
            start.indentation_level as nat,
            r.deep_view(),
            read.deep_view(),
            write.deep_view(),
            ptr.deep_view(),
        ));
    }

    pub fn generate_register(&mut self, r: &Register, p: &Peripheral) -> (res: Result<(), CodegenError>)
        requires
            has_room(*old(self), 2),
        ensures
            res is Ok == register_ok(style(*old(self)), r.deep_view(), p.base_address.0),
            res is Ok ==> final(self).out.deep_view() == old(self).out.deep_view() + register_lines(
                style(*old(self)),
                old(self).indentation_level as nat,
                r.deep_view(),
                p.base_address.0,
            ),
            *final(self) == (CodeGenerator { out: final(self).out, ..*old(self) }),
            res is Err ==> final(self).out.deep_view() == old(self).out.deep_view(),
    {
        self.generate_register_at(r, p.base_address.0)
    }

    /// Writes register `r` of a peripheral or cluster whose registers start
    /// at address `base`.
    pub fn generate_register_at(&mut self, r: &Register, base: u64) -> (res: Result<(), CodegenError>)
        requires
            has_room(*old(self), 2),
        ensures
            res is Ok == register_ok(style(*old(self)), r.deep_view(), base),
            res is Ok ==> final(self).out.deep_view() == old(self).out.deep_view() + register_lines(
                style(*old(self)),
                old(self).indentation_level as nat,
                r.deep_view(),
                base,
            ),
            *final(self) == (CodeGenerator { out: final(self).out, ..*old(self) }),
            res is Err ==> final(self).out.deep_view() == old(self).out.deep_view(),
    {
        let mut part = self.scratch();
        let res = part.write_register_at(r, base);
        if res.is_ok() {
            self.take_lines(part);
        }
        res
    }

    #[verifier::rlimit(80)]
    fn write_register_at(&mut self, r: &Register, base: u64) -> (res: Result<(), CodegenError>)
        requires
            has_room(*old(self), 2),
        ensures
            res is Ok == register_ok(style(*old(self)), r.deep_view(), base),
            res is Ok ==> final(self).out.deep_view() == old(self).out.deep_view() + register_lines(
                style(*old(self)),
                old(self).indentation_level as nat,
                r.deep_view(),
                base,
            ),
            *final(self) == (CodeGenerator { out: final(self).out, ..*old(self) }),
    {
        let ghost start = *self;
        let ghost before = self.out.deep_view();
        if base > u64::MAX - r.address_offset.0 {
            return Err(CodegenError::UnsupportedFeature);
        }
        let address = base + r.address_offset.0;
        let ty = self.generate_fields(r)?;
        let ghost b1 = self.out.deep_view();
        let loc = cat2("0x", hex_string(address).as_str());
        let c = if r.is_write() {
            "mut"
        } else {
            "const"
        };
        let name = r.name.as_str();
        let read = read_texts(name, "()", ty.as_str(), loc.as_str(), "*");
        let write = write_texts(name, "", ty.as_str(), loc.as_str(), "*");
        let ptr = ptr_texts(name, "()", c, ty.as_str(), loc.as_str());
        self.emit_access(r, &read, &write, &ptr);
        assert(self.out.deep_view() =~= before + register_lines(
            style(start),
            start.indentation_level as nat,
            r.deep_view(),
            base,
        ));
        Ok(())
    }

    pub fn generate_register_for_group(&mut self, r: &Register, pg: &PeripheralsGroup) -> (res: Result<(), CodegenError>)
        requires
            has_room(*old(self), 3),
        ensures
            res is Ok == register_type_ok(style(*old(self)), r.deep_view()),
            res is Ok ==> final(self).out.deep_view() == old(self).out.deep_view() + group_register_lines(
                style(*old(self)),
                old(self).indentation_level as nat,
                r.deep_view(),
                pg.struct_name@,
            ),
            *final(self) == (CodeGenerator { out: final(self).out, ..*old(self) }),
            res is Err ==> final(self).out.deep_view() == old(self).out.deep_view(),
    {
        let mut part = self.scratch();
        let res = part.write_register_for_group(r, pg);
        if res.is_ok() {
            self.take_lines(part);
        }
        res
    }

    #[verifier::rlimit(80)]
    fn write_register_for_group(&mut self, r: &Register, pg: &PeripheralsGroup) -> (res: Result<(), CodegenError>)
        requires
            has_room(*old(self), 3),
        ensures
            res is Ok == register_type_ok(style(*old(self)), r.deep_view()),
            res is Ok ==> final(self).out.deep_view() == old(self).out.deep_view() + group_register_lines(
                style(*old(self)),
                old(self).indentation_level as nat,
                r.deep_view(),
                pg.struct_name@,
            ),
            *final(self) == (CodeGenerator { out: final(self).out, ..*old(self) }),
    {
        let handle = pg.struct_name.as_str();
        let ghost start = *self;
        let ghost before = self.out.deep_view();
        let ty = self.generate_fields(r)?;
        let ghost b1 = self.out.deep_view();
        self.write_line(cat3("impl ", handle, " {").as_str());
        self.indent();
        let off = r.address_offset.0;
        let loc = cat3("(self.base_address + ", decimal_string(off).as_str(), ")");
        let loc2 = cat3("(self.base_address + 0x", hex_string(off).as_str(), ")");
        let c = if r.is_write() {
            "mut"
        } else {
            "const"
        };
        let name = r.name.as_str();
        let read = read_texts(name, "(&self)", ty.as_str(), loc.as_str(), "* ");
        let write = write_texts(name, "&self, ", ty.as_str(), loc.as_str(), "* ");
        let ptr = ptr_texts(name, "(&self)", c, ty.as_str(), loc2.as_str());
        self.emit_access(r, &read, &write, &ptr);
        self.deindent();
        self.write_line("}");
        assert(self.out.deep_view() =~= before + group_register_lines(
            style(start),
            start.indentation_level as nat,
            r.deep_view(),
            pg.struct_name@,
        ));
        Ok(())
    }
}

/// Lines of the entries `rs` of a peripheral or cluster whose registers
/// start at `base`: each register at `base` plus its offset, and the
/// registers of each cluster at `base` plus the cluster's offset.
pub open spec fn entries_lines(g: Style, level: nat, rs: Seq<RegisterOrClusterModel>, base: u64) -> Seq<
    Seq<char>,
>
    decreases rs,
{
    if rs.len() == 0 {
        Seq::empty()
    } else {
        entries_lines(g, level, rs.drop_last(), base) + entry_lines(g, level, rs.last(), base)
    }
}

/// Lines of the entry `m` of a peripheral or cluster whose registers start
/// at `base`.
pub open spec fn entry_lines(g: Style, level: nat, m: RegisterOrClusterModel, base: u64) -> Seq<Seq<char>>
    decreases m,
{
    match m {
        RegisterOrClusterModel::Register(r) => register_lines(g, level, r, base),
        RegisterOrClusterModel::Cluster(c) => if base + c.address_offset.0 <= u64::MAX {
            entries_lines(g, level, c.registers, (base + c.address_offset.0) as u64)
        } else {
            Seq::empty()
        },
    }
}

/// Whether the entry `m` of a peripheral or cluster whose registers start at
/// `base` can be written: every register it holds can, at an address that
/// fits in 64 bits.
pub open spec fn entry_ok(g: Style, m: RegisterOrClusterModel, base: u64) -> bool
    decreases m,
{
    match m {
        RegisterOrClusterModel::Register(r) => register_ok(g, r, base),
        RegisterOrClusterModel::Cluster(c) => base + c.address_offset.0 <= u64::MAX && forall|i: int|
            0 <= i < c.registers.len() ==> entry_ok(
                g,
                #[trigger] c.registers[i],
                (base + c.address_offset.0) as u64,
            ),
    }
}

/// Whether every entry of `rs` can be written.
pub open spec fn entries_ok(g: Style, rs: Seq<RegisterOrClusterModel>, base: u64) -> bool {
    forall|i: int| 0 <= i < rs.len() ==> entry_ok(g, #[trigger] rs[i], base)
}

/// The register list of a peripheral, empty where it has none.
pub open spec fn register_list(p: PeripheralModel) -> Seq<RegisterOrClusterModel> {
    match p.registers {
        Some(rs) => rs,
        None => Seq::empty(),
    }
}

/// Lines of the module of peripheral `p`.
pub open spec fn peripheral_lines(g: Style, level: nat, p: PeripheralModel) -> Seq<Seq<char>> {
    doc_lines(g.with_doc, level, p.description) + seq![
        line(level, "pub mod "@ + p.name + " {"@),
        line(level + 1, "use core;"@),
    ] + entries_lines(g, level + 1, register_list(p), p.base_address.0) + seq![line(level, "}"@)]
}

/// Whether the module of peripheral `p` can be written.
pub open spec fn peripheral_ok(g: Style, p: PeripheralModel) -> bool {
    entries_ok(g, register_list(p), p.base_address.0)
}

impl CodeGenerator {
    /// Writes the entries `rs` of a peripheral or cluster whose registers
    /// start at `base`.
    #[verifier::rlimit(80)]
    fn generate_entries(&mut self, rs: &Vec<RegisterOrCluster>, base: u64) -> (res: Result<(), CodegenError>)
        requires
            has_room(*old(self), 2),
        ensures
            res is Ok == entries_ok(style(*old(self)), rs.deep_view(), base),
            res is Ok ==> final(self).out.deep_view() == old(self).out.deep_view() + entries_lines(
                style(*old(self)),
                old(self).indentation_level as nat,
                rs.deep_view(),
                base,
            ),
            *final(self) == (CodeGenerator { out: final(self).out, ..*old(self) }),
        decreases rs,
    {
        let ghost start = *self;
        let ghost before = self.out.deep_view();
        let ghost level = self.indentation_level as nat;
        let ghost s = rs.deep_view();
        let mut i: usize = 0;
        assert(s.subrange(0, 0) =~= Seq::<RegisterOrClusterModel>::empty());
        while i < rs.len()
            invariant
                i <= rs.len(),
                s == rs.deep_view(),
                start == *old(self),
                level == start.indentation_level as nat,
                has_room(start, 2),
                *self == (CodeGenerator { out: self.out, ..start }),
                entries_ok(style(start), s.subrange(0, i as int), base),
                self.out.deep_view() == before + entries_lines(style(start), level, s.subrange(0, i as int), base),
            decreases rs.len() - i,
        {
            assert(s.subrange(0, i + 1).drop_last() =~= s.subrange(0, i as int));
            assert(s.subrange(0, i + 1).last() == s[i as int]);
            proof {
                assert(decreases_to!(rs => rs@[i as int]));
            }
            match &rs[i] {
                RegisterOrCluster::Register(r) => {
                    let ghost b1 = self.out.deep_view();
                    match self.generate_register_at(r, base) {
                        Ok(()) => {
                            assert(self.out.deep_view() =~= b1 + entry_lines(style(start), level, s[i as int], base));
                        },
                        Err(e) => {
                            assert(!entry_ok(style(start), s[i as int], base));
                            return Err(e);
                        },
                    }
                },
                RegisterOrCluster::Cluster(c) => {
                    proof {
                        crate::register_or_cluster::lemma_models(c.registers);
                        assert(s[i as int] == RegisterOrClusterModel::Cluster(c.deep_view()));
                        assert(c.deep_view().registers == c.registers.deep_view());
                    }
                    if base > u64::MAX - c.address_offset.0 {
                        assert(!entry_ok(style(start), s[i as int], base));
                        return Err(CodegenError::UnsupportedFeature);
                    }
                    let ghost b1 = self.out.deep_view();
                    match self.generate_entries(&c.registers, base + c.address_offset.0) {
                        Ok(()) => {
                            assert(entry_lines(style(start), level, s[i as int], base) == entries_lines(
                                style(start),
                                level,
                                c.registers.deep_view(),
                                (base + c.address_offset.0) as u64,
                            ));
                            assert(self.out.deep_view() =~= b1 + entry_lines(style(start), level, s[i as int], base));
                        },
                        Err(e) => {
                            assert(!entry_ok(style(start), s[i as int], base));
                            return Err(e);
                        },
                    }
                },
            }
            assert(entries_ok(style(start), s.subrange(0, i + 1), base));
            assert(self.out.deep_view() =~= before + entries_lines(style(start), level, s.subrange(0, i + 1), base));
            i = i + 1;
        }
        assert(s.subrange(0, i as int) =~= s);
        Ok(())
    }

    pub fn generate_peripheral_registers(&mut self, peripheral: &Peripheral) -> (res: Result<
        (),
        CodegenError,
    >)
        requires
            has_room(*old(self), 2),
        ensures
            res is Ok == peripheral_ok(style(*old(self)), peripheral.deep_view()),
            res is Ok ==> final(self).out.deep_view() == old(self).out.deep_view() + entries_lines(
                style(*old(self)),
                old(self).indentation_level as nat,
                register_list(peripheral.deep_view()),
                peripheral.base_address.0,
            ),
            *final(self) == (CodeGenerator { out: final(self).out, ..*old(self) }),
            res is Err ==> final(self).out.deep_view() == old(self).out.deep_view(),
    {
        let mut part = self.scratch();
        let res = part.write_peripheral_registers(peripheral);
        if res.is_ok() {
            self.take_lines(part);
        }
        res
    }

    fn write_peripheral_registers(&mut self, peripheral: &Peripheral) -> (res: Result<
        (),
        CodegenError,
    >)
        requires
            has_room(*old(self), 2),
        ensures
            res is Ok == peripheral_ok(style(*old(self)), peripheral.deep_view()),
            res is Ok ==> final(self).out.deep_view() == old(self).out.deep_view() + entries_lines(
                style(*old(self)),
                old(self).indentation_level as nat,
                register_list(peripheral.deep_view()),
                peripheral.base_address.0,
            ),
            *final(self) == (CodeGenerator { out: final(self).out, ..*old(self) }),
    {
        match &peripheral.registers {
            None => {
                assert(self.out.deep_view() =~= self.out.deep_view() + entries_lines(
                    style(*self),
                    self.indentation_level as nat,
                    Seq::empty(),
                    peripheral.base_address.0,
                ));
                Ok(())
            },
            Some(rs) => self.generate_entries(rs, peripheral.base_address.0),
        }
    }

    pub fn generate_peripheral(&mut self, p: &Peripheral) -> (res: Result<(), CodegenError>)
        requires
            has_room(*old(self), 3),
        ensures
            res is Ok == peripheral_ok(style(*old(self)), p.deep_view()),
            res is Ok ==> final(self).out.deep_view() == old(self).out.deep_view() + peripheral_lines(
                style(*old(self)),
                old(self).indentation_level as nat,
                p.deep_view(),
            ),
            *final(self) == (CodeGenerator { out: final(self).out, ..*old(self) }),
            res is Err ==> final(self).out.deep_view() == old(self).out.deep_view(),
    {
        let mut part = self.scratch();
        let res = part.write_peripheral(p);
        if res.is_ok() {
            self.take_lines(part);
        }
        res
    }

    #[verifier::rlimit(80)]
    fn write_peripheral(&mut self, p: &Peripheral) -> (res: Result<(), CodegenError>)
        requires
            has_room(*old(self), 3),
        ensures
            res is Ok == peripheral_ok(style(*old(self)), p.deep_view()),
            res is Ok ==> final(self).out.deep_view() == old(self).out.deep_view() + peripheral_lines(
                style(*old(self)),
                old(self).indentation_level as nat,
                p.deep_view(),
            ),
            *final(self) == (CodeGenerator { out: final(self).out, ..*old(self) }),
    {
        let ghost start = *self;
        let ghost before = self.out.deep_view();
        self.generate_doc(&p.description);
        self.write_line(cat3("pub mod ", p.name.as_str(), " {").as_str());
        self.indent();
        self.write_line("use core;");
        let r = self.generate_peripheral_registers(p);
        self.deindent();
        if r.is_err() {
            return Err(CodegenError::UnsupportedFeature);
        }
        self.write_line("}");
        assert(self.out.deep_view() =~= before + peripheral_lines(
            style(start),
            start.indentation_level as nat,
            p.deep_view(),
        ));
        Ok(())
    }
}

/// The register list of the first peripheral of `ps` that has one.
pub open spec fn first_register_list(ps: Seq<PeripheralModel>) -> Seq<RegisterOrClusterModel>
    decreases ps.len(),
{
    if ps.len() == 0 {
        Seq::empty()
    } else if ps[0].registers is Some {
        ps[0].registers->Some_0
    } else {
        first_register_list(ps.drop_first())
    }
}

/// Lines of the registers `rs` in the handle type `handle`.
#[verifier::opaque]
pub open spec fn group_registers_lines(g: Style, level: nat, rs: Seq<RegisterOrClusterModel>, handle: Seq<char>) -> Seq<
    Seq<char>,
>
    decreases rs.len(),
{
    if rs.len() == 0 {
        Seq::empty()
    } else {
        group_registers_lines(g, level, rs.drop_last(), handle) + group_register_lines(
            g,
            level,
            rs.last()->Register_0,
            handle,
        )
    }
}

/// Whether the registers `rs` of a handle type can be written: all are
/// registers (no cluster) and each can be written.
#[verifier::opaque]
pub open spec fn group_registers_ok(g: Style, rs: Seq<RegisterOrClusterModel>) -> bool {
    forall|i: int|
        0 <= i < rs.len() ==> (#[trigger] rs[i]) is Register && register_type_ok(g, rs[i]->Register_0)
}

/// The constant text of one member of a peripheral group.
pub open spec fn member_const(p: PeripheralModel, handle: Seq<char>) -> Seq<char> {
    "pub const "@ + p.name + ": "@ + handle + " = "@ + handle + " {base_address: "@ + decimal_text(
        p.base_address.0 as nat,
    ) + "};"@
}

/// The description of a peripheral group: the first among its members,
/// else the first member's.
pub open spec fn group_description(ps: Seq<PeripheralModel>) -> Option<Seq<char>> {
    match first_description_of_group(ps) {
        Some(d) => Some(d),
        None => ps[0].description,
    }
}

/// Lines of the module of peripheral group `pg`: a handle type carrying a
/// base address, one constant per member, and the accessors of the first
/// member's registers on the handle.
pub open spec fn peripherals_group_lines(g: Style, level: nat, pg: PeripheralsGroupModel) -> Seq<
    Seq<char>,
> {
    let s = pg.struct_name;
    doc_lines(g.with_doc, level, group_description(pg.peripherals)) + seq![
        line(level, "pub mod "@ + pg.module_name + " {"@),
    ] + lines_at(
        level + 1,
        seq![
            "use core;"@,
            "#[derive(Copy, Clone, PartialEq, Eq)]"@,
            "pub struct "@ + s + " { pub base_address: usize }"@,
        ],
    ) + lines_at(level + 1, pg.peripherals.map_values(|p: PeripheralModel| member_const(p, s)))
        + group_registers_lines(g, level + 1, first_register_list(pg.peripherals), s) + seq![
        line(level, "}"@),
    ]
}

/// Whether the module of peripheral group `pg` can be written.
pub open spec fn peripherals_group_ok(g: Style, pg: PeripheralsGroupModel) -> bool {
    pg.peripherals.len() > 0 && group_registers_ok(g, first_register_list(pg.peripherals))
}

impl CodeGenerator {
    #[verifier::rlimit(80)]
    fn generate_group_registers(&mut self, rs: &Vec<RegisterOrCluster>, pg: &PeripheralsGroup) -> (res: Result<
        (),
        CodegenError,
    >)
        requires
            has_room(*old(self), 3),
        ensures
            res is Ok == group_registers_ok(style(*old(self)), rs.deep_view()),
            res is Ok ==> final(self).out.deep_view() == old(self).out.deep_view() + group_registers_lines(
                style(*old(self)),
                old(self).indentation_level as nat,
                rs.deep_view(),
                pg.struct_name@,
            ),
            *final(self) == (CodeGenerator { out: final(self).out, ..*old(self) }),
    {
        let ghost start = *self;
        let ghost before = self.out.deep_view();
        let ghost level = self.indentation_level as nat;
        let ghost s = rs.deep_view();
        let mut i: usize = 0;
        proof {
            reveal(group_registers_lines);
            reveal(group_registers_ok);
        }
        assert(s.subrange(0, 0) =~= Seq::<RegisterOrClusterModel>::empty());
        while i < rs.len()
            invariant
                i <= rs.len(),
                s == rs.deep_view(),
                start == *old(self),
                level == start.indentation_level as nat,
                has_room(start, 3),
                *self == (CodeGenerator { out: self.out, ..start }),
                group_registers_ok(style(start), s.subrange(0, i as int)),
                self.out.deep_view() == before + group_registers_lines(style(start), level, s.subrange(0, i as int), pg.struct_name@),
            decreases rs.len() - i,
        {
            proof {
                reveal(group_registers_lines);
                reveal(group_registers_ok);
            }
            assert(s.subrange(0, i + 1).drop_last() =~= s.subrange(0, i as int));
            assert(s.subrange(0, i + 1).last() == s[i as int]);
            match &rs[i] {
                RegisterOrCluster::Register(r) => {
                    match self.generate_register_for_group(r, pg) {
                        Ok(()) => {},
                        Err(e) => {
                            assert(!group_registers_ok(style(start), s));
                            return Err(e);
                        },
                    }
                },
                RegisterOrCluster::Cluster(_) => {
                    assert(!group_registers_ok(style(start), s));
                    return Err(CodegenError::UnsupportedFeature);
                },
            }
            assert(group_registers_ok(style(start), s.subrange(0, i + 1)));
            assert(self.out.deep_view() =~= before + group_registers_lines(style(start), level, s.subrange(0, i + 1), pg.struct_name@));
            i = i + 1;
        }
        proof {
            reveal(group_registers_ok);
        }
        assert(s.subrange(0, i as int) =~= s);
        Ok(())
    }

    /// Writes the constants of the members of `pg`.
    fn generate_members(&mut self, pg: &PeripheralsGroup)
        ensures
            final(self).out.deep_view() == old(self).out.deep_view() + lines_at(
                old(self).indentation_level as nat,
                pg.peripherals.deep_view().map_values(|p: PeripheralModel| member_const(p, pg.struct_name@)),
            ),
            *final(self) == (CodeGenerator { out: final(self).out, ..*old(self) }),
    {
        let s = pg.struct_name.as_str();
        let mut texts: Vec<String> = Vec::new();
        let mut i: usize = 0;
        while i < pg.peripherals.len()
            invariant
                i <= pg.peripherals.len(),
                s@ == pg.struct_name@,
                texts.len() == i,
                forall|k: int|
                    0 <= k < i ==> #[trigger] texts@[k]@ == member_const(pg.peripherals.deep_view()[k], s@),
            decreases pg.peripherals.len() - i,
        {
            let p = &pg.peripherals[i];
            let head = cat5("pub const ", p.name.as_str(), ": ", s, " = ");
            let t = cat5(head.as_str(), s, " {base_address: ", decimal_string(p.base_address.0).as_str(), "};");
            texts.push(t);
            i = i + 1;
        }
        assert(texts.deep_view() =~= pg.peripherals.deep_view().map_values(
            |p: PeripheralModel| member_const(p, pg.struct_name@),
        ));
        self.emit_texts(&texts);
    }

    /// The register list of the first member of `pg` that has one.
    fn first_registers(pg: &PeripheralsGroup) -> (r: Option<&Vec<RegisterOrCluster>>)
        ensures
            match r {
                Some(rs) => rs.deep_view() == first_register_list(pg.peripherals.deep_view()),
                None => first_register_list(pg.peripherals.deep_view()) == Seq::<RegisterOrClusterModel>::empty(),
            },
    {
        let ghost s = pg.peripherals.deep_view();
        let mut i: usize = 0;
        assert(s.subrange(0, s.len() as int) =~= s);
        while i < pg.peripherals.len()
            invariant
                i <= pg.peripherals.len(),
                s == pg.peripherals.deep_view(),
                first_register_list(s) == first_register_list(s.subrange(i as int, s.len() as int)),
            decreases pg.peripherals.len() - i,
        {
            assert(s.subrange(i as int, s.len() as int).drop_first() =~= s.subrange(i + 1, s.len() as int));
            if let Some(rs) = &pg.peripherals[i].registers {
                return Some(rs);
            }
            i = i + 1;
        }
        None
    }

    pub fn generate_peripherals_group(&mut self, pg: &PeripheralsGroup) -> (res: Result<(), CodegenError>)
        requires
            has_room(*old(self), 4),
        ensures
            res is Ok == peripherals_group_ok(style(*old(self)), pg.deep_view()),
            res is Ok ==> final(self).out.deep_view() == old(self).out.deep_view() + peripherals_group_lines(
                style(*old(self)),
                old(self).indentation_level as nat,
                pg.deep_view(),
            ),
            *final(self) == (CodeGenerator { out: final(self).out, ..*old(self) }),
            res is Err ==> final(self).out.deep_view() == old(self).out.deep_view(),
    {
        let mut part = self.scratch();
        let res = part.write_peripherals_group(pg);
        if res.is_ok() {
            self.take_lines(part);
        }
        res
    }

    #[verifier::rlimit(80)]
    fn write_peripherals_group(&mut self, pg: &PeripheralsGroup) -> (res: Result<(), CodegenError>)
        requires
            has_room(*old(self), 4),
        ensures
            res is Ok == peripherals_group_ok(style(*old(self)), pg.deep_view()),
            res is Ok ==> final(self).out.deep_view() == old(self).out.deep_view() + peripherals_group_lines(
                style(*old(self)),
                old(self).indentation_level as nat,
                pg.deep_view(),
            ),
            *final(self) == (CodeGenerator { out: final(self).out, ..*old(self) }),
    {
        let ghost start = *self;
        let ghost before = self.out.deep_view();
        let ghost level = self.indentation_level as nat;
        if pg.peripherals.len() == 0 {
            return Err(CodegenError::UnsupportedFeature);
        }
        self.generate_doc(pg.description());
        let ghost b1 = self.out.deep_view();
        self.write_line(cat3("pub mod ", pg.module_name.as_str(), " {").as_str());
        self.indent();
        let mut head: Vec<String> = Vec::new();
        head.push(String::from_str("use core;"));
        head.push(String::from_str("#[derive(Copy, Clone, PartialEq, Eq)]"));
        head.push(cat3("pub struct ", pg.struct_name.as_str(), " { pub base_address: usize }"));
        assert(head.deep_view() =~= seq![
            "use core;"@,
            "#[derive(Copy, Clone, PartialEq, Eq)]"@,
            "pub struct "@ + pg.struct_name@ + " { pub base_address: usize }"@,
        ]);
        self.emit_texts(&head);
        self.generate_members(pg);
        let ghost b2 = self.out.deep_view();
        let r = match Self::first_registers(pg) {
            Some(rs) => self.generate_group_registers(rs, pg),
            None => {
                proof {
                    reveal(group_registers_lines);
                    reveal(group_registers_ok);
                }
                assert(self.out.deep_view() =~= b2 + group_registers_lines(
                    style(start),
                    level + 1,
                    Seq::<RegisterOrClusterModel>::empty(),
                    pg.struct_name@,
                ));
                Ok(())
            },
        };
        self.deindent();
        if r.is_err() {
            return Err(CodegenError::UnsupportedFeature);
        }
        self.write_line("}");
        assert(self.out.deep_view() =~= before + peripherals_group_lines(style(start), level, pg.deep_view()));
        Ok(())
    }
}

/// Lines of the modules of peripherals `ps`.
#[verifier::opaque]
pub open spec fn peripherals_lines(g: Style, level: nat, ps: Seq<PeripheralModel>) -> Seq<Seq<char>>
    decreases ps.len(),
{
    if ps.len() == 0 {
        Seq::empty()
    } else {
        peripherals_lines(g, level, ps.drop_last()) + peripheral_lines(g, level, ps.last())
    }
}

/// Lines of the modules of peripheral groups `gs`.
#[verifier::opaque]
pub open spec fn groups_block_lines(g: Style, level: nat, gs: Seq<PeripheralsGroupModel>) -> Seq<
    Seq<char>,
>
    decreases gs.len(),
{
    if gs.len() == 0 {
        Seq::empty()
    } else {
        groups_block_lines(g, level, gs.drop_last()) + peripherals_group_lines(g, level, gs.last())
    }
}

/// Whether the module of every peripheral of `ps` can be written.
pub open spec fn peripherals_ok(g: Style, ps: Seq<PeripheralModel>) -> bool {
    forall|i: int| 0 <= i < ps.len() ==> peripheral_ok(g, #[trigger] ps[i])
}

/// Whether the module of every peripheral group of `gs` can be written.
pub open spec fn groups_block_ok(g: Style, gs: Seq<PeripheralsGroupModel>) -> bool {
    forall|i: int| 0 <= i < gs.len() ==> peripherals_group_ok(g, #[trigger] gs[i])
}

/// Lines inside the module of a device of peripherals `ps`: the groups of
/// similar peripherals then the other peripherals where peripherals are
/// grouped, else every peripheral.
pub open spec fn device_body_lines(g: Style, level: nat, ps: Seq<PeripheralModel>) -> Seq<Seq<char>> {
    if g.group_peripherals {
        let (gs, individuals) = grouping(ps, !g.with_field);
        groups_block_lines(g, level, gs) + peripherals_lines(g, level, individuals)
    } else {
        peripherals_lines(g, level, ps)
    }
}

/// Whether the module of a device of peripherals `ps` can be written.
pub open spec fn device_ok(g: Style, ps: Seq<PeripheralModel>) -> bool {
    if g.group_peripherals {
        let (gs, individuals) = grouping(ps, !g.with_field);
        groups_block_ok(g, gs) && peripherals_ok(g, individuals)
    } else {
        peripherals_ok(g, ps)
    }
}

/// Lines of the module of device `name`.
pub open spec fn device_lines(g: Style, level: nat, name: Seq<char>, description: Seq<char>, ps: Seq<PeripheralModel>) -> Seq<
    Seq<char>,
> {
    lines_at(
        level,
        seq!["#[allow(non_snake_case)]"@, "#[allow(dead_code)]"@, "#[allow(non_camel_case_types)]"@],
    ) + doc_lines(g.with_doc, level, Some(description)) + seq![line(level, "pub mod "@ + name + " {"@)]
        + device_body_lines(g, level + 1, ps) + seq![line(level, "}"@)]
}

impl CodeGenerator {
    #[verifier::rlimit(80)]
    fn generate_peripherals(&mut self, ps: &Vec<Peripheral>) -> (res: Result<(), CodegenError>)
        requires
            has_room(*old(self), 3),
        ensures
            res is Ok == peripherals_ok(style(*old(self)), ps.deep_view()),
            res is Ok ==> final(self).out.deep_view() == old(self).out.deep_view() + peripherals_lines(
                style(*old(self)),
                old(self).indentation_level as nat,
                ps.deep_view(),
            ),
            *final(self) == (CodeGenerator { out: final(self).out, ..*old(self) }),
    {
        let ghost start = *self;
        let ghost before = self.out.deep_view();
        let ghost level = self.indentation_level as nat;
        let ghost s = ps.deep_view();
        let mut i: usize = 0;
        proof {
            reveal(peripherals_lines);
        }
        assert(s.subrange(0, 0) =~= Seq::<PeripheralModel>::empty());
        while i < ps.len()
            invariant
                i <= ps.len(),
                s == ps.deep_view(),
                start == *old(self),
                level == start.indentation_level as nat,
                has_room(start, 3),
                *self == (CodeGenerator { out: self.out, ..start }),
                peripherals_ok(style(start), s.subrange(0, i as int)),
                self.out.deep_view() == before + peripherals_lines(style(start), level, s.subrange(0, i as int)),
            decreases ps.len() - i,
        {
            proof {
                reveal(peripherals_lines);
            }
            assert(s.subrange(0, i + 1).drop_last() =~= s.subrange(0, i as int));
            assert(s.subrange(0, i + 1).last() == s[i as int]);
            match self.generate_peripheral(&ps[i]) {
                Ok(()) => {},
                Err(e) => {
                    assert(!peripherals_ok(style(start), s));
                    return Err(e);
                },
            }
            assert(peripherals_ok(style(start), s.subrange(0, i + 1)));
            assert(self.out.deep_view() =~= before + peripherals_lines(style(start), level, s.subrange(0, i + 1)));
            i = i + 1;
        }
        assert(s.subrange(0, i as int) =~= s);
        Ok(())
    }

    #[verifier::rlimit(80)]
    fn generate_groups(&mut self, gs: &Vec<PeripheralsGroup>) -> (res: Result<(), CodegenError>)
        requires
            has_room(*old(self), 4),
        ensures
            res is Ok == groups_block_ok(style(*old(self)), gs.deep_view()),
            res is Ok ==> final(self).out.deep_view() == old(self).out.deep_view() + groups_block_lines(
                style(*old(self)),
                old(self).indentation_level as nat,
                gs.deep_view(),
            ),
            *final(self) == (CodeGenerator { out: final(self).out, ..*old(self) }),
    {
        let ghost start = *self;
        let ghost before = self.out.deep_view();
        let ghost level = self.indentation_level as nat;
        let ghost s = gs.deep_view();
        let mut i: usize = 0;
        proof {
            reveal(groups_block_lines);
        }
        assert(s.subrange(0, 0) =~= Seq::<PeripheralsGroupModel>::empty());
        while i < gs.len()
            invariant
                i <= gs.len(),
                s == gs.deep_view(),
                start == *old(self),
                level == start.indentation_level as nat,
                has_room(start, 4),
                *self == (CodeGenerator { out: self.out, ..start }),
                groups_block_ok(style(start), s.subrange(0, i as int)),
                self.out.deep_view() == before + groups_block_lines(style(start), level, s.subrange(0, i as int)),
            decreases gs.len() - i,
        {
            proof {
                reveal(groups_block_lines);
            }
            assert(s.subrange(0, i + 1).drop_last() =~= s.subrange(0, i as int));
            assert(s.subrange(0, i + 1).last() == s[i as int]);
            match self.generate_peripherals_group(&gs[i]) {
                Ok(()) => {},
                Err(e) => {
                    assert(!groups_block_ok(style(start), s));
                    return Err(e);
                },
            }
            assert(groups_block_ok(style(start), s.subrange(0, i + 1)));
            assert(self.out.deep_view() =~= before + groups_block_lines(style(start), level, s.subrange(0, i + 1)));
            i = i + 1;
        }
        assert(s.subrange(0, i as int) =~= s);
        Ok(())
    }

    /// Writes the module of device `d`. On failure nothing is written.
    pub fn generate_device(&mut self, d: &Device) -> (res: Result<(), CodegenError>)
        requires
            has_room(*old(self), 5),
        ensures
            res is Ok == device_ok(style(*old(self)), d.peripherals.deep_view()),
            res is Ok ==> final(self).out.deep_view() == old(self).out.deep_view() + device_lines(
                style(*old(self)),
                old(self).indentation_level as nat,
                d.name@,
                d.description@,
                d.peripherals.deep_view(),
            ),
            *final(self) == (CodeGenerator { out: final(self).out, ..*old(self) }),
            res is Err ==> final(self).out.deep_view() == old(self).out.deep_view(),
    {
        let mut part = self.scratch();
        let res = part.write_device(d);
        if res.is_ok() {
            self.take_lines(part);
        }
        res
    }

    #[verifier::rlimit(80)]
    fn write_device(&mut self, d: &Device) -> (res: Result<(), CodegenError>)
        requires
            has_room(*old(self), 5),
        ensures
            res is Ok == device_ok(style(*old(self)), d.peripherals.deep_view()),
            res is Ok ==> final(self).out.deep_view() == old(self).out.deep_view() + device_lines(
                style(*old(self)),
                old(self).indentation_level as nat,
                d.name@,
                d.description@,
                d.peripherals.deep_view(),
            ),
            *final(self) == (CodeGenerator { out: final(self).out, ..*old(self) }),
    {
        let ghost start = *self;
        let ghost before = self.out.deep_view();
        let ghost level = self.indentation_level as nat;
        let mut head: Vec<String> = Vec::new();
        head.push(String::from_str("#[allow(non_snake_case)]"));
        head.push(String::from_str("#[allow(dead_code)]"));
        head.push(String::from_str("#[allow(non_camel_case_types)]"));
        assert(head.deep_view() =~= seq![
            "#[allow(non_snake_case)]"@,
            "#[allow(dead_code)]"@,
            "#[allow(non_camel_case_types)]"@,
        ]);
        self.emit_texts(&head);
        let description = Some(d.description.clone());
        self.generate_doc(&description);
        self.write_line(cat3("pub mod ", d.name.as_str(), " {").as_str());
        self.indent();
        let ghost b1 = self.out.deep_view();
        let body = if self.group_peripherals {
            let mut options = IsSimilarOptions::new();
            options.set_ignore_fields(!self.with_field);
            let (groups, individuals) = PeripheralsGroup::from_peripherals(&d.peripherals, &options);
            match self.generate_groups(&groups) {
                Ok(()) => self.generate_peripherals(&individuals),
                Err(e) => Err(e),
            }
        } else {
            self.generate_peripherals(&d.peripherals)
        };
        let ghost b2 = self.out.deep_view();
        assert(body is Ok ==> b2 == b1 + device_body_lines(style(start), level + 1, d.peripherals.deep_view()));
        self.deindent();
        if body.is_err() {
            return Err(CodegenError::UnsupportedFeature);
        }
        self.write_line("}");
        assert(self.out.deep_view() =~= before + device_lines(
            style(start),
            level,
            d.name@,
            d.description@,
            d.peripherals.deep_view(),
        ));
        Ok(())
    }
}

/// A register of 24 bits (or any size without a storage type) in a
/// peripheral emitted on its own makes the whole device fail.
pub proof fn lemma_unsupported_size(g: Style, ps: Seq<PeripheralModel>, i: int, k: int)
    requires
        !g.group_peripherals,
        0 <= i < ps.len(),
        0 <= k < register_list(ps[i]).len(),
        register_list(ps[i])[k] is Register,
        rust_type(register_list(ps[i])[k]->Register_0.size()) is None,
    ensures
        !device_ok(g, ps),
{
    assert(!peripheral_ok(g, ps[i]));
}

} // verus!
