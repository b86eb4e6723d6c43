//! The schema of a Rust item, as the derive computes it from the item's
//! fields, variants and serde attributes.
//!
//! The item comes as plain values (names, attributes already read, and the
//! type of each field as a schema reference); the result is the schema
//! the derive encodes into the `typewire_schemas` section, with what the
//! code generators of proxy types need besides. The code generators
//! themselves read the item with each field's type as it is declared (see
//! [`crate::item`]).

use vstd::prelude::*;

use crate::attr::{ContainerAttrs, ContainerDefault, FieldAttrs, VariantAttrs};
use crate::case::RenameAll;
use crate::expand::{
    field_wire_name, opt_view, resolve_field_rename_all, spec_field_wire_name, spec_variant_wire_name, variant_all_names,
    variant_wire_name,
};
use crate::flags::{EnumFlags, FieldFlags, StructFlags, VariantFlags};
use crate::schema::{
    Enum, EnumView, Field, FieldDefault, FieldDefaultView, FieldView, FromBody, FromProxy,
    FromProxyView, IntoProxy, IntoProxyView, Schema, SchemaView, Struct, StructShape,
    StructShapeView, StructView, Tagging, TaggingView, Transparent, TransparentView, TypeShape,
    Variant, VariantKind, VariantKindView, VariantView, schema_view, strings_view, FromBodyView,
    TypeShapeView, from_body_view, type_shape_view,
};

verus! {

// ---------------------------------------------------------------------------
// The item
// ---------------------------------------------------------------------------

/// A field of the item: its name (none for a positional field), its
/// attributes, and its type as a schema reference.
pub struct FieldInput {
    pub ident: Option<String>,
    pub attrs: FieldAttrs,
    pub ty: Box<Schema>,
}

/// The fields of a struct or of a variant.
pub enum FieldsInput {
    Named(Vec<FieldInput>),
    Unnamed(Vec<FieldInput>),
    Unit,
}

/// A variant of the item: its name, attributes and fields.
pub struct VariantInput {
    pub ident: String,
    pub attrs: VariantAttrs,
    pub fields: FieldsInput,
}

/// The body of the item.
pub enum DataInput {
    Struct(FieldsInput),
    Enum(Vec<VariantInput>),
    Union,
}

/// The item a schema is derived for.
pub struct DeriveInput {
    pub ident: String,
    /// The names of its type parameters.
    pub generics: Vec<String>,
    pub attrs: ContainerAttrs,
    pub data: DataInput,
}

/// Why no schema can be derived for an item.
#[derive(Debug, PartialEq, Eq)]
pub enum AnalyzeError {
    /// "Typewire cannot be derived for unions".
    Union,
    /// "transparent struct must have exactly one field".
    TransparentFieldCount,
    /// "transparent is not supported on enums".
    TransparentEnum,
    /// "tuple variants with more than one field cannot be used with
    /// #[serde(tag = "...")]", for the first such variant.
    TaggedTupleVariant { variant: String },
    /// "expected named field".
    UnnamedField,
    /// A `default` or `skip_serializing_if` path that does not parse as a
    /// Rust path.
    InvalidPath { path: String },
}

// ---------------------------------------------------------------------------
// Paths
// ---------------------------------------------------------------------------

/// Whether `syn` parses a string as a Rust path (`syn::Path`).
pub uninterp spec fn is_rust_path(s: Seq<char>) -> bool;

/// `syn::parse_str::<syn::Path>`, succeeding or not: the result is the
/// name `is_rust_path` of the string; the grammar of paths is left to
/// `syn`.
#[verifier::external_body]
pub(crate) fn parses_as_path(s: &str) -> (r: bool)
    ensures
        r == is_rust_path(s@),
{
    syn::parse_str::<syn::Path>(s).is_ok()
}

// ---------------------------------------------------------------------------
// Fields
// ---------------------------------------------------------------------------

/// The flags of a field.
pub open spec fn field_flag_bits(a: FieldAttrs) -> u8 {
    (if a.skip.all || a.skip.serializing {
        1u8
    } else {
        0u8
    }) | (if a.skip.all || a.skip.deserializing {
        2u8
    } else {
        0u8
    }) | (if a.flatten {
        4u8
    } else {
        0u8
    }) | (if a.encoding.base64 {
        8u8
    } else {
        0u8
    }) | (if a.encoding.display {
        16u8
    } else {
        0u8
    }) | (if a.encoding.serde_bytes {
        32u8
    } else {
        0u8
    }) | (if a.lenient {
        64u8
    } else {
        0u8
    })
}

/// Each flag of a field stands for its attribute: skipped in serialization
/// (1) for `skip` or `skip_serializing`, in deserialization (2) for `skip`
/// or `skip_deserializing`, flattened (4), base64 (8), display (16),
/// `serde_bytes` (32), lenient (64).
pub proof fn lemma_field_flags(a: FieldAttrs)
    ensures
        (field_flag_bits(a) & 1u8 == 1u8) == (a.skip.all || a.skip.serializing),
        (field_flag_bits(a) & 2u8 == 2u8) == (a.skip.all || a.skip.deserializing),
        (field_flag_bits(a) & 4u8 == 4u8) == a.flatten,
        (field_flag_bits(a) & 8u8 == 8u8) == a.encoding.base64,
        (field_flag_bits(a) & 16u8 == 16u8) == a.encoding.display,
        (field_flag_bits(a) & 32u8 == 32u8) == a.encoding.serde_bytes,
        (field_flag_bits(a) & 64u8 == 64u8) == a.lenient,
        field_flag_bits(a) < 128,
{
    let b1: u8 = if a.skip.all || a.skip.serializing { 1u8 } else { 0u8 };
    let b2: u8 = if a.skip.all || a.skip.deserializing { 2u8 } else { 0u8 };
    let b3: u8 = if a.flatten { 4u8 } else { 0u8 };
    let b4: u8 = if a.encoding.base64 { 8u8 } else { 0u8 };
    let b5: u8 = if a.encoding.display { 16u8 } else { 0u8 };
    let b6: u8 = if a.encoding.serde_bytes { 32u8 } else { 0u8 };
    let b7: u8 = if a.lenient { 64u8 } else { 0u8 };
    assert(field_flag_bits(a) == b1 | b2 | b3 | b4 | b5 | b6 | b7);
    assert({
        let x = b1 | b2 | b3 | b4 | b5 | b6 | b7;
        &&& (x & 1u8 == 1u8) == (b1 == 1u8)
        &&& (x & 2u8 == 2u8) == (b2 == 2u8)
        &&& (x & 4u8 == 4u8) == (b3 == 4u8)
        &&& (x & 8u8 == 8u8) == (b4 == 8u8)
        &&& (x & 16u8 == 16u8) == (b5 == 16u8)
        &&& (x & 32u8 == 32u8) == (b6 == 32u8)
        &&& (x & 64u8 == 64u8) == (b7 == 64u8)
        &&& x < 128
    }) by (bit_vector)
        requires
            b1 == 0u8 || b1 == 1u8,
            b2 == 0u8 || b2 == 2u8,
            b3 == 0u8 || b3 == 4u8,
            b4 == 0u8 || b4 == 8u8,
            b5 == 0u8 || b5 == 16u8,
            b6 == 0u8 || b6 == 32u8,
            b7 == 0u8 || b7 == 64u8,
    ;
}

/// How a field gets its value when it is missing: its own `default`, or
/// the container's `default` when it has none.
pub open spec fn analyzed_default(d: crate::attr::FieldDefault, container_default: bool) -> Result<
    FieldDefaultView,
    AnalyzeError,
> {
    match d {
        crate::attr::FieldDefault::NoDefault => if container_default {
            Ok(FieldDefaultView::Default)
        } else {
            Ok(FieldDefaultView::NoDefault)
        },
        crate::attr::FieldDefault::Default => Ok(FieldDefaultView::Default),
        crate::attr::FieldDefault::Path(p) => if is_rust_path(p@) {
            Ok(FieldDefaultView::Path(p@))
        } else {
            Err(AnalyzeError::InvalidPath { path: p })
        },
    }
}

/// The `skip_serializing_if` path of a field, which must parse.
pub open spec fn analyzed_skip_if(s: Option<String>) -> Result<Option<Seq<char>>, AnalyzeError> {
    match s {
        None => Ok(None),
        Some(p) => if is_rust_path(p@) {
            Ok(Some(p@))
        } else {
            Err(AnalyzeError::InvalidPath { path: p })
        },
    }
}

/// The schema of a named field: its wire name under `rename_all`, its
/// flags, aliases and default; a field without a name, or with a path
/// that does not parse, is an error (checked in that order).
pub open spec fn analyzed_field(
    f: FieldInput,
    rename_all: Option<RenameAll>,
    container_default: bool,
) -> Result<FieldView, AnalyzeError> {
    match f.ident {
        None => Err(AnalyzeError::UnnamedField),
        Some(name) => match analyzed_default(f.attrs.default, container_default) {
            Err(e) => Err(e),
            Ok(default) => match analyzed_skip_if(f.attrs.skip_serializing_if) {
                Err(e) => Err(e),
                Ok(skip_if) => Ok(
                    FieldView {
                        ident: name@,
                        ty: Box::new(schema_view(*f.ty)),
                        wire_name: spec_field_wire_name(
                            Some(name@),
                            opt_view(f.attrs.rename),
                            rename_all,
                        ),
                        flags: field_flag_bits(f.attrs),
                        aliases: strings_view(f.attrs.aliases@),
                        default,
                        skip_serializing_if: skip_if,
                    },
                ),
            },
        },
    }
}

/// The schemas of named fields, in order; the first error, if any.
#[verifier::opaque]
pub open spec fn analyzed_fields(
    fs: Seq<FieldInput>,
    rename_all: Option<RenameAll>,
    container_default: bool,
) -> Result<Seq<FieldView>, AnalyzeError>
    decreases fs.len(),
{
    if fs.len() == 0 {
        Ok(Seq::empty())
    } else {
        match analyzed_fields(fs.drop_last(), rename_all, container_default) {
            Err(e) => Err(e),
            Ok(init) => match analyzed_field(fs.last(), rename_all, container_default) {
                Err(e) => Err(e),
                Ok(f) => Ok(init.push(f)),
            },
        }
    }
}

/// The types of positional fields.
pub open spec fn field_types(fs: Seq<FieldInput>) -> Seq<SchemaView> {
    Seq::new(fs.len(), |i: int| schema_view(*fs[i].ty))
}

/// The first error of named fields stays the first of a longer list.
proof fn lemma_fields_error_prefix(
    fs: Seq<FieldInput>,
    k: int,
    rename_all: Option<RenameAll>,
    container_default: bool,
)
    requires
        0 <= k <= fs.len(),
        analyzed_fields(fs.take(k), rename_all, container_default) is Err,
    ensures
        analyzed_fields(fs, rename_all, container_default) == analyzed_fields(
            fs.take(k),
            rename_all,
            container_default,
        ),
    decreases fs.len(),
{
    reveal(analyzed_fields);
    if k == fs.len() {
        assert(fs.take(k) =~= fs);
    } else {
        assert(fs.drop_last().take(k) =~= fs.take(k));
        lemma_fields_error_prefix(fs.drop_last(), k, rename_all, container_default);
    }
}

/// One more field: the schemas so far, then its own.
proof fn lemma_fields_step(
    fs: Seq<FieldInput>,
    k: int,
    rename_all: Option<RenameAll>,
    container_default: bool,
)
    requires
        0 <= k < fs.len(),
    ensures
        analyzed_fields(fs.take(k + 1), rename_all, container_default) == match analyzed_fields(
            fs.take(k),
            rename_all,
            container_default,
        ) {
            Err(e) => Err(e),
            Ok(init) => match analyzed_field(fs[k], rename_all, container_default) {
                Err(e) => Err(e),
                Ok(f) => Ok(init.push(f)),
            },
        },
        analyzed_fields(Seq::empty(), rename_all, container_default) == Ok::<
            Seq<FieldView>,
            AnalyzeError,
        >(Seq::empty()),
{
    reveal(analyzed_fields);
    assert(fs.take(k + 1).drop_last() =~= fs.take(k));
    assert(fs.take(k + 1).last() == fs[k]);
}

/// The flags of a field, from its attributes.
fn field_flags(a: &FieldAttrs) -> (r: FieldFlags)
    ensures
        r.bits == field_flag_bits(*a),
{
    FieldFlags::from_bits_retain(
        (if a.skip_serializing() {
            FieldFlags::SKIP_SER
        } else {
            0u8
        }) | (if a.skip_deserializing() {
            FieldFlags::SKIP_DE
        } else {
            0u8
        }) | (if a.flatten {
            FieldFlags::FLATTEN
        } else {
            0u8
        }) | (if a.encoding.base64 {
            FieldFlags::BASE64
        } else {
            0u8
        }) | (if a.encoding.display {
            FieldFlags::DISPLAY
        } else {
            0u8
        }) | (if a.encoding.serde_bytes {
            FieldFlags::SERDE_BYTES
        } else {
            0u8
        }) | (if a.lenient {
            FieldFlags::LENIENT
        } else {
            0u8
        }),
    )
}

/// A copy of a list of strings.
fn clone_strings(v: &Vec<String>) -> (r: Vec<String>)
    ensures
        strings_view(r@) == strings_view(v@),
{
    let mut out: Vec<String> = Vec::new();
    let mut i: usize = 0;
    while i < v.len()
        invariant
            i <= v@.len(),
            out@.len() == i,
            forall|j: int| 0 <= j < i ==> #[trigger] out@[j]@ == v@[j]@,
        decreases v@.len() - i,
    {
        out.push(v[i].clone());
        i = i + 1;
    }
    assert(strings_view(out@) =~= strings_view(v@));
    out
}

/// The schema of a named field.
fn analyze_field(f: FieldInput, rename_all: Option<RenameAll>, container_default: bool) -> (r:
    Result<Field, AnalyzeError>)
    ensures
        match analyzed_field(f, rename_all, container_default) {
            Ok(v) => r matches Ok(x) && crate::schema::field_view(x) == v,
            Err(e) => r == Err::<Field, AnalyzeError>(e),
        },
{
    let FieldInput { ident, attrs, ty } = f;
    let name = match ident {
        Some(n) => n,
        None => return Err(AnalyzeError::UnnamedField),
    };
    let default = match &attrs.default {
        crate::attr::FieldDefault::NoDefault => if container_default {
            FieldDefault::Default
        } else {
            FieldDefault::NoDefault
        },
        crate::attr::FieldDefault::Default => FieldDefault::Default,
        crate::attr::FieldDefault::Path(p) => {
            if parses_as_path(p.as_str()) {
                FieldDefault::Path(p.clone())
            } else {
                return Err(AnalyzeError::InvalidPath { path: p.clone() });
            }
        },
    };
    let skip_serializing_if = match &attrs.skip_serializing_if {
        None => None,
        Some(p) => {
            if parses_as_path(p.as_str()) {
                Some(p.clone())
            } else {
                return Err(AnalyzeError::InvalidPath { path: p.clone() });
            }
        },
    };
    let wire_name = field_wire_name(Some(name.as_str()), &attrs, rename_all);
    let flags = field_flags(&attrs);
    let aliases = clone_strings(&attrs.aliases);
    Ok(Field { ident: name, ty, wire_name, flags, aliases, default, skip_serializing_if })
}

/// The schemas of named fields, in order.
fn analyze_named_fields(
    fields: Vec<FieldInput>,
    rename_all: Option<RenameAll>,
    container_default: bool,
) -> (r: Result<Vec<Field>, AnalyzeError>)
    ensures
        match analyzed_fields(fields@, rename_all, container_default) {
            Ok(v) => r matches Ok(x) && crate::schema::fields_view(x@) == v,
            Err(e) => r == Err::<Vec<Field>, AnalyzeError>(e),
        },
{
    let ghost orig = fields@;
    let mut rest = fields;
    let mut out: Vec<Field> = Vec::new();
    let mut k: usize = 0;
    let total = rest.len();
    proof {
        assert(orig.take(0) =~= Seq::<FieldInput>::empty());
        assert(orig.skip(0) =~= orig);
        if orig.len() > 0 {
            lemma_fields_step(orig, 0, rename_all, container_default);
        } else {
            reveal(analyzed_fields);
        }
    }
    while rest.len() > 0
        invariant
            k <= orig.len(),
            orig.len() == total,
            orig == fields@,
            rest@ == orig.skip(k as int),
            analyzed_fields(orig.take(k as int), rename_all, container_default) == Ok::<
                Seq<FieldView>,
                AnalyzeError,
            >(crate::schema::fields_view(out@)),
        decreases rest@.len(),
    {
        let f = rest.remove(0);
        assert(f == orig[k as int]);
        proof {
            lemma_fields_step(orig, k as int, rename_all, container_default);
        }
        assert(rest@ =~= orig.skip(k + 1));
        let ghost before = out@;
        match analyze_field(f, rename_all, container_default) {
            Ok(x) => {
                out.push(x);
                proof {
                    crate::schema::lemma_fields_view(out@);
                    crate::schema::lemma_fields_view(before);
                    assert(crate::schema::fields_view(out@) =~= crate::schema::fields_view(
                        before,
                    ).push(crate::schema::field_view(x)));
                }
            },
            Err(e) => {
                proof {
                    lemma_fields_error_prefix(orig, k + 1, rename_all, container_default);
                }
                return Err(e);
            },
        }
        k = k + 1;
    }
    assert(orig.take(k as int) =~= orig);
    Ok(out)
}

/// The types of positional fields.
fn unnamed_types(fields: Vec<FieldInput>) -> (r: Vec<Box<Schema>>)
    ensures
        crate::schema::tys_view(r@) == field_types(fields@),
{
    let ghost orig = fields@;
    let mut rest = fields;
    let mut out: Vec<Box<Schema>> = Vec::new();
    let mut k: usize = 0;
    let total = rest.len();
    assert(orig.skip(0) =~= orig);
    while rest.len() > 0
        invariant
            k <= orig.len(),
            orig.len() == total,
            rest@ == orig.skip(k as int),
            out@.len() == k,
            forall|j: int| 0 <= j < k ==> schema_view(*#[trigger] out@[j]) == schema_view(*orig[j].ty),
        decreases rest@.len(),
    {
        let f = rest.remove(0);
        assert(f == orig[k as int]);
        assert(rest@ =~= orig.skip(k + 1));
        out.push(f.ty);
        k = k + 1;
    }
    proof {
        crate::schema::lemma_tys_view(out@);
        assert(crate::schema::tys_view(out@) =~= field_types(orig));
    }
    out
}

// ---------------------------------------------------------------------------
// Structs
// ---------------------------------------------------------------------------

/// The flags of a struct.
pub open spec fn struct_flag_bits(c: ContainerAttrs) -> u8 {
    (if c.diffable.atomic {
        1u8
    } else {
        0u8
    }) | (if c.default == ContainerDefault::Default {
        2u8
    } else {
        0u8
    }) | (if c.deny_unknown_fields {
        4u8
    } else {
        0u8
    })
}

/// The schema of a struct: named fields under the container's
/// `rename_all` and `default`, positional fields by type, or none.
pub open spec fn analyzed_struct(
    ident: String,
    generics: Seq<String>,
    c: ContainerAttrs,
    fields: FieldsInput,
) -> Result<StructView, AnalyzeError> {
    let shape: Result<StructShapeView, AnalyzeError> = match fields {
        FieldsInput::Named(fs) => match analyzed_fields(
            fs@,
            c.rename_all,
            c.default == ContainerDefault::Default,
        ) {
            Ok(v) => Ok(StructShapeView::Named(v)),
            Err(e) => Err(e),
        },
        FieldsInput::Unnamed(fs) => Ok(StructShapeView::Tuple(field_types(fs@))),
        FieldsInput::Unit => Ok(StructShapeView::Unit),
    };
    match shape {
        Ok(sh) => Ok(
            StructView {
                ident: ident@,
                generics: strings_view(generics),
                flags: struct_flag_bits(c),
                shape: sh,
            },
        ),
        Err(e) => Err(e),
    }
}

/// The schema of a struct.
fn analyze_struct_shape(
    ident: String,
    generics: Vec<String>,
    c: &ContainerAttrs,
    fields: FieldsInput,
) -> (r: Result<Struct, AnalyzeError>)
    ensures
        match analyzed_struct(ident, generics@, *c, fields) {
            Ok(v) => r matches Ok(x) && crate::schema::struct_view(x) == v,
            Err(e) => r == Err::<Struct, AnalyzeError>(e),
        },
{
    let container_default = match c.default {
        ContainerDefault::Default => true,
        ContainerDefault::NoDefault => false,
    };
    let flags = StructFlags::from_bits_retain(
        (if c.diffable.atomic {
            StructFlags::ATOMIC
        } else {
            0u8
        }) | (if container_default {
            StructFlags::CONTAINER_DEFAULT
        } else {
            0u8
        }) | (if c.deny_unknown_fields {
            StructFlags::DENY_UNKNOWN_FIELDS
        } else {
            0u8
        }),
    );
    let shape = match fields {
        FieldsInput::Named(fs) => match analyze_named_fields(fs, c.rename_all, container_default) {
            Ok(v) => StructShape::Named(v),
            Err(e) => return Err(e),
        },
        FieldsInput::Unnamed(fs) => StructShape::Tuple(unnamed_types(fs)),
        FieldsInput::Unit => StructShape::Unit,
    };
    Ok(Struct { ident, generics, flags, shape })
}

/// The schema of a transparent struct: its one field; another number of
/// fields is an error.
pub open spec fn analyzed_transparent(
    ident: String,
    generics: Seq<String>,
    c: ContainerAttrs,
    fields: FieldsInput,
) -> Result<TransparentView, AnalyzeError> {
    let fs: Seq<FieldInput> = match fields {
        FieldsInput::Named(fs) => fs@,
        FieldsInput::Unnamed(fs) => fs@,
        FieldsInput::Unit => Seq::empty(),
    };
    if fs.len() == 1 {
        Ok(
            TransparentView {
                ident: ident@,
                generics: strings_view(generics),
                atomic: c.diffable.atomic,
                field_ident: opt_view(fs[0].ident),
                field_ty: Box::new(schema_view(*fs[0].ty)),
            },
        )
    } else {
        Err(AnalyzeError::TransparentFieldCount)
    }
}

/// The schema of a transparent struct.
fn analyze_transparent(
    ident: String,
    generics: Vec<String>,
    c: &ContainerAttrs,
    fields: FieldsInput,
) -> (r: Result<Transparent, AnalyzeError>)
    ensures
        match analyzed_transparent(ident, generics@, *c, fields) {
            Ok(v) => r matches Ok(x) && (crate::schema::schema_view(Schema::Transparent(x))
                == SchemaView::Transparent(v)),
            Err(e) => r == Err::<Transparent, AnalyzeError>(e),
        },
{
    let mut fs = match fields {
        FieldsInput::Named(fs) => fs,
        FieldsInput::Unnamed(fs) => fs,
        FieldsInput::Unit => Vec::new(),
    };
    if fs.len() != 1 {
        return Err(AnalyzeError::TransparentFieldCount);
    }
    let f = fs.remove(0);
    Ok(
        Transparent {
            ident,
            generics,
            atomic: c.diffable.atomic,
            field_ident: f.ident,
            field_ty: f.ty,
        },
    )
}

// ---------------------------------------------------------------------------
// Variants
// ---------------------------------------------------------------------------

/// The flags of a variant.
pub open spec fn variant_flag_bits(a: VariantAttrs) -> u8 {
    (if a.skip.all || a.skip.serializing {
        1u8
    } else {
        0u8
    }) | (if a.skip.all || a.skip.deserializing {
        2u8
    } else {
        0u8
    }) | (if a.other {
        4u8
    } else {
        0u8
    }) | (if a.untagged {
        8u8
    } else {
        0u8
    })
}

/// The case of the fields inside a variant: the variant's `rename_all`,
/// else the container's `rename_all_fields`.
pub open spec fn variant_fields_case(v: VariantAttrs, c: ContainerAttrs) -> Option<RenameAll> {
    match v.rename_all {
        Some(r) => Some(r),
        None => c.rename_all_fields,
    }
}

/// The schema of a variant: its wire name under the container's
/// `rename_all`, its names with aliases, flags, and payload.
pub open spec fn analyzed_variant(v: VariantInput, c: ContainerAttrs) -> Result<
    VariantView,
    AnalyzeError,
> {
    let wire = spec_variant_wire_name(v.ident@, opt_view(v.attrs.rename), c.rename_all);
    let kind: Result<VariantKindView, AnalyzeError> = match v.fields {
        FieldsInput::Unit => Ok(VariantKindView::Unit),
        FieldsInput::Named(fs) => match analyzed_fields(
            fs@,
            variant_fields_case(v.attrs, c),
            false,
        ) {
            Ok(x) => Ok(VariantKindView::Named(x)),
            Err(e) => Err(e),
        },
        FieldsInput::Unnamed(fs) => Ok(VariantKindView::Unnamed(field_types(fs@))),
    };
    match kind {
        Ok(k) => Ok(
            VariantView {
                ident: v.ident@,
                wire_name: wire,
                all_wire_names: seq![wire] + strings_view(v.attrs.aliases@),
                flags: variant_flag_bits(v.attrs),
                kind: k,
            },
        ),
        Err(e) => Err(e),
    }
}

/// The schemas of variants, in order; the first error, if any.
#[verifier::opaque]
pub open spec fn analyzed_variants(vs: Seq<VariantInput>, c: ContainerAttrs) -> Result<
    Seq<VariantView>,
    AnalyzeError,
>
    decreases vs.len(),
{
    if vs.len() == 0 {
        Ok(Seq::empty())
    } else {
        match analyzed_variants(vs.drop_last(), c) {
            Err(e) => Err(e),
            Ok(init) => match analyzed_variant(vs.last(), c) {
                Err(e) => Err(e),
                Ok(v) => Ok(init.push(v)),
            },
        }
    }
}

proof fn lemma_variants_step(vs: Seq<VariantInput>, k: int, c: ContainerAttrs)
    requires
        0 <= k < vs.len(),
    ensures
        analyzed_variants(vs.take(k + 1), c) == match analyzed_variants(vs.take(k), c) {
            Err(e) => Err(e),
            Ok(init) => match analyzed_variant(vs[k], c) {
                Err(e) => Err(e),
                Ok(v) => Ok(init.push(v)),
            },
        },
{
    reveal(analyzed_variants);
    assert(vs.take(k + 1).drop_last() =~= vs.take(k));
    assert(vs.take(k + 1).last() == vs[k]);
}

proof fn lemma_variants_empty(c: ContainerAttrs)
    ensures
        analyzed_variants(Seq::empty(), c) == Ok::<Seq<VariantView>, AnalyzeError>(Seq::empty()),
{
    reveal(analyzed_variants);
}

proof fn lemma_variants_error_prefix(vs: Seq<VariantInput>, k: int, c: ContainerAttrs)
    requires
        0 <= k <= vs.len(),
        analyzed_variants(vs.take(k), c) is Err,
    ensures
        analyzed_variants(vs, c) == analyzed_variants(vs.take(k), c),
    decreases vs.len(),
{
    reveal(analyzed_variants);
    if k == vs.len() {
        assert(vs.take(k) =~= vs);
    } else {
        assert(vs.drop_last().take(k) =~= vs.take(k));
        lemma_variants_error_prefix(vs.drop_last(), k, c);
    }
}

/// The schema of a variant.
fn analyze_variant(v: VariantInput, c: &ContainerAttrs) -> (r: Result<Variant, AnalyzeError>)
    ensures
        match analyzed_variant(v, *c) {
            Ok(x) => r matches Ok(y) && crate::schema::variant_view(y) == x,
            Err(e) => r == Err::<Variant, AnalyzeError>(e),
        },
{
    let VariantInput { ident, attrs, fields } = v;
    let wire_name = variant_wire_name(ident.as_str(), &attrs, c.rename_all);
    let all_wire_names = variant_all_names(wire_name.as_str(), &attrs);
    let flags = VariantFlags::from_bits_retain(
        (if attrs.skip_serializing() {
            VariantFlags::SKIP_SER
        } else {
            0u8
        }) | (if attrs.skip_deserializing() {
            VariantFlags::SKIP_DE
        } else {
            0u8
        }) | (if attrs.other {
            VariantFlags::OTHER
        } else {
            0u8
        }) | (if attrs.untagged {
            VariantFlags::UNTAGGED
        } else {
            0u8
        }),
    );
    let rename_all = resolve_field_rename_all(&attrs, c);
    let kind = match fields {
        FieldsInput::Unit => VariantKind::Unit,
        FieldsInput::Named(fs) => match analyze_named_fields(fs, rename_all, false) {
            Ok(x) => VariantKind::Named(x),
            Err(e) => return Err(e),
        },
        FieldsInput::Unnamed(fs) => VariantKind::Unnamed(unnamed_types(fs)),
    };
    Ok(Variant { ident, wire_name, all_wire_names, flags, kind })
}

/// The schemas of variants, in order.
fn analyze_variants(variants: Vec<VariantInput>, c: &ContainerAttrs) -> (r: Result<
    Vec<Variant>,
    AnalyzeError,
>)
    ensures
        match analyzed_variants(variants@, *c) {
            Ok(v) => r matches Ok(x) && crate::schema::variants_view(x@) == v,
            Err(e) => r == Err::<Vec<Variant>, AnalyzeError>(e),
        },
{
    let ghost orig = variants@;
    let mut rest = variants;
    let mut out: Vec<Variant> = Vec::new();
    let mut k: usize = 0;
    let total = rest.len();
    proof {
        assert(orig.take(0) =~= Seq::<VariantInput>::empty());
        assert(orig.skip(0) =~= orig);
        lemma_variants_empty(*c);
    }
    while rest.len() > 0
        invariant
            k <= orig.len(),
            orig.len() == total,
            orig == variants@,
            rest@ == orig.skip(k as int),
            analyzed_variants(orig.take(k as int), *c) == Ok::<Seq<VariantView>, AnalyzeError>(
                crate::schema::variants_view(out@),
            ),
        decreases rest@.len(),
    {
        let v = rest.remove(0);
        assert(v == orig[k as int]);
        proof {
            lemma_variants_step(orig, k as int, *c);
        }
        assert(rest@ =~= orig.skip(k + 1));
        let ghost before = out@;
        match analyze_variant(v, c) {
            Ok(x) => {
                out.push(x);
                proof {
                    crate::schema::lemma_variants_view(out@);
                    crate::schema::lemma_variants_view(before);
                    assert(crate::schema::variants_view(out@) =~= crate::schema::variants_view(
                        before,
                    ).push(crate::schema::variant_view(x)));
                }
            },
            Err(e) => {
                proof {
                    lemma_variants_error_prefix(orig, k + 1, *c);
                }
                return Err(e);
            },
        }
        k = k + 1;
    }
    assert(orig.take(k as int) =~= orig);
    Ok(out)
}

// ---------------------------------------------------------------------------
// Enums
// ---------------------------------------------------------------------------

/// Whether a variant has more than one positional field.
pub open spec fn multi_field_tuple(v: VariantInput) -> bool {
    v.fields matches FieldsInput::Unnamed(fs) && fs@.len() > 1
}

/// The name of the first variant with more than one positional field.
pub open spec fn first_multi_field_tuple(vs: Seq<VariantInput>) -> Option<String>
    decreases vs.len(),
{
    if vs.len() == 0 {
        None
    } else {
        match first_multi_field_tuple(vs.drop_last()) {
            Some(name) => Some(name),
            None => if multi_field_tuple(vs.last()) {
                Some(vs.last().ident)
            } else {
                None
            },
        }
    }
}

/// Whether every variant is a unit variant.
pub open spec fn all_unit(vs: Seq<VariantInput>) -> bool {
    forall|i: int| 0 <= i < vs.len() ==> #[trigger] vs[i].fields is Unit
}

/// The flags of an enum.
pub open spec fn enum_flag_bits(c: ContainerAttrs, vs: Seq<VariantInput>) -> u8 {
    (if c.diffable.atomic {
        1u8
    } else {
        0u8
    }) | (if all_unit(vs) {
        2u8
    } else {
        0u8
    })
}

/// The tagging of an enum: adjacent with a tag and a content key,
/// internal with a tag alone, else untagged if asked, else external.
pub open spec fn tagging_for(c: ContainerAttrs) -> TaggingView {
    match (c.tag, c.content) {
        (Some(tag), Some(content)) => TaggingView::Adjacent { tag: tag@, content: content@ },
        (Some(tag), None) => TaggingView::Internal { tag: tag@ },
        (None, _) => if c.untagged {
            TaggingView::Untagged
        } else {
            TaggingView::External
        },
    }
}

/// The schema of an enum. An internally tagged enum (a tag without a
/// content key) cannot have a variant with more than one positional field:
/// the first such variant is the error.
pub open spec fn analyzed_enum(
    ident: String,
    generics: Seq<String>,
    c: ContainerAttrs,
    vs: Seq<VariantInput>,
) -> Result<EnumView, AnalyzeError> {
    if c.tag is Some && c.content is None && first_multi_field_tuple(vs) is Some {
        Err(AnalyzeError::TaggedTupleVariant { variant: first_multi_field_tuple(vs)->0 })
    } else {
        match analyzed_variants(vs, c) {
            Ok(variants) => Ok(
                EnumView {
                    ident: ident@,
                    generics: strings_view(generics),
                    flags: enum_flag_bits(c, vs),
                    tagging: tagging_for(c),
                    variants,
                },
            ),
            Err(e) => Err(e),
        }
    }
}

/// The name of the first variant with more than one positional field, and
/// whether every variant is a unit variant.
fn scan_variants(vs: &Vec<VariantInput>) -> (r: (Option<String>, bool))
    ensures
        r.0 == first_multi_field_tuple(vs@),
        r.1 == all_unit(vs@),
{
    let mut first: Option<String> = None;
    let mut unit = true;
    let mut i: usize = 0;
    assert(vs@.take(0) =~= Seq::<VariantInput>::empty());
    while i < vs.len()
        invariant
            i <= vs@.len(),
            first == first_multi_field_tuple(vs@.take(i as int)),
            unit == all_unit(vs@.take(i as int)),
        decreases vs@.len() - i,
    {
        let v = &vs[i];
        assert(vs@.take(i + 1).drop_last() =~= vs@.take(i as int));
        assert(vs@.take(i + 1).last() == vs@[i as int]);
        let multi = match &v.fields {
            FieldsInput::Unnamed(fs) => fs.len() > 1,
            _ => false,
        };
        if first.is_none() && multi {
            first = Some(v.ident.clone());
        }
        let is_unit = match &v.fields {
            FieldsInput::Unit => true,
            _ => false,
        };
        proof {
            let t = vs@.take(i + 1);
            if all_unit(t) {
                assert(t[i as int] == vs@[i as int]);
                assert forall|j: int| 0 <= j < i implies #[trigger] vs@.take(i as int)[j].fields is Unit by {
                    assert(t[j] == vs@.take(i as int)[j]);
                }
            }
            if unit && is_unit {
                assert forall|j: int| 0 <= j < i + 1 implies #[trigger] t[j].fields is Unit by {
                    if j < i {
                        assert(t[j] == vs@.take(i as int)[j]);
                    }
                }
            }
        }
        unit = unit && is_unit;
        i = i + 1;
    }
    assert(vs@.take(vs@.len() as int) =~= vs@);
    (first, unit)
}

/// The schema of an enum.
fn analyze_enum_shape(
    ident: String,
    generics: Vec<String>,
    c: &ContainerAttrs,
    variants: Vec<VariantInput>,
) -> (r: Result<Enum, AnalyzeError>)
    ensures
        match analyzed_enum(ident, generics@, *c, variants@) {
            Ok(v) => r matches Ok(x) && crate::schema::enum_view(x) == v,
            Err(e) => r == Err::<Enum, AnalyzeError>(e),
        },
{
    let (first_multi, every_unit) = scan_variants(&variants);
    if c.tag.is_some() && c.content.is_none() {
        if let Some(name) = first_multi {
            return Err(AnalyzeError::TaggedTupleVariant { variant: name });
        }
    }
    let flags = EnumFlags::from_bits_retain(
        (if c.diffable.atomic {
            EnumFlags::ATOMIC
        } else {
            0u8
        }) | (if every_unit {
            EnumFlags::ALL_UNIT
        } else {
            0u8
        }),
    );
    let tagging = match (&c.tag, &c.content) {
        (Some(tag), Some(content)) => Tagging::Adjacent { tag: tag.clone(), content: content.clone() },
        (Some(tag), None) => Tagging::Internal { tag: tag.clone() },
        (None, _) => if c.untagged {
            Tagging::Untagged
        } else {
            Tagging::External
        },
    };
    let ghost vs = variants@;
    let analyzed = match analyze_variants(variants, c) {
        Ok(v) => v,
        Err(e) => return Err(e),
    };
    let r = Enum { ident, generics, flags, tagging, variants: analyzed };
    assert(crate::schema::tagging_view(r.tagging) == tagging_for(*c));
    Ok(r)
}

// ---------------------------------------------------------------------------
// The item
// ---------------------------------------------------------------------------

/// What the derive computes for an item: the schema it encodes, with what
/// the code generators of proxy types need besides (how an `into` type is
/// deserialized, and the own shape of a `from` type).
#[derive(Debug, PartialEq, Eq)]
pub enum Derived {
    Struct(Struct),
    Transparent(Transparent),
    Enum(Enum),
    IntoProxy(IntoProxy, FromBody),
    FromProxy(FromProxy, TypeShape),
}

pub enum DerivedView {
    Struct(StructView),
    Transparent(TransparentView),
    Enum(EnumView),
    IntoProxy(IntoProxyView, FromBodyView),
    FromProxy(FromProxyView, TypeShapeView),
}

pub open spec fn derived_view(d: Derived) -> DerivedView {
    match d {
        Derived::Struct(st) => DerivedView::Struct(crate::schema::struct_view(st)),
        Derived::Transparent(t) => match schema_view(Schema::Transparent(t)) {
            SchemaView::Transparent(v) => DerivedView::Transparent(v),
            _ => DerivedView::Struct(arbitrary()),
        },
        Derived::Enum(e) => DerivedView::Enum(crate::schema::enum_view(e)),
        Derived::IntoProxy(p, b) => match schema_view(Schema::IntoProxy(p)) {
            SchemaView::IntoProxy(v) => DerivedView::IntoProxy(v, from_body_view(b)),
            _ => DerivedView::Struct(arbitrary()),
        },
        Derived::FromProxy(p, t) => match schema_view(Schema::FromProxy(p)) {
            SchemaView::FromProxy(v) => DerivedView::FromProxy(v, type_shape_view(t)),
            _ => DerivedView::Struct(arbitrary()),
        },
    }
}

/// The schema that the section carries for a derived item.
pub open spec fn derived_schema(d: DerivedView) -> SchemaView {
    match d {
        DerivedView::Struct(st) => SchemaView::Struct(st),
        DerivedView::Transparent(t) => SchemaView::Transparent(t),
        DerivedView::Enum(e) => SchemaView::Enum(e),
        DerivedView::IntoProxy(p, _) => SchemaView::IntoProxy(p),
        DerivedView::FromProxy(p, _) => SchemaView::FromProxy(p),
    }
}

impl Derived {
    /// The schema that the section carries.
    pub fn into_schema(self) -> (r: Schema)
        ensures
            r@ == derived_schema(derived_view(self)),
    {
        proof {
            reveal_with_fuel(schema_view, 2);
        }
        match self {
            Derived::Struct(st) => Schema::Struct(st),
            Derived::Transparent(t) => Schema::Transparent(t),
            Derived::Enum(e) => Schema::Enum(e),
            Derived::IntoProxy(p, _) => Schema::IntoProxy(p),
            Derived::FromProxy(p, _) => Schema::FromProxy(p),
        }
    }
}

/// The own shape of an item (its struct or enum schema, transparency
/// aside); a union has none.
pub open spec fn analyzed_type_shape(
    ident: String,
    generics: Seq<String>,
    c: ContainerAttrs,
    data: DataInput,
) -> Result<TypeShapeView, AnalyzeError> {
    match data {
        DataInput::Struct(fields) => match analyzed_struct(ident, generics, c, fields) {
            Ok(st) => Ok(TypeShapeView::Struct(st)),
            Err(e) => Err(e),
        },
        DataInput::Enum(vs) => match analyzed_enum(ident, generics, c, vs@) {
            Ok(e) => Ok(TypeShapeView::Enum(e)),
            Err(e) => Err(e),
        },
        DataInput::Union => Err(AnalyzeError::Union),
    }
}

/// The schema of an item: an `into` proxy first (deserialized through its
/// `from` or `try_from` proxy, else from its own shape), then a `from`
/// proxy, then a `try_from` proxy; otherwise a transparent struct, a
/// struct, or an enum. A union, and a transparent enum, are errors.
pub open spec fn analyzed(input: DeriveInput) -> Result<DerivedView, AnalyzeError> {
    let c = input.attrs;
    let generics = strings_view(input.generics@);
    let own = analyzed_type_shape(input.ident, input.generics@, c, input.data);
    if c.into is Some {
        let p = IntoProxyView {
            ident: input.ident@,
            generics,
            into_ty: Box::new(SchemaView::Native(c.into->0@)),
        };
        match (c.from, c.try_from) {
            (Some(f), _) => Ok(DerivedView::IntoProxy(p, FromBodyView::Proxy(f@))),
            (None, Some(f)) => Ok(DerivedView::IntoProxy(p, FromBodyView::TryProxy(f@))),
            (None, None) => match own {
                Ok(t) => Ok(DerivedView::IntoProxy(p, FromBodyView::Own(t))),
                Err(e) => Err(e),
            },
        }
    } else if c.from is Some || c.try_from is Some {
        let (proxy, is_try) = match c.from {
            Some(f) => (f, false),
            None => (c.try_from->0, true),
        };
        match own {
            Ok(t) => Ok(
                DerivedView::FromProxy(
                    FromProxyView {
                        ident: input.ident@,
                        generics,
                        proxy: Box::new(SchemaView::Native(proxy@)),
                        is_try,
                    },
                    t,
                ),
            ),
            Err(e) => Err(e),
        }
    } else {
        match input.data {
            DataInput::Struct(fields) => if c.transparent {
                match analyzed_transparent(input.ident, input.generics@, c, fields) {
                    Ok(t) => Ok(DerivedView::Transparent(t)),
                    Err(e) => Err(e),
                }
            } else {
                match analyzed_struct(input.ident, input.generics@, c, fields) {
                    Ok(st) => Ok(DerivedView::Struct(st)),
                    Err(e) => Err(e),
                }
            },
            DataInput::Enum(vs) => if c.transparent {
                Err(AnalyzeError::TransparentEnum)
            } else {
                match analyzed_enum(input.ident, input.generics@, c, vs@) {
                    Ok(e) => Ok(DerivedView::Enum(e)),
                    Err(e) => Err(e),
                }
            },
            DataInput::Union => Err(AnalyzeError::Union),
        }
    }
}

/// The own shape of an item.
fn build_type_shape(ident: String, generics: Vec<String>, c: &ContainerAttrs, data: DataInput) -> (r:
    Result<TypeShape, AnalyzeError>)
    ensures
        match analyzed_type_shape(ident, generics@, *c, data) {
            Ok(v) => r matches Ok(x) && type_shape_view(x) == v,
            Err(e) => r == Err::<TypeShape, AnalyzeError>(e),
        },
{
    match data {
        DataInput::Struct(fields) => match analyze_struct_shape(ident, generics, c, fields) {
            Ok(st) => Ok(TypeShape::Struct(st)),
            Err(e) => Err(e),
        },
        DataInput::Enum(vs) => match analyze_enum_shape(ident, generics, c, vs) {
            Ok(e) => Ok(TypeShape::Enum(e)),
            Err(e) => Err(e),
        },
        DataInput::Union => Err(AnalyzeError::Union),
    }
}

/// The schema of an item, from its fields, variants and attributes.
pub fn analyze(input: DeriveInput) -> (r: Result<Derived, AnalyzeError>)
    ensures
        match analyzed(input) {
            Ok(v) => r matches Ok(x) && derived_view(x) == v,
            Err(e) => r == Err::<Derived, AnalyzeError>(e),
        },
{
    proof {
        reveal_with_fuel(schema_view, 2);
    }
    let DeriveInput { ident, generics, attrs, data } = input;
    if let Some(into) = &attrs.into {
        let into_ty = Box::new(Schema::Native(into.clone()));
        let from_body = if let Some(p) = &attrs.from {
            FromBody::Proxy(p.clone())
        } else if let Some(p) = &attrs.try_from {
            FromBody::TryProxy(p.clone())
        } else {
            match build_type_shape(ident.clone(), clone_strings(&generics), &attrs, data) {
                Ok(t) => FromBody::Own(t),
                Err(e) => return Err(e),
            }
        };
        return Ok(Derived::IntoProxy(IntoProxy { ident, generics, into_ty }, from_body));
    }
    let proxy = if let Some(p) = &attrs.from {
        Some((p.clone(), false))
    } else if let Some(p) = &attrs.try_from {
        Some((p.clone(), true))
    } else {
        None
    };
    if let Some((path, is_try)) = proxy {
        let own_shape = match build_type_shape(ident.clone(), clone_strings(&generics), &attrs, data) {
            Ok(t) => t,
            Err(e) => return Err(e),
        };
        let proxy = Box::new(Schema::Native(path));
        return Ok(Derived::FromProxy(FromProxy { ident, generics, proxy, is_try }, own_shape));
    }
    match data {
        DataInput::Struct(fields) => {
            if attrs.transparent {
                match analyze_transparent(ident, generics, &attrs, fields) {
                    Ok(t) => Ok(Derived::Transparent(t)),
                    Err(e) => Err(e),
                }
            } else {
                match analyze_struct_shape(ident, generics, &attrs, fields) {
                    Ok(st) => Ok(Derived::Struct(st)),
                    Err(e) => Err(e),
                }
            }
        },
        DataInput::Enum(vs) => {
            if attrs.transparent {
                Err(AnalyzeError::TransparentEnum)
            } else {
                match analyze_enum_shape(ident, generics, &attrs, vs) {
                    Ok(e) => Ok(Derived::Enum(e)),
                    Err(e) => Err(e),
                }
            }
        },
        DataInput::Union => Err(AnalyzeError::Union),
    }
}

} // verus!
