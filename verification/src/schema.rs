use vstd::prelude::*;

use crate::flags::{EnumFlags, FieldFlags, StructFlags, VariantFlags};
use crate::scalar::Scalar;

verus! {

// ---------------------------------------------------------------------------
// Executable schema types (owned data, as reconstructed from a section)
// ---------------------------------------------------------------------------

/// The root schema node: a type definition, or a reference to a type.
#[derive(Debug, Hash, PartialEq, Eq)]
pub enum Schema {
    /// Named type reference (not a definition).
    Native(String),
    /// Leaf type: bool, u32, String, Uuid, ...
    Primitive(Scalar),
    /// `Option<T>`.
    Option(Box<Schema>),
    /// `Vec<T>`, `IndexSet<T>`.
    Sequence(Box<Schema>),
    /// `HashMap<K, V>`, `BTreeMap<K, V>`, `IndexMap<K, V>`.
    Mapping { key: Box<Schema>, value: Box<Schema> },
    /// `Box<T>`.
    Box(Box<Schema>),
    /// `(A, B, ...)`: a tuple type reference.
    Tuple(Vec<Box<Schema>>),
    /// Skipped field: the type is unavailable.
    Skipped,
    /// Named, tuple or unit struct.
    Struct(Struct),
    /// `#[serde(transparent)]` newtype.
    Transparent(Transparent),
    /// Enum, under any tagging strategy.
    Enum(Enum),
    /// `#[serde(into = "X")]`.
    IntoProxy(IntoProxy),
    /// `#[serde(from = "X")]` or `#[serde(try_from = "X")]`.
    FromProxy(FromProxy),
}

/// How a field's default value is provided when the field is absent.
#[derive(Clone, Debug, Default, Hash, PartialEq, Eq)]
pub enum FieldDefault {
    /// No default: the field is required.
    #[default]
    NoDefault,
    /// `Default::default()`.
    Default,
    /// A specific function path.
    Path(String),
}

/// A struct or variant field with its metadata.
#[derive(Debug, Hash, PartialEq, Eq)]
pub struct Field {
    /// The Rust field name.
    pub ident: String,
    /// The field's type, as a schema reference.
    pub ty: Box<Schema>,
    /// The wire name after `rename` / `rename_all`.
    pub wire_name: String,
    /// Attribute flags.
    pub flags: FieldFlags,
    /// Additional accepted names (`alias`).
    pub aliases: Vec<String>,
    /// How the default value is provided.
    pub default: FieldDefault,
    /// Path of `skip_serializing_if`.
    pub skip_serializing_if: Option<String>,
}

/// The body of a struct.
#[derive(Debug, Hash, PartialEq, Eq)]
pub enum StructShape {
    /// Named fields.
    Named(Vec<Field>),
    /// Positional fields.
    Tuple(Vec<Box<Schema>>),
    /// No fields.
    Unit,
}

/// A struct type's metadata.
#[derive(Debug, Hash, PartialEq, Eq)]
pub struct Struct {
    pub ident: String,
    pub generics: Vec<String>,
    pub flags: StructFlags,
    pub shape: StructShape,
}

/// A `#[serde(transparent)]` newtype: its wire form is its inner field's.
#[derive(Debug, Hash, PartialEq, Eq)]
pub struct Transparent {
    pub ident: String,
    pub generics: Vec<String>,
    /// Whether patching is atomic.
    pub atomic: bool,
    /// `Some` for a named field, `None` for a tuple field.
    pub field_ident: Option<String>,
    /// The inner field's type.
    pub field_ty: Box<Schema>,
}

/// Serde enum tagging strategy.
#[derive(Clone, Debug, Hash, PartialEq, Eq)]
pub enum Tagging {
    /// `{ "Variant": payload }`.
    External,
    /// `{ tag: "Variant", ...fields }`.
    Internal { tag: String },
    /// `{ tag: "Variant", content: payload }`.
    Adjacent { tag: String, content: String },
    /// No tag: matched by content.
    Untagged,
}

/// The payload shape of an enum variant.
#[derive(Debug, Hash, PartialEq, Eq)]
pub enum VariantKind {
    Unit,
    Named(Vec<Field>),
    Unnamed(Vec<Box<Schema>>),
}

/// An enum variant with its metadata.
#[derive(Debug, Hash, PartialEq, Eq)]
pub struct Variant {
    pub ident: String,
    /// The primary wire name.
    pub wire_name: String,
    /// The primary wire name followed by every alias.
    pub all_wire_names: Vec<String>,
    pub flags: VariantFlags,
    pub kind: VariantKind,
}

/// An enum type's metadata.
#[derive(Debug, Hash, PartialEq, Eq)]
pub struct Enum {
    pub ident: String,
    pub generics: Vec<String>,
    pub flags: EnumFlags,
    pub tagging: Tagging,
    pub variants: Vec<Variant>,
}

/// The struct/enum shape of a type, used by proxy code generation.
#[derive(Debug, Hash, PartialEq, Eq)]
pub enum TypeShape {
    Struct(Struct),
    Enum(Enum),
}

/// How deserialization is resolved for a type with `into = "X"`.
#[derive(Debug, Hash, PartialEq, Eq)]
pub enum FromBody {
    /// `from = "X"`.
    Proxy(String),
    /// `try_from = "X"`.
    TryProxy(String),
    /// Built from the type's own fields.
    Own(TypeShape),
}

/// A type serialized through the proxy type `into_ty`.
#[derive(Debug, Hash, PartialEq, Eq)]
pub struct IntoProxy {
    pub ident: String,
    pub generics: Vec<String>,
    pub into_ty: Box<Schema>,
}

/// A type deserialized from the proxy type `proxy`.
#[derive(Debug, Hash, PartialEq, Eq)]
pub struct FromProxy {
    pub ident: String,
    pub generics: Vec<String>,
    pub proxy: Box<Schema>,
    /// `true` for `try_from`, `false` for `from`.
    pub is_try: bool,
}

// ---------------------------------------------------------------------------
// Mathematical model: the same tree with strings as character sequences
// ---------------------------------------------------------------------------

pub enum SchemaView {
    Native(Seq<char>),
    Primitive(Scalar),
    Option(Box<SchemaView>),
    Sequence(Box<SchemaView>),
    Mapping { key: Box<SchemaView>, value: Box<SchemaView> },
    Box(Box<SchemaView>),
    Tuple(Seq<SchemaView>),
    Skipped,
    Struct(StructView),
    Transparent(TransparentView),
    Enum(EnumView),
    IntoProxy(IntoProxyView),
    FromProxy(FromProxyView),
}

pub enum FieldDefaultView {
    NoDefault,
    Default,
    Path(Seq<char>),
}

pub struct FieldView {
    pub ident: Seq<char>,
    pub ty: Box<SchemaView>,
    pub wire_name: Seq<char>,
    pub flags: u8,
    pub aliases: Seq<Seq<char>>,
    pub default: FieldDefaultView,
    pub skip_serializing_if: Option<Seq<char>>,
}

pub enum StructShapeView {
    Named(Seq<FieldView>),
    Tuple(Seq<SchemaView>),
    Unit,
}

pub struct StructView {
    pub ident: Seq<char>,
    pub generics: Seq<Seq<char>>,
    pub flags: u8,
    pub shape: StructShapeView,
}

pub struct TransparentView {
    pub ident: Seq<char>,
    pub generics: Seq<Seq<char>>,
    pub atomic: bool,
    pub field_ident: Option<Seq<char>>,
    pub field_ty: Box<SchemaView>,
}

pub enum TaggingView {
    External,
    Internal { tag: Seq<char> },
    Adjacent { tag: Seq<char>, content: Seq<char> },
    Untagged,
}

pub enum VariantKindView {
    Unit,
    Named(Seq<FieldView>),
    Unnamed(Seq<SchemaView>),
}

pub struct VariantView {
    pub ident: Seq<char>,
    pub wire_name: Seq<char>,
    pub all_wire_names: Seq<Seq<char>>,
    pub flags: u8,
    pub kind: VariantKindView,
}

pub struct EnumView {
    pub ident: Seq<char>,
    pub generics: Seq<Seq<char>>,
    pub flags: u8,
    pub tagging: TaggingView,
    pub variants: Seq<VariantView>,
}

pub struct IntoProxyView {
    pub ident: Seq<char>,
    pub generics: Seq<Seq<char>>,
    pub into_ty: Box<SchemaView>,
}

pub struct FromProxyView {
    pub ident: Seq<char>,
    pub generics: Seq<Seq<char>>,
    pub proxy: Box<SchemaView>,
    pub is_try: bool,
}

pub enum TypeShapeView {
    Struct(StructView),
    Enum(EnumView),
}

pub enum FromBodyView {
    Proxy(Seq<char>),
    TryProxy(Seq<char>),
    Own(TypeShapeView),
}

// ---------------------------------------------------------------------------
// Views of the executable types
// ---------------------------------------------------------------------------

/// The character sequences of a list of strings.
pub open spec fn strings_view(s: Seq<String>) -> Seq<Seq<char>> {
    Seq::new(s.len(), |i: int| s[i]@)
}

pub open spec fn opt_string_view(s: Option<String>) -> Option<Seq<char>> {
    match s {
        Some(x) => Some(x@),
        None => None,
    }
}

pub open spec fn schema_view(s: Schema) -> SchemaView
    decreases s,
{
    match s {
        Schema::Native(n) => SchemaView::Native(n@),
        Schema::Primitive(p) => SchemaView::Primitive(p),
        Schema::Option(t) => SchemaView::Option(Box::new(schema_view(*t))),
        Schema::Sequence(t) => SchemaView::Sequence(Box::new(schema_view(*t))),
        Schema::Mapping { key, value } => SchemaView::Mapping {
            key: Box::new(schema_view(*key)),
            value: Box::new(schema_view(*value)),
        },
        Schema::Box(t) => SchemaView::Box(Box::new(schema_view(*t))),
        Schema::Tuple(ts) => SchemaView::Tuple(tys_view(ts@)),
        Schema::Skipped => SchemaView::Skipped,
        Schema::Struct(st) => SchemaView::Struct(struct_view(st)),
        Schema::Transparent(t) => SchemaView::Transparent(TransparentView {
            ident: t.ident@,
            generics: strings_view(t.generics@),
            atomic: t.atomic,
            field_ident: opt_string_view(t.field_ident),
            field_ty: Box::new(schema_view(*t.field_ty)),
        }),
        Schema::Enum(e) => SchemaView::Enum(enum_view(e)),
        Schema::IntoProxy(p) => SchemaView::IntoProxy(IntoProxyView {
            ident: p.ident@,
            generics: strings_view(p.generics@),
            into_ty: Box::new(schema_view(*p.into_ty)),
        }),
        Schema::FromProxy(p) => SchemaView::FromProxy(FromProxyView {
            ident: p.ident@,
            generics: strings_view(p.generics@),
            proxy: Box::new(schema_view(*p.proxy)),
            is_try: p.is_try,
        }),
    }
}

pub open spec fn tys_view(ts: Seq<Box<Schema>>) -> Seq<SchemaView>
    decreases ts,
{
    if ts.len() == 0 {
        Seq::empty()
    } else {
        tys_view(ts.subrange(0, ts.len() - 1)).push(schema_view(*ts[ts.len() - 1]))
    }
}

pub open spec fn field_default_view(d: FieldDefault) -> FieldDefaultView {
    match d {
        FieldDefault::NoDefault => FieldDefaultView::NoDefault,
        FieldDefault::Default => FieldDefaultView::Default,
        FieldDefault::Path(p) => FieldDefaultView::Path(p@),
    }
}

pub open spec fn field_view(f: Field) -> FieldView
    decreases f,
{
    FieldView {
        ident: f.ident@,
        ty: Box::new(schema_view(*f.ty)),
        wire_name: f.wire_name@,
        flags: f.flags.bits,
        aliases: strings_view(f.aliases@),
        default: field_default_view(f.default),
        skip_serializing_if: opt_string_view(f.skip_serializing_if),
    }
}

pub open spec fn fields_view(fs: Seq<Field>) -> Seq<FieldView>
    decreases fs,
{
    if fs.len() == 0 {
        Seq::empty()
    } else {
        fields_view(fs.subrange(0, fs.len() - 1)).push(field_view(fs[fs.len() - 1]))
    }
}

pub open spec fn struct_view(st: Struct) -> StructView
    decreases st,
{
    StructView {
        ident: st.ident@,
        generics: strings_view(st.generics@),
        flags: st.flags.bits,
        shape: match st.shape {
            StructShape::Named(fs) => StructShapeView::Named(fields_view(fs@)),
            StructShape::Tuple(ts) => StructShapeView::Tuple(tys_view(ts@)),
            StructShape::Unit => StructShapeView::Unit,
        },
    }
}

pub open spec fn tagging_view(t: Tagging) -> TaggingView {
    match t {
        Tagging::External => TaggingView::External,
        Tagging::Internal { tag } => TaggingView::Internal { tag: tag@ },
        Tagging::Adjacent { tag, content } => TaggingView::Adjacent { tag: tag@, content: content@ },
        Tagging::Untagged => TaggingView::Untagged,
    }
}

pub open spec fn variant_view(v: Variant) -> VariantView
    decreases v,
{
    VariantView {
        ident: v.ident@,
        wire_name: v.wire_name@,
        all_wire_names: strings_view(v.all_wire_names@),
        flags: v.flags.bits,
        kind: match v.kind {
            VariantKind::Unit => VariantKindView::Unit,
            VariantKind::Named(fs) => VariantKindView::Named(fields_view(fs@)),
            VariantKind::Unnamed(ts) => VariantKindView::Unnamed(tys_view(ts@)),
        },
    }
}

pub open spec fn variants_view(vs: Seq<Variant>) -> Seq<VariantView>
    decreases vs,
{
    if vs.len() == 0 {
        Seq::empty()
    } else {
        variants_view(vs.subrange(0, vs.len() - 1)).push(variant_view(vs[vs.len() - 1]))
    }
}

pub open spec fn enum_view(e: Enum) -> EnumView
    decreases e,
{
    EnumView {
        ident: e.ident@,
        generics: strings_view(e.generics@),
        flags: e.flags.bits,
        tagging: tagging_view(e.tagging),
        variants: variants_view(e.variants@),
    }
}

pub open spec fn type_shape_view(t: TypeShape) -> TypeShapeView {
    match t {
        TypeShape::Struct(st) => TypeShapeView::Struct(struct_view(st)),
        TypeShape::Enum(e) => TypeShapeView::Enum(enum_view(e)),
    }
}

pub open spec fn from_body_view(b: FromBody) -> FromBodyView {
    match b {
        FromBody::Proxy(p) => FromBodyView::Proxy(p@),
        FromBody::TryProxy(p) => FromBodyView::TryProxy(p@),
        FromBody::Own(t) => FromBodyView::Own(type_shape_view(t)),
    }
}

impl View for Schema {
    type V = SchemaView;

    open spec fn view(&self) -> SchemaView {
        schema_view(*self)
    }
}

// ---------------------------------------------------------------------------
// Accessors
// ---------------------------------------------------------------------------

/// The identifier of a schema node: the name of a native reference or of
/// a definition; type references of other kinds have none.
pub open spec fn spec_ident(s: SchemaView) -> Option<Seq<char>> {
    match s {
        SchemaView::Native(n) => Some(n),
        SchemaView::Struct(st) => Some(st.ident),
        SchemaView::Transparent(t) => Some(t.ident),
        SchemaView::Enum(e) => Some(e.ident),
        SchemaView::IntoProxy(p) => Some(p.ident),
        SchemaView::FromProxy(p) => Some(p.ident),
        _ => None,
    }
}

/// The generic parameters of a definition; type references have none.
pub open spec fn spec_generics(s: SchemaView) -> Option<Seq<Seq<char>>> {
    match s {
        SchemaView::Struct(st) => Some(st.generics),
        SchemaView::Transparent(t) => Some(t.generics),
        SchemaView::Enum(e) => Some(e.generics),
        SchemaView::IntoProxy(p) => Some(p.generics),
        SchemaView::FromProxy(p) => Some(p.generics),
        _ => None,
    }
}

/// Whether a node is a type reference rather than a definition.
pub open spec fn spec_is_type_ref(s: SchemaView) -> bool {
    !(s is Struct || s is Transparent || s is Enum || s is IntoProxy || s is FromProxy)
}

impl Schema {
    /// This type's identifier; `None` for type references other than
    /// `Native`.
    pub fn ident(&self) -> (r: Option<&str>)
        ensures
            r is Some <==> spec_ident(self@) is Some,
            r is Some ==> r->0@ == spec_ident(self@)->0,
    {
        proof {
            reveal_with_fuel(schema_view, 2);
        }
        match self {
            Schema::Native(s) => Some(s.as_str()),
            Schema::Struct(s) => Some(s.ident.as_str()),
            Schema::Transparent(t) => Some(t.ident.as_str()),
            Schema::Enum(e) => Some(e.ident.as_str()),
            Schema::IntoProxy(p) => Some(p.ident.as_str()),
            Schema::FromProxy(p) => Some(p.ident.as_str()),
            _ => None,
        }
    }

    /// This type's generic parameters; `None` for type references.
    pub fn generics(&self) -> (r: Option<&Vec<String>>)
        ensures
            r is Some <==> spec_generics(self@) is Some,
            r is Some ==> strings_view(r->0@) == spec_generics(self@)->0,
    {
        proof {
            reveal_with_fuel(schema_view, 2);
        }
        match self {
            Schema::Struct(s) => Some(&s.generics),
            Schema::Transparent(t) => Some(&t.generics),
            Schema::Enum(e) => Some(&e.generics),
            Schema::IntoProxy(p) => Some(&p.generics),
            Schema::FromProxy(p) => Some(&p.generics),
            _ => None,
        }
    }

    /// Whether this is a type reference (not a definition).
    pub fn is_type_ref(&self) -> (r: bool)
        ensures
            r == spec_is_type_ref(self@),
    {
        match self {
            Schema::Struct(_) | Schema::Transparent(_) | Schema::Enum(_) | Schema::IntoProxy(_)
            | Schema::FromProxy(_) => false,
            _ => true,
        }
    }
}


// ---------------------------------------------------------------------------
// Facts about the list views
// ---------------------------------------------------------------------------

/// The view of a list of type references is taken element by element.
pub proof fn lemma_tys_view(ts: Seq<Box<Schema>>)
    ensures
        tys_view(ts).len() == ts.len(),
        forall|i: int| 0 <= i < ts.len() ==> #[trigger] tys_view(ts)[i] == schema_view(*ts[i]),
    decreases ts.len(),
{
    if ts.len() > 0 {
        let init = ts.subrange(0, ts.len() - 1);
        lemma_tys_view(init);
        assert forall|i: int| 0 <= i < ts.len() implies #[trigger] tys_view(ts)[i] == schema_view(
            *ts[i],
        ) by {
            if i < ts.len() - 1 {
                assert(init[i] == ts[i]);
            }
        }
    }
}

/// The view of a list of fields is taken element by element.
pub proof fn lemma_fields_view(fs: Seq<Field>)
    ensures
        fields_view(fs).len() == fs.len(),
        forall|i: int| 0 <= i < fs.len() ==> #[trigger] fields_view(fs)[i] == field_view(fs[i]),
    decreases fs.len(),
{
    if fs.len() > 0 {
        let init = fs.subrange(0, fs.len() - 1);
        lemma_fields_view(init);
        assert forall|i: int| 0 <= i < fs.len() implies #[trigger] fields_view(fs)[i] == field_view(
            fs[i],
        ) by {
            if i < fs.len() - 1 {
                assert(init[i] == fs[i]);
            }
        }
    }
}

/// The view of a list of variants is taken element by element.
pub proof fn lemma_variants_view(vs: Seq<Variant>)
    ensures
        variants_view(vs).len() == vs.len(),
        forall|i: int|
            0 <= i < vs.len() ==> #[trigger] variants_view(vs)[i] == variant_view(vs[i]),
    decreases vs.len(),
{
    if vs.len() > 0 {
        let init = vs.subrange(0, vs.len() - 1);
        lemma_variants_view(init);
        assert forall|i: int|
            0 <= i < vs.len() implies #[trigger] variants_view(vs)[i] == variant_view(vs[i]) by {
            if i < vs.len() - 1 {
                assert(init[i] == vs[i]);
            }
        }
    }
}

} // verus!
