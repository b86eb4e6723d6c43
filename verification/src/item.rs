//! The item as the derive's code generators see it.
//!
//! It has the shape of the item's schema (fields, variants, wire names,
//! flags, defaults, tagging), but where the schema holds a type reference
//! it holds the type as the item declares it, as Rust source text
//! (`Wrapper<T>`, `BTreeMap<String, u32>`), and it holds the item's
//! generics as the derive splits them for an impl: the parameters with
//! their bounds, the parameters alone, and the `where` clause.
//!
//! The schema of a field's type is what the type itself declares; the code
//! that converts a field names its declared type.

use vstd::prelude::*;

use crate::flags::{EnumFlags, FieldFlags, StructFlags, VariantFlags};
use crate::schema::{
    FieldDefault, FieldDefaultView, Tagging, TaggingView, field_default_view, opt_string_view,
    strings_view, tagging_view,
};

verus! {

/// A generic parameter as the item declares it, without its default.
#[derive(Clone, Debug, PartialEq, Eq)]
pub enum GenericParam {
    /// `'a`, with its bounds as written (`'b + 'c`), empty when it has none.
    Lifetime { name: String, bounds: String },
    /// `T`, with its bounds as written (`Clone + Default`), empty when it has
    /// none.
    Type { ident: String, bounds: String },
    /// `const N: usize`.
    Const { ident: String, ty: String },
}

/// An item's generics: its parameters in declared order and its `where`
/// clause as written (`where T: Default`, empty when it has none).
#[derive(Clone, Debug, Default, PartialEq, Eq)]
pub struct Generics {
    pub params: Vec<GenericParam>,
    pub where_clause: String,
}

/// A named or positional field.
#[derive(Clone, Debug, PartialEq, Eq)]
pub struct Field {
    /// The Rust field name.
    pub ident: String,
    /// The declared type, as Rust source text.
    pub ty: String,
    /// The wire name after `rename` / `rename_all`.
    pub wire_name: String,
    pub flags: FieldFlags,
    /// Additional accepted names (`alias`).
    pub aliases: Vec<String>,
    pub default: FieldDefault,
    /// Path of `skip_serializing_if`.
    pub skip_serializing_if: Option<String>,
}

/// The body of a struct.
#[derive(Clone, Debug, PartialEq, Eq)]
pub enum StructShape {
    Named(Vec<Field>),
    /// The declared types of the positional fields.
    Tuple(Vec<String>),
    Unit,
}

#[derive(Clone, Debug, PartialEq, Eq)]
pub struct Struct {
    pub ident: String,
    pub generics: Generics,
    pub flags: StructFlags,
    pub shape: StructShape,
}

/// A `#[serde(transparent)]` newtype.
#[derive(Clone, Debug, PartialEq, Eq)]
pub struct Transparent {
    pub ident: String,
    pub generics: Generics,
    pub atomic: bool,
    /// `Some` for a named field, `None` for a tuple field.
    pub field_ident: Option<String>,
    /// The inner field's declared type.
    pub field_ty: String,
}

/// The payload of an enum variant.
#[derive(Clone, Debug, PartialEq, Eq)]
pub enum VariantKind {
    Unit,
    Named(Vec<Field>),
    /// The declared types of the positional fields.
    Unnamed(Vec<String>),
}

#[derive(Clone, Debug, PartialEq, Eq)]
pub struct Variant {
    pub ident: String,
    pub wire_name: String,
    /// The primary wire name followed by every alias.
    pub all_wire_names: Vec<String>,
    pub flags: VariantFlags,
    pub kind: VariantKind,
}

#[derive(Clone, Debug, PartialEq, Eq)]
pub struct Enum {
    pub ident: String,
    pub generics: Generics,
    pub flags: EnumFlags,
    pub tagging: Tagging,
    pub variants: Vec<Variant>,
}

/// The struct or enum shape of a type.
#[derive(Clone, Debug, PartialEq, Eq)]
pub enum TypeShape {
    Struct(Struct),
    Enum(Enum),
}

/// How a type with `into = "X"` is deserialized.
#[derive(Clone, Debug, PartialEq, Eq)]
pub enum FromBody {
    /// `from = "X"`.
    Proxy(String),
    /// `try_from = "X"`.
    TryProxy(String),
    /// From the type's own fields.
    Own(TypeShape),
}

/// A type serialized through the type `into_ty`.
#[derive(Clone, Debug, PartialEq, Eq)]
pub struct IntoProxy {
    pub ident: String,
    pub generics: Generics,
    pub into_ty: String,
}

/// A type deserialized from the type `proxy`.
#[derive(Clone, Debug, PartialEq, Eq)]
pub struct FromProxy {
    pub ident: String,
    pub generics: Generics,
    pub proxy: String,
    /// `true` for `try_from`, `false` for `from`.
    pub is_try: bool,
}

/// An item the code generators write conversions for, with what proxy
/// types need besides (how an `into` type is deserialized, and the own
/// shape of a `from` type).
#[derive(Clone, Debug, PartialEq, Eq)]
pub enum Item {
    Struct(Struct),
    Transparent(Transparent),
    Enum(Enum),
    IntoProxy(IntoProxy, FromBody),
    FromProxy(FromProxy, TypeShape),
}

// ---------------------------------------------------------------------------
// Views
// ---------------------------------------------------------------------------

pub enum GenericParamView {
    Lifetime { name: Seq<char>, bounds: Seq<char> },
    Type { ident: Seq<char>, bounds: Seq<char> },
    Const { ident: Seq<char>, ty: Seq<char> },
}

/// An item's generics, with the texts an impl writes of them: the
/// parameters with their bounds (`<T: Clone>`), the parameters alone
/// (`<T>`), each empty when there are none, and the `where` clause.
pub struct GenericsView {
    pub params: Seq<GenericParamView>,
    pub impl_generics: Seq<char>,
    pub ty_generics: Seq<char>,
    pub where_clause: Seq<char>,
}

pub struct FieldView {
    pub ident: Seq<char>,
    pub ty: Seq<char>,
    pub wire_name: Seq<char>,
    pub flags: u8,
    pub aliases: Seq<Seq<char>>,
    pub default: FieldDefaultView,
    pub skip_serializing_if: Option<Seq<char>>,
}

pub enum StructShapeView {
    Named(Seq<FieldView>),
    Tuple(Seq<Seq<char>>),
    Unit,
}

pub struct StructView {
    pub ident: Seq<char>,
    pub generics: GenericsView,
    pub flags: u8,
    pub shape: StructShapeView,
}

pub struct TransparentView {
    pub ident: Seq<char>,
    pub generics: GenericsView,
    pub atomic: bool,
    pub field_ident: Option<Seq<char>>,
    pub field_ty: Seq<char>,
}

pub enum VariantKindView {
    Unit,
    Named(Seq<FieldView>),
    Unnamed(Seq<Seq<char>>),
}

pub struct VariantView {
    pub ident: Seq<char>,
    pub wire_name: Seq<char>,
    pub all_wire_names: Seq<Seq<char>>,
    pub flags: u8,
    pub kind: VariantKindView,
}

pub struct EnumView {
    pub ident: Seq<char>,
    pub generics: GenericsView,
    pub flags: u8,
    pub tagging: TaggingView,
    pub variants: Seq<VariantView>,
}

pub enum TypeShapeView {
    Struct(StructView),
    Enum(EnumView),
}

pub enum FromBodyView {
    Proxy(Seq<char>),
    TryProxy(Seq<char>),
    Own(TypeShapeView),
}

pub struct IntoProxyView {
    pub ident: Seq<char>,
    pub generics: GenericsView,
    pub into_ty: Seq<char>,
}

pub struct FromProxyView {
    pub ident: Seq<char>,
    pub generics: GenericsView,
    pub proxy: Seq<char>,
    pub is_try: bool,
}

pub enum ItemView {
    Struct(StructView),
    Transparent(TransparentView),
    Enum(EnumView),
    IntoProxy(IntoProxyView, FromBodyView),
    FromProxy(FromProxyView, TypeShapeView),
}

pub open spec fn generic_param_view(p: GenericParam) -> GenericParamView {
    match p {
        GenericParam::Lifetime { name, bounds } => GenericParamView::Lifetime {
            name: name@,
            bounds: bounds@,
        },
        GenericParam::Type { ident, bounds } => GenericParamView::Type {
            ident: ident@,
            bounds: bounds@,
        },
        GenericParam::Const { ident, ty } => GenericParamView::Const { ident: ident@, ty: ty@ },
    }
}

pub open spec fn generic_params_view(ps: Seq<GenericParam>) -> Seq<GenericParamView> {
    Seq::new(ps.len(), |i: int| generic_param_view(ps[i]))
}

/// A name followed by its bounds, if it has any: `T: Clone`.
pub open spec fn bounded(name: Seq<char>, bounds: Seq<char>) -> Seq<char> {
    if bounds.len() == 0 {
        name
    } else {
        name + ": "@ + bounds
    }
}

/// A parameter as an impl declares it: `'a: 'b`, `T: Clone`, `const N: usize`.
pub open spec fn param_decl(p: GenericParamView) -> Seq<char> {
    match p {
        GenericParamView::Lifetime { name, bounds } => bounded(name, bounds),
        GenericParamView::Type { ident, bounds } => bounded(ident, bounds),
        GenericParamView::Const { ident, ty } => "const "@ + ident + ": "@ + ty,
    }
}

/// A parameter as a type applies it: `'a`, `T`, `N`.
pub open spec fn param_arg(p: GenericParamView) -> Seq<char> {
    match p {
        GenericParamView::Lifetime { name, .. } => name,
        GenericParamView::Type { ident, .. } => ident,
        GenericParamView::Const { ident, .. } => ident,
    }
}

/// Texts separated by `, `.
pub open spec fn comma_joined(parts: Seq<Seq<char>>) -> Seq<char>
    decreases parts.len(),
{
    if parts.len() == 0 {
        Seq::empty()
    } else if parts.len() == 1 {
        parts[0]
    } else {
        comma_joined(parts.drop_last()) + ", "@ + parts.last()
    }
}

/// Texts in angle brackets, or nothing when there are none.
pub open spec fn angled(parts: Seq<Seq<char>>) -> Seq<char> {
    if parts.len() == 0 {
        Seq::empty()
    } else {
        "<"@ + comma_joined(parts) + ">"@
    }
}

/// The generics an impl declares: `<'a, T: Clone, const N: usize>`.
pub open spec fn impl_generics_text(ps: Seq<GenericParamView>) -> Seq<char> {
    angled(Seq::new(ps.len(), |i: int| param_decl(ps[i])))
}

/// The generics a type applies: `<'a, T, N>`.
pub open spec fn ty_generics_text(ps: Seq<GenericParamView>) -> Seq<char> {
    angled(Seq::new(ps.len(), |i: int| param_arg(ps[i])))
}

pub open spec fn generics_view(g: Generics) -> GenericsView {
    let ps = generic_params_view(g.params@);
    GenericsView {
        params: ps,
        impl_generics: impl_generics_text(ps),
        ty_generics: ty_generics_text(ps),
        where_clause: g.where_clause@,
    }
}

pub open spec fn field_view(f: Field) -> FieldView {
    FieldView {
        ident: f.ident@,
        ty: f.ty@,
        wire_name: f.wire_name@,
        flags: f.flags.bits,
        aliases: strings_view(f.aliases@),
        default: field_default_view(f.default),
        skip_serializing_if: opt_string_view(f.skip_serializing_if),
    }
}

pub open spec fn fields_view(fs: Seq<Field>) -> Seq<FieldView> {
    Seq::new(fs.len(), |i: int| field_view(fs[i]))
}

pub open spec fn struct_view(st: Struct) -> StructView {
    StructView {
        ident: st.ident@,
        generics: generics_view(st.generics),
        flags: st.flags.bits,
        shape: match st.shape {
            StructShape::Named(fs) => StructShapeView::Named(fields_view(fs@)),
            StructShape::Tuple(ts) => StructShapeView::Tuple(strings_view(ts@)),
            StructShape::Unit => StructShapeView::Unit,
        },
    }
}

pub open spec fn transparent_view(t: Transparent) -> TransparentView {
    TransparentView {
        ident: t.ident@,
        generics: generics_view(t.generics),
        atomic: t.atomic,
        field_ident: opt_string_view(t.field_ident),
        field_ty: t.field_ty@,
    }
}

pub open spec fn variant_view(v: Variant) -> VariantView {
    VariantView {
        ident: v.ident@,
        wire_name: v.wire_name@,
        all_wire_names: strings_view(v.all_wire_names@),
        flags: v.flags.bits,
        kind: match v.kind {
            VariantKind::Unit => VariantKindView::Unit,
            VariantKind::Named(fs) => VariantKindView::Named(fields_view(fs@)),
            VariantKind::Unnamed(ts) => VariantKindView::Unnamed(strings_view(ts@)),
        },
    }
}

pub open spec fn variants_view(vs: Seq<Variant>) -> Seq<VariantView> {
    Seq::new(vs.len(), |i: int| variant_view(vs[i]))
}

pub open spec fn enum_view(e: Enum) -> EnumView {
    EnumView {
        ident: e.ident@,
        generics: generics_view(e.generics),
        flags: e.flags.bits,
        tagging: tagging_view(e.tagging),
        variants: variants_view(e.variants@),
    }
}

pub open spec fn type_shape_view(t: TypeShape) -> TypeShapeView {
    match t {
        TypeShape::Struct(st) => TypeShapeView::Struct(struct_view(st)),
        TypeShape::Enum(e) => TypeShapeView::Enum(enum_view(e)),
    }
}

pub open spec fn from_body_view(b: FromBody) -> FromBodyView {
    match b {
        FromBody::Proxy(p) => FromBodyView::Proxy(p@),
        FromBody::TryProxy(p) => FromBodyView::TryProxy(p@),
        FromBody::Own(t) => FromBodyView::Own(type_shape_view(t)),
    }
}

pub open spec fn item_view(d: Item) -> ItemView {
    match d {
        Item::Struct(st) => ItemView::Struct(struct_view(st)),
        Item::Transparent(t) => ItemView::Transparent(transparent_view(t)),
        Item::Enum(e) => ItemView::Enum(enum_view(e)),
        Item::IntoProxy(p, b) => ItemView::IntoProxy(
            IntoProxyView { ident: p.ident@, generics: generics_view(p.generics), into_ty: p.into_ty@ },
            from_body_view(b),
        ),
        Item::FromProxy(p, s) => ItemView::FromProxy(
            FromProxyView {
                ident: p.ident@,
                generics: generics_view(p.generics),
                proxy: p.proxy@,
                is_try: p.is_try,
            },
            type_shape_view(s),
        ),
    }
}

/// The view of a list of fields is taken element by element.
pub proof fn lemma_fields_view(fs: Seq<Field>)
    ensures
        fields_view(fs).len() == fs.len(),
        forall|i: int| 0 <= i < fs.len() ==> #[trigger] fields_view(fs)[i] == field_view(fs[i]),
{
}

/// The view of a list of variants is taken element by element.
pub proof fn lemma_variants_view(vs: Seq<Variant>)
    ensures
        variants_view(vs).len() == vs.len(),
        forall|i: int| 0 <= i < vs.len() ==> #[trigger] variants_view(vs)[i] == variant_view(vs[i]),
{
}


/// The text of a parameter: as an impl declares it when `decl`, else as a
/// type applies it.
fn param_text(p: &GenericParam, decl: bool) -> (r: String)
    ensures
        r@ == if decl {
            param_decl(generic_param_view(*p))
        } else {
            param_arg(generic_param_view(*p))
        },
{
    match p {
        GenericParam::Lifetime { name, bounds } => {
            let mut out = name.clone();
            if decl && bounds.unicode_len() > 0 {
                out.append(": ");
                out.append(bounds.as_str());
            }
            out
        },
        GenericParam::Type { ident, bounds } => {
            let mut out = ident.clone();
            if decl && bounds.unicode_len() > 0 {
                out.append(": ");
                out.append(bounds.as_str());
            }
            out
        },
        GenericParam::Const { ident, ty } => {
            if decl {
                let mut out = String::from_str("const ");
                out.append(ident.as_str());
                out.append(": ");
                out.append(ty.as_str());
                out
            } else {
                ident.clone()
            }
        },
    }
}

proof fn lemma_comma_joined_push(parts: Seq<Seq<char>>, i: int)
    requires
        1 <= i < parts.len(),
    ensures
        comma_joined(parts.take(i + 1)) == comma_joined(parts.take(i)) + ", "@ + parts[i],
{
    assert(parts.take(i + 1).drop_last() =~= parts.take(i));
    assert(parts.take(i + 1).last() == parts[i]);
}

/// The parameters in angle brackets, each as an impl declares it when
/// `decl`, else as a type applies it.
fn angled_params(ps: &Vec<GenericParam>, decl: bool) -> (r: String)
    ensures
        r@ == if decl {
            impl_generics_text(generic_params_view(ps@))
        } else {
            ty_generics_text(generic_params_view(ps@))
        },
{
    let ghost pv = generic_params_view(ps@);
    let ghost parts = if decl {
        Seq::new(pv.len(), |i: int| param_decl(pv[i]))
    } else {
        Seq::new(pv.len(), |i: int| param_arg(pv[i]))
    };
    if ps.len() == 0 {
        return String::new();
    }
    let mut out = String::from_str("<");
    let mut i: usize = 0;
    while i < ps.len()
        invariant
            i <= ps@.len(),
            parts.len() == ps@.len(),
            forall|k: int| 0 <= k < ps@.len() ==> #[trigger] parts[k] == if decl {
                param_decl(generic_param_view(ps@[k]))
            } else {
                param_arg(generic_param_view(ps@[k]))
            },
            out@ == "<"@ + comma_joined(parts.take(i as int)),
        decreases ps@.len() - i,
    {
        let t = param_text(&ps[i], decl);
        proof {
            if i == 0 {
                assert(parts.take(1) =~= seq![parts[0]]);
                assert(parts.take(0) =~= Seq::<Seq<char>>::empty());
            } else {
                lemma_comma_joined_push(parts, i as int);
            }
        }
        if i > 0 {
            out.append(", ");
        }
        out.append(t.as_str());
        i = i + 1;
    }
    out.append(">");
    assert(parts.take(ps@.len() as int) =~= parts);
    out
}

impl Generics {
    /// The generics an impl declares: `<'a, T: Clone>`, empty when there
    /// are none.
    pub fn impl_generics(&self) -> (r: String)
        ensures
            r@ == generics_view(*self).impl_generics,
    {
        angled_params(&self.params, true)
    }

    /// The generics a type applies: `<'a, T>`, empty when there are none.
    pub fn ty_generics(&self) -> (r: String)
        ensures
            r@ == generics_view(*self).ty_generics,
    {
        angled_params(&self.params, false)
    }
}

/// A parameter with one more bound: a type parameter gets `b` after its
/// own bounds; lifetimes and constants stay as they are.
pub open spec fn with_bound(p: GenericParamView, b: Seq<char>) -> GenericParamView {
    match p {
        GenericParamView::Type { ident, bounds } => GenericParamView::Type {
            ident,
            bounds: if bounds.len() == 0 {
                b
            } else {
                bounds + " + "@ + b
            },
        },
        _ => p,
    }
}

/// Every type parameter bound by `b` too.
pub open spec fn params_with_bound(ps: Seq<GenericParamView>, b: Seq<char>) -> Seq<GenericParamView> {
    Seq::new(ps.len(), |i: int| with_bound(ps[i], b))
}

impl Generics {
    /// The same generics with every type parameter bound by `bound` too,
    /// after its own bounds.
    pub fn with_bound(&self, bound: &str) -> (r: Generics)
        ensures
            generics_view(r).params == params_with_bound(generics_view(*self).params, bound@),
            r.where_clause@ == self.where_clause@,
    {
        let mut ps: Vec<GenericParam> = Vec::new();
        let mut i: usize = 0;
        while i < self.params.len()
            invariant
                i <= self.params@.len(),
                ps@.len() == i,
                forall|k: int| 0 <= k < i ==> generic_param_view(#[trigger] ps@[k]) == with_bound(
                    generic_param_view(self.params@[k]),
                    bound@,
                ),
            decreases self.params@.len() - i,
        {
            let p = match &self.params[i] {
                GenericParam::Type { ident, bounds } => {
                    let mut b = bounds.clone();
                    if b.unicode_len() > 0 {
                        b.append(" + ");
                    }
                    b.append(bound);
                    GenericParam::Type { ident: ident.clone(), bounds: b }
                },
                GenericParam::Lifetime { name, bounds } => GenericParam::Lifetime {
                    name: name.clone(),
                    bounds: bounds.clone(),
                },
                GenericParam::Const { ident, ty } => GenericParam::Const {
                    ident: ident.clone(),
                    ty: ty.clone(),
                },
            };
            ps.push(p);
            i = i + 1;
        }
        let r = Generics { params: ps, where_clause: self.where_clause.clone() };
        assert(generics_view(r).params =~= params_with_bound(generics_view(*self).params, bound@));
        r
    }
}

} // verus!
