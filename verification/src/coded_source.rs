//! The source text of a derived type's schema identity and record: the
//! `Ident` / `IDENT` items of its `Typewire` impl, and the static that
//! places its record in the `typewire_schemas` link section.
//!
//! The record is written as a `coded` value whose layout is the record's
//! bytes; each type a field refers to contributes its own identity, through
//! `<T as Typewire>::IDENT`, when the derived crate is compiled.

use vstd::prelude::*;
use vstd::string::*;
use vstd::utf8::*;

use crate::case::string_from_chars;
use crate::item::{
    Enum, EnumView, Field, FieldView, FromProxy, FromProxyView, GenericParam, GenericParamView,
    Generics, IntoProxy, IntoProxyView, Item, ItemView, Struct, StructShape, StructShapeView,
    StructView, Transparent, TransparentView, Variant, VariantKind, VariantKindView, VariantView,
    comma_joined, enum_view, field_view, fields_view, generic_params_view, generics_view,
    item_view, struct_view, transparent_view, variant_view, variants_view,
};
use crate::schema::{FieldDefault, FieldDefaultView, Tagging, TaggingView, strings_view};
use crate::text::{decimal, decimal_string};
use crate::wasm::{item_name, item_name_of};

verus! {

/// The hexadecimal digit of `d < 16`, upper case.
pub open spec fn hex_digit(d: u8) -> char {
    if d < 10 {
        (48 + d) as char
    } else {
        (55 + d) as char
    }
}

/// A byte written as itself in a byte string: an ASCII letter, digit or
/// underscore.
pub open spec fn plain_byte(b: u8) -> bool {
    (48 <= b <= 57) || (65 <= b <= 90) || (97 <= b <= 122) || b == 95
}

/// A byte inside a byte string literal: itself when plain, else `\xNN`.
pub open spec fn byte_text(b: u8) -> Seq<char> {
    if plain_byte(b) {
        seq![b as char]
    } else {
        seq!['\\', 'x', hex_digit(b / 16), hex_digit(b % 16)]
    }
}

/// The bytes inside a byte string literal.
pub open spec fn bytes_text(bs: Seq<u8>) -> Seq<char>
    decreases bs.len(),
{
    if bs.len() == 0 {
        Seq::empty()
    } else {
        bytes_text(bs.drop_last()) + byte_text(bs.last())
    }
}

/// The characters of one byte inside a byte string literal.
fn push_byte(out: &mut Vec<char>, b: u8)
    ensures
        final(out)@ == old(out)@ + byte_text(b),
{
    if (48 <= b && b <= 57) || (65 <= b && b <= 90) || (97 <= b && b <= 122) || b == 95 {
        out.push(b as char);
    } else {
        let hi = b / 16;
        let lo = b % 16;
        out.push('\\');
        out.push('x');
        out.push(if hi < 10 { (48 + hi) as char } else { (55 + hi) as char });
        out.push(if lo < 10 { (48 + lo) as char } else { (55 + lo) as char });
    }
    assert(final(out)@ =~= old(out)@ + byte_text(b));
}

/// The UTF-8 bytes of a string inside a byte string literal.
pub fn byte_string_text(s: &str) -> (r: String)
    ensures
        r@ == bytes_text(encode_utf8(s@)),
{
    let bs = s.as_bytes();
    let mut out: Vec<char> = Vec::new();
    let mut i: usize = 0;
    assert(bs@.take(0) =~= Seq::<u8>::empty());
    while i < bs.len()
        invariant
            i <= bs@.len(),
            bs@ == encode_utf8(s@),
            out@ == bytes_text(bs@.take(i as int)),
        decreases bs@.len() - i,
    {
        assert(bs@.take(i + 1).drop_last() =~= bs@.take(i as int));
        push_byte(&mut out, bs[i]);
        i = i + 1;
    }
    assert(bs@.take(bs@.len() as int) =~= bs@);
    string_from_chars(out.as_slice())
}

// ---------------------------------------------------------------------------
// Pieces
// ---------------------------------------------------------------------------

/// The path of the module holding the record layouts.
pub open spec fn coded() -> Seq<char> {
    "::typewire::schema::coded"@
}

/// An `Ident` value holding a string's UTF-8 bytes.
pub open spec fn ident_lit(s: Seq<char>) -> Seq<char> {
    coded() + "::Ident::new(*b\""@ + bytes_text(encode_utf8(s)) + "\")"@
}

/// The length in UTF-8 bytes of a string, as a `usize` literal.
pub open spec fn len_lit(s: Seq<char>) -> Seq<char> {
    decimal(encode_utf8(s).len()) + "usize"@
}

/// A little-endian `u32` value.
pub open spec fn u32_lit(n: nat) -> Seq<char> {
    coded() + "::U32Le::new("@ + decimal(n) + "u32)"@
}

/// The identity type of a type: `<T as Typewire>::Ident`.
pub open spec fn ident_type(t: Seq<char>) -> Seq<char> {
    "<"@ + t + " as ::typewire::Typewire>::Ident"@
}

/// The identity of a type: `<T as Typewire>::IDENT`.
pub open spec fn ident_value(t: Seq<char>) -> Seq<char> {
    "<"@ + t + " as ::typewire::Typewire>::IDENT"@
}

/// The tuple layout of `n` children: `coded::Types<n>`.
pub open spec fn types_path(n: nat) -> Seq<char> {
    coded() + "::Types"@ + decimal(n)
}

/// A field or variant skipped in serialization or in deserialization.
pub open spec fn skipped(flags: u8) -> bool {
    flags & 3u8 != 0
}

/// The record kind of a field's default.
pub open spec fn default_kind(d: FieldDefaultView) -> Seq<char> {
    match d {
        FieldDefaultView::NoDefault => "None"@,
        FieldDefaultView::Default => "Default"@,
        FieldDefaultView::Path(_) => "Path"@,
    }
}

/// The layout type of a field: a skipped field has no type identity.
pub open spec fn field_type_text(f: FieldView) -> Seq<char> {
    coded() + "::FlatField<"@ + len_lit(f.ident) + ", "@ + len_lit(f.wire_name) + ", "@ + if skipped(
        f.flags,
    ) {
        coded() + "::SkippedIdent"@
    } else {
        ident_type(f.ty)
    } + ">"@
}

/// The value of a field.
pub open spec fn field_value_text(f: FieldView) -> Seq<char> {
    coded() + "::FlatField { ident: "@ + ident_lit(f.ident) + ", ty: "@ + if skipped(f.flags) {
        coded() + "::SkippedIdent::SKIPPED"@
    } else {
        ident_value(f.ty)
    } + ", wire_name: "@ + ident_lit(f.wire_name)
        + ", flags: ::typewire::schema::FieldFlags::from_bits_retain("@ + decimal(f.flags as nat)
        + "u8), default: "@ + coded() + "::FieldDefaultKind::"@ + default_kind(f.default) + " }"@
}

/// The layout types of fields, in order.
pub open spec fn field_types_text(fs: Seq<FieldView>) -> Seq<Seq<char>> {
    Seq::new(fs.len(), |i: int| field_type_text(fs[i]))
}

/// The values of fields, in order.
pub open spec fn field_values_text(fs: Seq<FieldView>) -> Seq<Seq<char>> {
    Seq::new(fs.len(), |i: int| field_value_text(fs[i]))
}

/// The identity types of declared types, in order.
pub open spec fn ident_types_text(ts: Seq<Seq<char>>) -> Seq<Seq<char>> {
    Seq::new(ts.len(), |i: int| ident_type(ts[i]))
}

/// The identities of declared types, in order.
pub open spec fn ident_values_text(ts: Seq<Seq<char>>) -> Seq<Seq<char>> {
    Seq::new(ts.len(), |i: int| ident_value(ts[i]))
}

// ---------------------------------------------------------------------------
// Writers of the pieces
// ---------------------------------------------------------------------------

/// Appends an `Ident` value holding a string's bytes.
fn push_ident_lit(out: &mut String, s: &str)
    ensures
        final(out)@ == old(out)@ + ident_lit(s@),
{
    out.append("::typewire::schema::coded");
    out.append("::Ident::new(*b\"");
    let t = byte_string_text(s);
    out.append(t.as_str());
    out.append("\")");
    assert(final(out)@ =~= old(out)@ + ident_lit(s@));
}

/// Appends the byte length of a string as a `usize` literal.
fn push_len_lit(out: &mut String, s: &str)
    ensures
        final(out)@ == old(out)@ + len_lit(s@),
{
    let n = s.as_bytes().len();
    assert(n as nat == encode_utf8(s@).len());
    let d = decimal_string(n as u64);
    out.append(d.as_str());
    out.append("usize");
    assert(final(out)@ =~= old(out)@ + len_lit(s@));
}

/// Appends a little-endian `u32` value.
fn push_u32_lit(out: &mut String, n: u32)
    ensures
        final(out)@ == old(out)@ + u32_lit(n as nat),
{
    out.append("::typewire::schema::coded");
    out.append("::U32Le::new(");
    let d = decimal_string(n as u64);
    out.append(d.as_str());
    out.append("u32)");
    assert(final(out)@ =~= old(out)@ + u32_lit(n as nat));
}

/// Texts separated by `, `.
fn join_texts(parts: &Vec<String>) -> (r: String)
    ensures
        r@ == comma_joined(strings_view(parts@)),
{
    let ghost ps = strings_view(parts@);
    let mut out = String::new();
    let mut i: usize = 0;
    assert(ps.take(0) =~= Seq::<Seq<char>>::empty());
    while i < parts.len()
        invariant
            i <= parts@.len(),
            ps == strings_view(parts@),
            out@ == comma_joined(ps.take(i as int)),
        decreases parts@.len() - i,
    {
        proof {
            if i == 0 {
                assert(ps.take(1) =~= seq![ps[0]]);
            } else {
                assert(ps.take(i + 1).drop_last() =~= ps.take(i as int));
                assert(ps.take(i + 1).last() == ps[i as int]);
            }
        }
        if i > 0 {
            out.append(", ");
        }
        out.append(parts[i].as_str());
        i = i + 1;
    }
    assert(ps.take(parts@.len() as int) =~= ps);
    out
}

/// The layout type and the value of a field.
fn field_texts(f: &Field) -> (r: (String, String))
    ensures
        r.0@ == field_type_text(field_view(*f)),
        r.1@ == field_value_text(field_view(*f)),
{
    let ghost fv = field_view(*f);
    let skip = f.flags.intersects(3u8);
    let mut ty = String::from_str("::typewire::schema::coded");
    ty.append("::FlatField<");
    push_len_lit(&mut ty, f.ident.as_str());
    ty.append(", ");
    push_len_lit(&mut ty, f.wire_name.as_str());
    ty.append(", ");
    if skip {
        ty.append("::typewire::schema::coded");
        ty.append("::SkippedIdent");
    } else {
        ty.append("<");
        ty.append(f.ty.as_str());
        ty.append(" as ::typewire::Typewire>::Ident");
    }
    ty.append(">");
    assert(ty@ =~= field_type_text(fv));
    let mut v = String::from_str("::typewire::schema::coded");
    v.append("::FlatField { ident: ");
    push_ident_lit(&mut v, f.ident.as_str());
    v.append(", ty: ");
    if skip {
        v.append("::typewire::schema::coded");
        v.append("::SkippedIdent::SKIPPED");
    } else {
        v.append("<");
        v.append(f.ty.as_str());
        v.append(" as ::typewire::Typewire>::IDENT");
    }
    v.append(", wire_name: ");
    push_ident_lit(&mut v, f.wire_name.as_str());
    v.append(", flags: ::typewire::schema::FieldFlags::from_bits_retain(");
    let d = decimal_string(f.flags.bits() as u64);
    v.append(d.as_str());
    v.append("u8), default: ");
    v.append("::typewire::schema::coded");
    v.append("::FieldDefaultKind::");
    match &f.default {
        FieldDefault::NoDefault => v.append("None"),
        FieldDefault::Default => v.append("Default"),
        FieldDefault::Path(_) => v.append("Path"),
    }
    v.append(" }");
    assert(v@ =~= field_value_text(fv));
    (ty, v)
}

/// The layout types and the values of fields, each joined by `, `.
fn fields_texts(fs: &Vec<Field>) -> (r: (String, String))
    ensures
        r.0@ == comma_joined(field_types_text(fields_view(fs@))),
        r.1@ == comma_joined(field_values_text(fields_view(fs@))),
{
    let ghost fv = fields_view(fs@);
    let mut tys: Vec<String> = Vec::new();
    let mut vals: Vec<String> = Vec::new();
    let mut i: usize = 0;
    while i < fs.len()
        invariant
            i <= fs@.len(),
            fv == fields_view(fs@),
            strings_view(tys@) == field_types_text(fv).take(i as int),
            strings_view(vals@) == field_values_text(fv).take(i as int),
        decreases fs@.len() - i,
    {
        let (t, v) = field_texts(&fs[i]);
        let ghost (bt, bv) = (tys@, vals@);
        tys.push(t);
        vals.push(v);
        proof {
            assert(strings_view(tys@) =~= strings_view(bt).push(t@));
            assert(strings_view(vals@) =~= strings_view(bv).push(v@));
            assert(field_types_text(fv).take(i + 1) =~= field_types_text(fv).take(i as int).push(t@));
            assert(field_values_text(fv).take(i + 1) =~= field_values_text(fv).take(i as int).push(v@));
        }
        i = i + 1;
    }
    assert(field_types_text(fv).take(fs@.len() as int) =~= field_types_text(fv));
    assert(field_values_text(fv).take(fs@.len() as int) =~= field_values_text(fv));
    (join_texts(&tys), join_texts(&vals))
}

/// The identity types and the identities of declared types, each joined
/// by `, `.
fn idents_texts(ts: &Vec<String>) -> (r: (String, String))
    ensures
        r.0@ == comma_joined(ident_types_text(strings_view(ts@))),
        r.1@ == comma_joined(ident_values_text(strings_view(ts@))),
{
    let ghost tv = strings_view(ts@);
    let mut tys: Vec<String> = Vec::new();
    let mut vals: Vec<String> = Vec::new();
    let mut i: usize = 0;
    while i < ts.len()
        invariant
            i <= ts@.len(),
            tv == strings_view(ts@),
            strings_view(tys@) == ident_types_text(tv).take(i as int),
            strings_view(vals@) == ident_values_text(tv).take(i as int),
        decreases ts@.len() - i,
    {
        let mut t = String::from_str("<");
        t.append(ts[i].as_str());
        t.append(" as ::typewire::Typewire>::Ident");
        let mut v = String::from_str("<");
        v.append(ts[i].as_str());
        v.append(" as ::typewire::Typewire>::IDENT");
        let ghost (bt, bv) = (tys@, vals@);
        tys.push(t);
        vals.push(v);
        proof {
            assert(strings_view(tys@) =~= strings_view(bt).push(t@));
            assert(strings_view(vals@) =~= strings_view(bv).push(v@));
            assert(ident_types_text(tv).take(i + 1) =~= ident_types_text(tv).take(i as int).push(t@));
            assert(ident_values_text(tv).take(i + 1) =~= ident_values_text(tv).take(i as int).push(v@));
        }
        i = i + 1;
    }
    assert(ident_types_text(tv).take(ts@.len() as int) =~= ident_types_text(tv));
    assert(ident_values_text(tv).take(ts@.len() as int) =~= ident_values_text(tv));
    (join_texts(&tys), join_texts(&vals))
}

// ---------------------------------------------------------------------------
// Records
// ---------------------------------------------------------------------------

/// The number of type parameters (lifetimes and constants are not
/// counted).
pub open spec fn type_param_count(ps: Seq<GenericParamView>) -> nat
    decreases ps.len(),
{
    if ps.len() == 0 {
        0
    } else {
        type_param_count(ps.drop_last()) + if ps.last() is Type {
            1nat
        } else {
            0nat
        }
    }
}

/// The value of a struct record, from its shape's name, its number of
/// fields and their values.
pub open spec fn struct_value_text(st: StructView, shape: Seq<char>, g: nat, n: nat, vals: Seq<char>) -> Seq<char> {
    coded() + "::FlatStruct { tag: "@ + coded() + "::Tag::Struct, ident: "@ + ident_lit(st.ident)
        + ", flags: ::typewire::schema::StructFlags::from_bits_retain("@ + decimal(st.flags as nat)
        + "u8), shape: "@ + coded() + "::StructShapeTag::"@ + shape + ", generic_count: "@ + u32_lit(g)
        + ", field_count: "@ + u32_lit(n) + ", fields: "@ + types_path(n) + "("@ + vals + ") }"@
}

/// The layout type and the value of a struct record, with `g` type
/// parameters.
pub open spec fn struct_record(st: StructView, g: nat) -> (Seq<char>, Seq<char>) {
    match st.shape {
        StructShapeView::Named(fs) => (
            coded() + "::FlatStruct<"@ + len_lit(st.ident) + ", "@ + types_path(fs.len()) + "<"@
                + comma_joined(field_types_text(fs)) + ">>"@,
            struct_value_text(st, "Named"@, g, fs.len(), comma_joined(field_values_text(fs))),
        ),
        StructShapeView::Tuple(ts) => (
            coded() + "::FlatStruct<"@ + len_lit(st.ident) + ", "@ + types_path(ts.len()) + "<"@
                + comma_joined(ident_types_text(ts)) + ">>"@,
            struct_value_text(st, "Tuple"@, g, ts.len(), comma_joined(ident_values_text(ts))),
        ),
        StructShapeView::Unit => (
            coded() + "::FlatStruct<"@ + len_lit(st.ident) + ">"@,
            struct_value_text(st, "Unit"@, g, 0, Seq::empty()),
        ),
    }
}

/// The layout type and the value of a transparent record.
pub open spec fn transparent_record(t: TransparentView) -> (Seq<char>, Seq<char>) {
    (
        coded() + "::FlatTransparent<"@ + len_lit(t.ident) + ", "@ + ident_type(t.field_ty) + ">"@,
        coded() + "::FlatTransparent { tag: "@ + coded() + "::Tag::Transparent, ident: "@ + ident_lit(
            t.ident,
        ) + ", atomic: "@ + (if t.atomic {
            "1"@
        } else {
            "0"@
        }) + "u8, inner: "@ + ident_value(t.field_ty) + " }"@,
    )
}

/// The value of a variant, from its kind's name, its number of children
/// and their values.
pub open spec fn variant_value_text(v: VariantView, kind: Seq<char>, n: nat, vals: Seq<char>) -> Seq<char> {
    coded() + "::FlatVariant { ident: "@ + ident_lit(v.ident) + ", wire_name: "@ + ident_lit(
        v.wire_name,
    ) + ", flags: ::typewire::schema::VariantFlags::from_bits_retain("@ + decimal(v.flags as nat)
        + "u8), kind: "@ + coded() + "::VariantKindTag::"@ + kind + ", child_count: "@ + u32_lit(n)
        + ", fields: "@ + types_path(n) + "("@ + vals + ") }"@
}

/// The layout type and the value of a variant: a skipped variant is
/// written as a unit variant, with no child types.
pub open spec fn variant_record(v: VariantView) -> (Seq<char>, Seq<char>) {
    let unit = (
        coded() + "::FlatVariant<"@ + len_lit(v.ident) + ", "@ + len_lit(v.wire_name) + ">"@,
        variant_value_text(v, "Unit"@, 0, Seq::empty()),
    );
    if skipped(v.flags) {
        unit
    } else {
        match v.kind {
            VariantKindView::Unit => unit,
            VariantKindView::Named(fs) => (
                coded() + "::FlatVariant<"@ + len_lit(v.ident) + ", "@ + len_lit(v.wire_name) + ", "@
                    + types_path(fs.len()) + "<"@ + comma_joined(field_types_text(fs)) + ">>"@,
                variant_value_text(v, "Named"@, fs.len(), comma_joined(field_values_text(fs))),
            ),
            VariantKindView::Unnamed(ts) => (
                coded() + "::FlatVariant<"@ + len_lit(v.ident) + ", "@ + len_lit(v.wire_name) + ", "@
                    + types_path(ts.len()) + "<"@ + comma_joined(ident_types_text(ts)) + ">>"@,
                variant_value_text(v, "Unnamed"@, ts.len(), comma_joined(ident_values_text(ts))),
            ),
        }
    }
}

/// The tagging kind of an enum, its tag key and its content key (empty
/// when it has none).
pub open spec fn tagging_keys(t: TaggingView) -> (Seq<char>, Seq<char>, Seq<char>) {
    match t {
        TaggingView::External => ("External"@, Seq::empty(), Seq::empty()),
        TaggingView::Internal { tag } => ("Internal"@, tag, Seq::empty()),
        TaggingView::Adjacent { tag, content } => ("Adjacent"@, tag, content),
        TaggingView::Untagged => ("Untagged"@, Seq::empty(), Seq::empty()),
    }
}

/// The layout type and the value of an enum record, with `g` type
/// parameters.
pub open spec fn enum_record(e: EnumView, g: nat) -> (Seq<char>, Seq<char>) {
    let (kind, tag, content) = tagging_keys(e.tagging);
    let n = e.variants.len();
    let vs = Seq::new(n, |i: int| variant_record(e.variants[i]));
    (
        coded() + "::FlatEnum<"@ + len_lit(e.ident) + ", "@ + len_lit(tag) + ", "@ + len_lit(content)
            + ", "@ + types_path(n) + "<"@ + comma_joined(Seq::new(n, |i: int| vs[i].0)) + ">>"@,
        coded() + "::FlatEnum { tag: "@ + coded() + "::Tag::Enum, ident: "@ + ident_lit(e.ident)
            + ", flags: ::typewire::schema::EnumFlags::from_bits_retain("@ + decimal(e.flags as nat)
            + "u8), tagging: "@ + coded() + "::TaggingKind::"@ + kind + ", tag_key: "@ + ident_lit(tag)
            + ", content_key: "@ + ident_lit(content) + ", generic_count: "@ + u32_lit(g)
            + ", variant_count: "@ + u32_lit(n) + ", variants: "@ + types_path(n) + "("@
            + comma_joined(Seq::new(n, |i: int| vs[i].1)) + ") }"@,
    )
}

/// The layout type and the value of the record of a type serialized
/// through its `into` type, with `g` type parameters.
pub open spec fn into_proxy_record(p: IntoProxyView, g: nat) -> (Seq<char>, Seq<char>) {
    (
        coded() + "::FlatIntoProxy<"@ + len_lit(p.ident) + ", "@ + ident_type(p.into_ty) + ">"@,
        coded() + "::FlatIntoProxy { tag: "@ + coded() + "::Tag::IntoProxy, ident: "@ + ident_lit(p.ident)
            + ", generic_count: "@ + u32_lit(g) + ", into_ty: "@ + ident_value(p.into_ty) + " }"@,
    )
}

/// The layout type and the value of the record of a type deserialized
/// from a proxy type, with `g` type parameters.
pub open spec fn from_proxy_record(p: FromProxyView, g: nat) -> (Seq<char>, Seq<char>) {
    (
        coded() + "::FlatFromProxy<"@ + len_lit(p.ident) + ", "@ + ident_type(p.proxy) + ">"@,
        coded() + "::FlatFromProxy { tag: "@ + coded() + "::Tag::FromProxy, ident: "@ + ident_lit(p.ident)
            + ", generic_count: "@ + u32_lit(g) + ", proxy: "@ + ident_value(p.proxy) + ", is_try: "@
            + (if p.is_try {
            "1"@
        } else {
            "0"@
        }) + "u8 }"@,
    )
}

// ---------------------------------------------------------------------------
// Writers of the records
// ---------------------------------------------------------------------------

/// Appends a count as a little-endian `u32` value.
fn push_count(out: &mut String, n: usize)
    requires
        n <= u32::MAX,
    ensures
        final(out)@ == old(out)@ + u32_lit(n as nat),
{
    push_u32_lit(out, n as u32);
}

/// Appends the tuple layout path of `n` children.
fn push_types_path(out: &mut String, n: usize)
    ensures
        final(out)@ == old(out)@ + types_path(n as nat),
{
    out.append("::typewire::schema::coded");
    out.append("::Types");
    let d = decimal_string(n as u64);
    out.append(d.as_str());
    assert(final(out)@ =~= old(out)@ + types_path(n as nat));
}

/// The number of type parameters.
fn count_type_params(g: &Generics) -> (r: usize)
    ensures
        r == type_param_count(generics_view(*g).params),
{
    let ghost ps = generics_view(*g).params;
    let mut n: usize = 0;
    let mut i: usize = 0;
    assert(ps.take(0) =~= Seq::<GenericParamView>::empty());
    while i < g.params.len()
        invariant
            i <= g.params@.len(),
            ps == generic_params_view(g.params@),
            n == type_param_count(ps.take(i as int)),
            n <= i,
        decreases g.params@.len() - i,
    {
        assert(ps.take(i + 1).drop_last() =~= ps.take(i as int));
        assert(ps.take(i + 1).last() == ps[i as int]);
        if let GenericParam::Type { .. } = &g.params[i] {
            n = n + 1;
        }
        i = i + 1;
    }
    assert(ps.take(g.params@.len() as int) =~= ps);
    n
}

/// The layout type and the value of a struct record.
#[verifier::rlimit(40)]
fn struct_texts(st: &Struct, g: usize) -> (r: (String, String))
    requires
        g <= u32::MAX,
        match st.shape {
            StructShape::Named(fs) => fs@.len() <= u32::MAX,
            StructShape::Tuple(ts) => ts@.len() <= u32::MAX,
            StructShape::Unit => true,
        },
    ensures
        r.0@ == struct_record(struct_view(*st), g as nat).0,
        r.1@ == struct_record(struct_view(*st), g as nat).1,
{
    let ghost sv = struct_view(*st);
    let (shape, n, tys, vals): (&str, usize, String, String) = match &st.shape {
        StructShape::Named(fs) => {
            let (t, v) = fields_texts(fs);
            ("Named", fs.len(), t, v)
        },
        StructShape::Tuple(ts) => {
            let (t, v) = idents_texts(ts);
            ("Tuple", ts.len(), t, v)
        },
        StructShape::Unit => ("Unit", 0, String::new(), String::new()),
    };
    let mut ty = String::from_str("::typewire::schema::coded");
    ty.append("::FlatStruct<");
    push_len_lit(&mut ty, st.ident.as_str());
    if let StructShape::Unit = &st.shape {
        ty.append(">");
    } else {
        ty.append(", ");
        push_types_path(&mut ty, n);
        ty.append("<");
        ty.append(tys.as_str());
        ty.append(">>");
    }
    let mut v = String::from_str("::typewire::schema::coded");
    v.append("::FlatStruct { tag: ");
    v.append("::typewire::schema::coded");
    v.append("::Tag::Struct, ident: ");
    push_ident_lit(&mut v, st.ident.as_str());
    v.append(", flags: ::typewire::schema::StructFlags::from_bits_retain(");
    let d = decimal_string(st.flags.bits() as u64);
    v.append(d.as_str());
    v.append("u8), shape: ");
    v.append("::typewire::schema::coded");
    v.append("::StructShapeTag::");
    v.append(shape);
    v.append(", generic_count: ");
    push_count(&mut v, g);
    v.append(", field_count: ");
    push_count(&mut v, n);
    v.append(", fields: ");
    push_types_path(&mut v, n);
    v.append("(");
    v.append(vals.as_str());
    v.append(") }");
    proof {
        reveal_strlit("Named");
        reveal_strlit("Tuple");
        reveal_strlit("Unit");
        assert(ty@ =~= struct_record(sv, g as nat).0);
        assert(v@ =~= struct_record(sv, g as nat).1);
    }
    (ty, v)
}

/// The layout type and the value of a transparent record.
fn transparent_texts(t: &Transparent) -> (r: (String, String))
    ensures
        r.0@ == transparent_record(transparent_view(*t)).0,
        r.1@ == transparent_record(transparent_view(*t)).1,
{
    let ghost tv = transparent_view(*t);
    let mut ty = String::from_str("::typewire::schema::coded");
    ty.append("::FlatTransparent<");
    push_len_lit(&mut ty, t.ident.as_str());
    ty.append(", ");
    ty.append("<");
    ty.append(t.field_ty.as_str());
    ty.append(" as ::typewire::Typewire>::Ident");
    ty.append(">");
    let mut v = String::from_str("::typewire::schema::coded");
    v.append("::FlatTransparent { tag: ");
    v.append("::typewire::schema::coded");
    v.append("::Tag::Transparent, ident: ");
    push_ident_lit(&mut v, t.ident.as_str());
    v.append(", atomic: ");
    v.append(if t.atomic { "1" } else { "0" });
    v.append("u8, inner: ");
    v.append("<");
    v.append(t.field_ty.as_str());
    v.append(" as ::typewire::Typewire>::IDENT");
    v.append(" }");
    assert(ty@ =~= transparent_record(tv).0);
    assert(v@ =~= transparent_record(tv).1);
    (ty, v)
}

/// The children of a variant fit the record's `u32` counts.
pub open spec fn variant_counts_fit(v: VariantView) -> bool {
    match v.kind {
        VariantKindView::Unit => true,
        VariantKindView::Named(fs) => fs.len() <= u32::MAX,
        VariantKindView::Unnamed(ts) => ts.len() <= u32::MAX,
    }
}

/// The layout type and the value of a variant.
#[verifier::rlimit(40)]
fn variant_texts(var: &Variant) -> (r: (String, String))
    requires
        variant_counts_fit(variant_view(*var)),
    ensures
        r.0@ == variant_record(variant_view(*var)).0,
        r.1@ == variant_record(variant_view(*var)).1,
{
    let ghost vv = variant_view(*var);
    let skip = var.flags.intersects(3u8);
    let (kind, n, tys, vals): (&str, usize, String, String) = if skip {
        ("Unit", 0, String::new(), String::new())
    } else {
        match &var.kind {
            VariantKind::Unit => ("Unit", 0, String::new(), String::new()),
            VariantKind::Named(fs) => {
                let (t, v) = fields_texts(fs);
                ("Named", fs.len(), t, v)
            },
            VariantKind::Unnamed(ts) => {
                let (t, v) = idents_texts(ts);
                ("Unnamed", ts.len(), t, v)
            },
        }
    };
    let unit_like = skip || matches!(var.kind, VariantKind::Unit);
    let mut ty = String::from_str("::typewire::schema::coded");
    ty.append("::FlatVariant<");
    push_len_lit(&mut ty, var.ident.as_str());
    ty.append(", ");
    push_len_lit(&mut ty, var.wire_name.as_str());
    if unit_like {
        ty.append(">");
    } else {
        ty.append(", ");
        push_types_path(&mut ty, n);
        ty.append("<");
        ty.append(tys.as_str());
        ty.append(">>");
    }
    let mut v = String::from_str("::typewire::schema::coded");
    v.append("::FlatVariant { ident: ");
    push_ident_lit(&mut v, var.ident.as_str());
    v.append(", wire_name: ");
    push_ident_lit(&mut v, var.wire_name.as_str());
    v.append(", flags: ::typewire::schema::VariantFlags::from_bits_retain(");
    let d = decimal_string(var.flags.bits() as u64);
    v.append(d.as_str());
    v.append("u8), kind: ");
    v.append("::typewire::schema::coded");
    v.append("::VariantKindTag::");
    v.append(kind);
    v.append(", child_count: ");
    push_count(&mut v, n);
    v.append(", fields: ");
    push_types_path(&mut v, n);
    v.append("(");
    v.append(vals.as_str());
    v.append(") }");
    proof {
        reveal_strlit("Named");
        reveal_strlit("Unnamed");
        reveal_strlit("Unit");
        assert(ty@ =~= variant_record(vv).0);
        assert(v@ =~= variant_record(vv).1);
    }
    (ty, v)
}

/// The layout types and the values of variants, each joined by `, `.
fn variants_texts(vs: &Vec<Variant>) -> (r: (String, String))
    requires
        forall|i: int| 0 <= i < vs@.len() ==> variant_counts_fit(#[trigger] variant_view(vs@[i])),
    ensures
        r.0@ == comma_joined(Seq::new(vs@.len(), |i: int| variant_record(variant_view(vs@[i])).0)),
        r.1@ == comma_joined(Seq::new(vs@.len(), |i: int| variant_record(variant_view(vs@[i])).1)),
{
    let ghost rtys = Seq::new(vs@.len(), |i: int| variant_record(variant_view(vs@[i])).0);
    let ghost rvals = Seq::new(vs@.len(), |i: int| variant_record(variant_view(vs@[i])).1);
    let mut tys: Vec<String> = Vec::new();
    let mut vals: Vec<String> = Vec::new();
    let mut i: usize = 0;
    while i < vs.len()
        invariant
            i <= vs@.len(),
            rtys == Seq::new(vs@.len(), |i: int| variant_record(variant_view(vs@[i])).0),
            rvals == Seq::new(vs@.len(), |i: int| variant_record(variant_view(vs@[i])).1),
            forall|k: int| 0 <= k < vs@.len() ==> variant_counts_fit(#[trigger] variant_view(vs@[k])),
            strings_view(tys@) == rtys.take(i as int),
            strings_view(vals@) == rvals.take(i as int),
        decreases vs@.len() - i,
    {
        let (t, v) = variant_texts(&vs[i]);
        let ghost (bt, bv) = (tys@, vals@);
        tys.push(t);
        vals.push(v);
        proof {
            assert(strings_view(tys@) =~= strings_view(bt).push(t@));
            assert(strings_view(vals@) =~= strings_view(bv).push(v@));
            assert(rtys.take(i + 1) =~= rtys.take(i as int).push(t@));
            assert(rvals.take(i + 1) =~= rvals.take(i as int).push(v@));
        }
        i = i + 1;
    }
    assert(rtys.take(vs@.len() as int) =~= rtys);
    assert(rvals.take(vs@.len() as int) =~= rvals);
    (join_texts(&tys), join_texts(&vals))
}

/// The layout type and the value of an enum record.
#[verifier::spinoff_prover]
#[verifier::rlimit(60)]
fn enum_texts(e: &Enum, g: usize) -> (r: (String, String))
    requires
        g <= u32::MAX,
        e.variants@.len() <= u32::MAX,
        forall|i: int| 0 <= i < e.variants@.len() ==> variant_counts_fit(#[trigger] variant_view(e.variants@[i])),
    ensures
        r.0@ == enum_record(enum_view(*e), g as nat).0,
        r.1@ == enum_record(enum_view(*e), g as nat).1,
{
    let ghost ev = enum_view(*e);
    let (jt, jv) = variants_texts(&e.variants);
    proof {
        let n = ev.variants.len();
        let recs = Seq::new(n, |i: int| variant_record(ev.variants[i]));
        assert(Seq::new(n, |i: int| recs[i].0) =~= Seq::new(
            e.variants@.len(),
            |i: int| variant_record(variant_view(e.variants@[i])).0,
        ));
        assert(Seq::new(n, |i: int| recs[i].1) =~= Seq::new(
            e.variants@.len(),
            |i: int| variant_record(variant_view(e.variants@[i])).1,
        ));
    }
    let (kind, tag, content): (&str, &str, &str) = match &e.tagging {
        Tagging::External => ("External", "", ""),
        Tagging::Internal { tag } => ("Internal", tag.as_str(), ""),
        Tagging::Adjacent { tag, content } => ("Adjacent", tag.as_str(), content.as_str()),
        Tagging::Untagged => ("Untagged", "", ""),
    };
    proof {
        reveal_strlit("");
        reveal_strlit("External");
        reveal_strlit("Internal");
        reveal_strlit("Adjacent");
        reveal_strlit("Untagged");
        assert(kind@ == tagging_keys(ev.tagging).0);
        assert(tag@ == tagging_keys(ev.tagging).1);
        assert(content@ == tagging_keys(ev.tagging).2);
    }
    let nv = e.variants.len();
    let mut ty = String::from_str("::typewire::schema::coded");
    ty.append("::FlatEnum<");
    push_len_lit(&mut ty, e.ident.as_str());
    ty.append(", ");
    push_len_lit(&mut ty, tag);
    ty.append(", ");
    push_len_lit(&mut ty, content);
    ty.append(", ");
    push_types_path(&mut ty, nv);
    ty.append("<");
    ty.append(jt.as_str());
    ty.append(">>");
    let mut v = String::from_str("::typewire::schema::coded");
    v.append("::FlatEnum { tag: ");
    v.append("::typewire::schema::coded");
    v.append("::Tag::Enum, ident: ");
    push_ident_lit(&mut v, e.ident.as_str());
    v.append(", flags: ::typewire::schema::EnumFlags::from_bits_retain(");
    let d = decimal_string(e.flags.bits() as u64);
    v.append(d.as_str());
    v.append("u8), tagging: ");
    v.append("::typewire::schema::coded");
    v.append("::TaggingKind::");
    v.append(kind);
    v.append(", tag_key: ");
    push_ident_lit(&mut v, tag);
    v.append(", content_key: ");
    push_ident_lit(&mut v, content);
    v.append(", generic_count: ");
    push_count(&mut v, g);
    v.append(", variant_count: ");
    push_count(&mut v, nv);
    v.append(", variants: ");
    push_types_path(&mut v, nv);
    v.append("(");
    v.append(jv.as_str());
    v.append(") }");
    proof {
        assert(ty@ =~= enum_record(ev, g as nat).0);
        assert(v@ =~= enum_record(ev, g as nat).1);
    }
    (ty, v)
}

/// The layout type and the value of the record of a type serialized
/// through its `into` type.
fn into_proxy_texts(p: &IntoProxy, g: usize) -> (r: (String, String))
    requires
        g <= u32::MAX,
    ensures
        r.0@ == into_proxy_record(
            IntoProxyView { ident: p.ident@, generics: generics_view(p.generics), into_ty: p.into_ty@ },
            g as nat,
        ).0,
        r.1@ == into_proxy_record(
            IntoProxyView { ident: p.ident@, generics: generics_view(p.generics), into_ty: p.into_ty@ },
            g as nat,
        ).1,
{
    let ghost pv = IntoProxyView {
        ident: p.ident@,
        generics: generics_view(p.generics),
        into_ty: p.into_ty@,
    };
    let mut ty = String::from_str("::typewire::schema::coded");
    ty.append("::FlatIntoProxy<");
    push_len_lit(&mut ty, p.ident.as_str());
    ty.append(", ");
    ty.append("<");
    ty.append(p.into_ty.as_str());
    ty.append(" as ::typewire::Typewire>::Ident");
    ty.append(">");
    let mut v = String::from_str("::typewire::schema::coded");
    v.append("::FlatIntoProxy { tag: ");
    v.append("::typewire::schema::coded");
    v.append("::Tag::IntoProxy, ident: ");
    push_ident_lit(&mut v, p.ident.as_str());
    v.append(", generic_count: ");
    push_count(&mut v, g);
    v.append(", into_ty: ");
    v.append("<");
    v.append(p.into_ty.as_str());
    v.append(" as ::typewire::Typewire>::IDENT");
    v.append(" }");
    assert(ty@ =~= into_proxy_record(pv, g as nat).0);
    assert(v@ =~= into_proxy_record(pv, g as nat).1);
    (ty, v)
}

/// The layout type and the value of the record of a type deserialized
/// from a proxy type.
fn from_proxy_texts(p: &FromProxy, g: usize) -> (r: (String, String))
    requires
        g <= u32::MAX,
    ensures
        r.0@ == from_proxy_record(
            FromProxyView {
                ident: p.ident@,
                generics: generics_view(p.generics),
                proxy: p.proxy@,
                is_try: p.is_try,
            },
            g as nat,
        ).0,
        r.1@ == from_proxy_record(
            FromProxyView {
                ident: p.ident@,
                generics: generics_view(p.generics),
                proxy: p.proxy@,
                is_try: p.is_try,
            },
            g as nat,
        ).1,
{
    let ghost pv = FromProxyView {
        ident: p.ident@,
        generics: generics_view(p.generics),
        proxy: p.proxy@,
        is_try: p.is_try,
    };
    let mut ty = String::from_str("::typewire::schema::coded");
    ty.append("::FlatFromProxy<");
    push_len_lit(&mut ty, p.ident.as_str());
    ty.append(", ");
    ty.append("<");
    ty.append(p.proxy.as_str());
    ty.append(" as ::typewire::Typewire>::Ident");
    ty.append(">");
    let mut v = String::from_str("::typewire::schema::coded");
    v.append("::FlatFromProxy { tag: ");
    v.append("::typewire::schema::coded");
    v.append("::Tag::FromProxy, ident: ");
    push_ident_lit(&mut v, p.ident.as_str());
    v.append(", generic_count: ");
    push_count(&mut v, g);
    v.append(", proxy: ");
    v.append("<");
    v.append(p.proxy.as_str());
    v.append(" as ::typewire::Typewire>::IDENT");
    v.append(", is_try: ");
    v.append(if p.is_try { "1" } else { "0" });
    v.append("u8 }");
    assert(ty@ =~= from_proxy_record(pv, g as nat).0);
    assert(v@ =~= from_proxy_record(pv, g as nat).1);
    (ty, v)
}

// ---------------------------------------------------------------------------
// Schema items and link section
// ---------------------------------------------------------------------------

/// The counts a record holds fit in `u32`: the type parameters, the fields
/// of a struct, the variants of an enum and the children of each variant.
pub open spec fn counts_fit(d: ItemView) -> bool {
    &&& type_param_count(item_name(d).1.params) <= u32::MAX
    &&& match d {
        ItemView::Struct(st) => match st.shape {
            StructShapeView::Named(fs) => fs.len() <= u32::MAX,
            StructShapeView::Tuple(ts) => ts.len() <= u32::MAX,
            StructShapeView::Unit => true,
        },
        ItemView::Enum(e) => e.variants.len() <= u32::MAX && forall|i: int|
            0 <= i < e.variants.len() ==> variant_counts_fit(#[trigger] e.variants[i]),
        _ => true,
    }
}

/// The layout type and the value of an item's record, with `g` type
/// parameters.
pub open spec fn item_record(d: ItemView, g: nat) -> (Seq<char>, Seq<char>) {
    match d {
        ItemView::Struct(st) => struct_record(st, g),
        ItemView::Transparent(t) => transparent_record(t),
        ItemView::Enum(e) => enum_record(e, g),
        ItemView::IntoProxy(p, _) => into_proxy_record(p, g),
        ItemView::FromProxy(p, _) => from_proxy_record(p, g),
    }
}

/// The schema identity items of a type's `Typewire` impl: the identity's
/// layout type and its value, the type's name.
pub open spec fn schema_items_text(ident: Seq<char>) -> Seq<char> {
    "type Ident = "@ + coded() + "::Ident<"@ + len_lit(ident) + ">;\nconst IDENT: Self::Ident = "@
        + ident_lit(ident) + ";\n"@
}

/// The static that places a record in the `typewire_schemas` link section
/// (`__DATA,typewire_schemas` on Apple targets).
pub open spec fn link_section_text(ty: Seq<char>, value: Seq<char>) -> Seq<char> {
    "const _: () = {\n#[cfg_attr(target_vendor = \"apple\", unsafe(link_section = \"__DATA,typewire_schemas\"))]\n#[cfg_attr(not(target_vendor = \"apple\"), unsafe(link_section = \"typewire_schemas\"))]\n#[used]\nstatic __GAFFER_SCHEMA: "@
        + coded() + "::Record<"@ + ty + "> = "@ + coded() + "::Record::new("@ + value + ");\n};\n"@
}

/// The schema identity items of an item's impl, and the static placing its
/// record; a generic item has no static (a generic context cannot hold
/// one).
pub open spec fn schema_and_section(d: ItemView) -> (Seq<char>, Seq<char>) {
    let (ident, g) = item_name(d);
    let rec = item_record(d, type_param_count(g.params));
    (
        schema_items_text(ident),
        if g.params.len() > 0 {
            Seq::empty()
        } else {
            link_section_text(rec.0, rec.1)
        },
    )
}

/// The schema identity items of an item's `Typewire` impl, and the code
/// that places its record in the link section (see
/// [`schema_and_section`]).
#[verifier::rlimit(40)]
pub fn generate_schema_and_section(item: &Item) -> (r: (String, String))
    requires
        counts_fit(item_view(*item)),
    ensures
        r.0@ == schema_and_section(item_view(*item)).0,
        r.1@ == schema_and_section(item_view(*item)).1,
{
    let ghost d = item_view(*item);
    let (ident, g) = item_name_of(item);
    let gc = count_type_params(g);
    let mut items = String::from_str("type Ident = ");
    items.append("::typewire::schema::coded");
    items.append("::Ident<");
    push_len_lit(&mut items, ident);
    items.append(">;\nconst IDENT: Self::Ident = ");
    push_ident_lit(&mut items, ident);
    items.append(";\n");
    assert(items@ =~= schema_items_text(item_name(d).0));
    if g.params.len() > 0 {
        return (items, String::new());
    }
    let (ty, value) = match item {
        Item::Struct(st) => struct_texts(st, gc),
        Item::Transparent(t) => transparent_texts(t),
        Item::Enum(e) => {
            proof {
                let ev = enum_view(*e);
                assert forall|i: int| 0 <= i < e.variants@.len() implies variant_counts_fit(
                    #[trigger] variant_view(e.variants@[i]),
                ) by {
                    assert(ev.variants[i] == variant_view(e.variants@[i]));
                }
            }
            enum_texts(e, gc)
        },
        Item::IntoProxy(p, _) => into_proxy_texts(p, gc),
        Item::FromProxy(p, _) => from_proxy_texts(p, gc),
    };
    let mut section = String::from_str(
        "const _: () = {\n#[cfg_attr(target_vendor = \"apple\", unsafe(link_section = \"__DATA,typewire_schemas\"))]\n#[cfg_attr(not(target_vendor = \"apple\"), unsafe(link_section = \"typewire_schemas\"))]\n#[used]\nstatic __GAFFER_SCHEMA: ",
    );
    section.append("::typewire::schema::coded");
    section.append("::Record<");
    section.append(ty.as_str());
    section.append("> = ");
    section.append("::typewire::schema::coded");
    section.append("::Record::new(");
    section.append(value.as_str());
    section.append(");\n};\n");
    assert(section@ =~= schema_and_section(d).1);
    (items, section)
}

} // verus!
