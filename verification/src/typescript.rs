//! TypeScript declarations for schemas.
//!
//! Each named type definition becomes one declaration; the declarations
//! come out sorted by type name, so the output does not depend on the
//! order of the records in the section.

use vstd::prelude::*;
use vstd::string::*;
use vstd::multiset::Multiset;
use vstd::utf8::*;

use crate::flags::{EnumFlags, FieldFlags, VariantFlags};
use crate::scalar::Scalar;
use crate::schema::{
    Field, FieldView, Schema, SchemaView, Tagging, TaggingView, Variant, VariantKind,
    VariantKindView, VariantView, field_view, fields_view, tagging_view, variant_view, Enum,
    EnumView, StructShapeView, StructView, enum_view, FieldDefault, Struct, StructShape,
    struct_view, lemma_variants_view, variants_view, lemma_fields_view, lemma_tys_view, schema_view, spec_ident, strings_view,
    tys_view, spec_is_type_ref,
};
use crate::decode::{Error, parse_section, schemas_view, spec_parse_section};

verus! {

// ---------------------------------------------------------------------------
// Type references
// ---------------------------------------------------------------------------

/// The TypeScript type of a scalar.
pub open spec fn scalar_ts(s: Scalar) -> Seq<char> {
    match s {
        Scalar::bool => "boolean"@,
        Scalar::u8 | Scalar::u16 | Scalar::u32 | Scalar::u64 | Scalar::u128 | Scalar::i8
        | Scalar::i16 | Scalar::i32 | Scalar::i64 | Scalar::i128 | Scalar::usize | Scalar::isize
        | Scalar::F32 | Scalar::F64 => "number"@,
        Scalar::char | Scalar::str | Scalar::Url | Scalar::Uuid | Scalar::DateTime
        | Scalar::FractionalIndex => "string"@,
        Scalar::Unit => "null"@,
        Scalar::Bytes => "Uint8ClampedArray"@,
        Scalar::SerdeJsonValue => "any"@,
    }
}

/// The parts joined, with `sep` between each two.
pub open spec fn join(parts: Seq<Seq<char>>, sep: Seq<char>) -> Seq<char>
    decreases parts.len(),
{
    if parts.len() == 0 {
        Seq::empty()
    } else if parts.len() == 1 {
        parts[0]
    } else {
        join(parts.drop_last(), sep) + sep + parts.last()
    }
}

/// A type in parentheses when it is a union (holds a `|`), so that a
/// suffix applies to the whole of it.
pub open spec fn wrap_if_union_spec(ts: Seq<char>) -> Seq<char> {
    if ts.contains('|') {
        "("@ + ts + ")"@
    } else {
        ts
    }
}

/// The TypeScript type of a type reference. A definition used as a type
/// stands for its name.
pub open spec fn ty_ts(t: SchemaView) -> Seq<char>
    decreases t,
{
    match t {
        SchemaView::Native(n) => n,
        SchemaView::Primitive(s) => scalar_ts(s),
        SchemaView::Option(i) => ty_ts(*i) + " | null"@,
        SchemaView::Box(i) => ty_ts(*i),
        SchemaView::Sequence(i) => wrap_if_union_spec(ty_ts(*i)) + "[]"@,
        SchemaView::Mapping { key, value } => "Record<"@ + ty_ts(*key) + ", "@ + ty_ts(*value)
            + ">"@,
        SchemaView::Tuple(ts) => "["@ + join(tys_ts(ts), ", "@) + "]"@,
        SchemaView::Skipped => "unknown"@,
        _ => spec_ident(t)->0,
    }
}

/// The TypeScript types of type references in a row.
pub open spec fn tys_ts(ts: Seq<SchemaView>) -> Seq<Seq<char>>
    decreases ts,
{
    if ts.len() == 0 {
        Seq::empty()
    } else {
        tys_ts(ts.subrange(0, ts.len() - 1)).push(ty_ts(ts[ts.len() - 1]))
    }
}

/// The TypeScript type of a scalar.
fn scalar_to_ts(s: Scalar) -> (r: &'static str)
    ensures
        r@ == scalar_ts(s),
{
    match s {
        Scalar::bool => "boolean",
        Scalar::u8 | Scalar::u16 | Scalar::u32 | Scalar::u64 | Scalar::u128 | Scalar::i8
        | Scalar::i16 | Scalar::i32 | Scalar::i64 | Scalar::i128 | Scalar::usize | Scalar::isize
        | Scalar::F32 | Scalar::F64 => "number",
        Scalar::char | Scalar::str | Scalar::Url | Scalar::Uuid | Scalar::DateTime
        | Scalar::FractionalIndex => "string",
        Scalar::Unit => "null",
        Scalar::Bytes => "Uint8ClampedArray",
        Scalar::SerdeJsonValue => "any",
    }
}

/// Whether a string holds the character `|`.
fn contains_bar(s: &str) -> (r: bool)
    ensures
        r == s@.contains('|'),
{
    let n = s.unicode_len();
    let mut i: usize = 0;
    while i < n
        invariant
            n == s@.len(),
            i <= n,
            forall|j: int| 0 <= j < i ==> s@[j] != '|',
        decreases n - i,
    {
        if s.get_char(i) == '|' {
            return true;
        }
        i = i + 1;
    }
    false
}

/// A type in parentheses when it is a union.
fn wrap_if_union(ts: &str) -> (r: String)
    ensures
        r@ == wrap_if_union_spec(ts@),
{
    if contains_bar(ts) {
        let mut out = String::from_str("(");
        out.append(ts);
        out.append(")");
        out
    } else {
        String::from_str(ts)
    }
}

/// The parts joined, with `sep` between each two.
pub fn join_strings(parts: &Vec<String>, sep: &str) -> (r: String)
    ensures
        r@ == join(strings_view(parts@), sep@),
{
    let ghost pv = strings_view(parts@);
    let mut out = String::new();
    if parts.len() == 0 {
        return out;
    }
    out.append(parts[0].as_str());
    assert(pv.take(1).drop_last() =~= Seq::<Seq<char>>::empty());
    let mut i: usize = 1;
    while i < parts.len()
        invariant
            1 <= i <= parts@.len(),
            pv == strings_view(parts@),
            out@ == join(pv.take(i as int), sep@),
        decreases parts@.len() - i,
    {
        out.append(sep);
        out.append(parts[i].as_str());
        assert(pv.take(i + 1).drop_last() =~= pv.take(i as int));
        i = i + 1;
    }
    assert(pv.take(parts@.len() as int) =~= pv);
    out
}

/// The TypeScript type of a type reference.
#[verifier::loop_isolation(false)]
pub fn ty_to_ts(t: &Schema) -> (r: String)
    ensures
        r@ == ty_ts(t@),
    decreases t,
{
    proof {
        reveal_with_fuel(crate::schema::schema_view, 2);
    }
    match t {
        Schema::Native(n) => n.clone(),
        Schema::Primitive(s) => String::from_str(scalar_to_ts(*s)),
        Schema::Option(inner) => {
            let mut out = ty_to_ts(inner);
            out.append(" | null");
            out
        },
        Schema::Box(inner) => ty_to_ts(inner),
        Schema::Sequence(inner) => {
            let ts = ty_to_ts(inner);
            let mut out = wrap_if_union(ts.as_str());
            out.append("[]");
            out
        },
        Schema::Mapping { key, value } => {
            let k = ty_to_ts(key);
            let v = ty_to_ts(value);
            let mut out = String::from_str("Record<");
            out.append(k.as_str());
            out.append(", ");
            out.append(v.as_str());
            out.append(">");
            out
        },
        Schema::Tuple(ts) => {
            let ghost tv = crate::schema::tys_view(ts@);
            proof {
                crate::schema::lemma_tys_view(ts@);
                lemma_tys_ts(tv);
            }
            let mut parts: Vec<String> = Vec::new();
            let mut i: usize = 0;
            while i < ts.len()
                invariant
                    i <= ts@.len(),
                    tv == crate::schema::tys_view(ts@),
                    tv.len() == ts@.len(),
                    forall|j: int| 0 <= j < ts@.len() ==> #[trigger] tv[j] == crate::schema::schema_view(*ts@[j]),
                    tys_ts(tv).len() == tv.len(),
                    forall|j: int| 0 <= j < tv.len() ==> #[trigger] tys_ts(tv)[j] == ty_ts(tv[j]),
                    parts@.len() == i,
                    forall|j: int| 0 <= j < i ==> #[trigger] parts@[j]@ == ty_ts(tv[j]),
                decreases ts@.len() - i,
            {
                proof {
                    assert(decreases_to!(*t => *ts));
                    assert(decreases_to!(*ts => ts@));
                    assert(decreases_to!(ts@ => ts@[i as int]));
                    assert(decreases_to!(*t => ts@[i as int]));
                }
                let s = ty_to_ts(&ts[i]);
                parts.push(s);
                i = i + 1;
            }
            assert(strings_view(parts@) =~= tys_ts(tv));
            let joined = join_strings(&parts, ", ");
            let mut out = String::from_str("[");
            out.append(joined.as_str());
            out.append("]");
            out
        },
        Schema::Skipped => String::from_str("unknown"),
        Schema::Struct(st) => st.ident.clone(),
        Schema::Transparent(tr) => tr.ident.clone(),
        Schema::Enum(e) => e.ident.clone(),
        Schema::IntoProxy(p) => p.ident.clone(),
        Schema::FromProxy(p) => p.ident.clone(),
    }
}

/// The TypeScript types of a row of type references are taken one by one.
pub proof fn lemma_tys_ts(ts: Seq<SchemaView>)
    ensures
        tys_ts(ts).len() == ts.len(),
        forall|i: int| 0 <= i < ts.len() ==> #[trigger] tys_ts(ts)[i] == ty_ts(ts[i]),
    decreases ts.len(),
{
    if ts.len() > 0 {
        lemma_tys_ts(ts.subrange(0, ts.len() - 1));
    }
}

// ---------------------------------------------------------------------------
// Members of declarations
// ---------------------------------------------------------------------------

/// A string in double quotes.
pub open spec fn quoted(w: Seq<char>) -> Seq<char> {
    "\""@ + w + "\""@
}

/// `wire_name: Type` for a field.
pub open spec fn field_pair(f: FieldView) -> Seq<char> {
    f.wire_name + ": "@ + ty_ts(*f.ty)
}

/// `wire_name: Type` for each field.
pub open spec fn field_pairs(fs: Seq<FieldView>) -> Seq<Seq<char>> {
    Seq::new(fs.len(), |i: int| field_pair(fs[i]))
}

/// Whether a member is left out of the declarations: it is skipped in
/// serialization or in deserialization.
pub open spec fn skipped(flags: u8) -> bool {
    flags & 3u8 != 0
}

/// The member of an externally tagged union for a variant.
pub open spec fn ext_member(v: VariantView) -> Seq<char> {
    let w = v.wire_name;
    match v.kind {
        VariantKindView::Unit => quoted(w),
        VariantKindView::Named(fs) => "{ "@ + quoted(w) + ": { "@ + join(field_pairs(fs), "; "@)
            + " } }"@,
        VariantKindView::Unnamed(ts) => if ts.len() == 1 {
            "{ "@ + quoted(w) + ": "@ + ty_ts(ts[0]) + " }"@
        } else {
            "{ "@ + quoted(w) + ": ["@ + join(tys_ts(ts), ", "@) + "] }"@
        },
    }
}

/// The member of an internally tagged union for a variant.
pub open spec fn int_member(v: VariantView, tag: Seq<char>) -> Seq<char> {
    let w = v.wire_name;
    match v.kind {
        VariantKindView::Unit => "{ "@ + tag + ": "@ + quoted(w) + " }"@,
        VariantKindView::Named(fs) => "{ "@ + join(
            seq![tag + ": "@ + quoted(w)] + field_pairs(fs),
            "; "@,
        ) + " }"@,
        VariantKindView::Unnamed(ts) => if ts.len() == 1 {
            "{ "@ + tag + ": "@ + quoted(w) + " } & "@ + ty_ts(ts[0])
        } else {
            "{ "@ + tag + ": "@ + quoted(w) + " }"@
        },
    }
}

/// The member of an adjacently tagged union for a variant.
pub open spec fn adj_member(v: VariantView, tag: Seq<char>, content: Seq<char>) -> Seq<char> {
    let head = "{ "@ + tag + ": "@ + quoted(v.wire_name);
    match v.kind {
        VariantKindView::Unit => head + " }"@,
        VariantKindView::Named(fs) => head + "; "@ + content + ": { "@ + join(
            field_pairs(fs),
            "; "@,
        ) + " } }"@,
        VariantKindView::Unnamed(ts) => if ts.len() == 1 {
            head + "; "@ + content + ": "@ + ty_ts(ts[0]) + " }"@
        } else {
            head + "; "@ + content + ": ["@ + join(tys_ts(ts), ", "@) + "] }"@
        },
    }
}

/// The member of an untagged union for a variant.
pub open spec fn untagged_member(v: VariantView) -> Seq<char> {
    match v.kind {
        VariantKindView::Unit => "null"@,
        VariantKindView::Named(fs) => "{ "@ + join(field_pairs(fs), "; "@) + " }"@,
        VariantKindView::Unnamed(ts) => if ts.len() == 1 {
            ty_ts(ts[0])
        } else {
            "["@ + join(tys_ts(ts), ", "@) + "]"@
        },
    }
}

/// The member of an enum's union for a variant, under the enum's tagging.
#[verifier::opaque]
pub open spec fn variant_member(v: VariantView, tagging: TaggingView) -> Seq<char> {
    match tagging {
        TaggingView::External => ext_member(v),
        TaggingView::Internal { tag } => int_member(v, tag),
        TaggingView::Adjacent { tag, content } => adj_member(v, tag, content),
        TaggingView::Untagged => untagged_member(v),
    }
}

/// Appends `w` in double quotes.
fn push_quoted(out: &mut String, w: &str)
    ensures
        final(out)@ == old(out)@ + quoted(w@),
{
    out.append("\"");
    out.append(w);
    out.append("\"");
    assert(final(out)@ =~= old(out)@ + quoted(w@));
}

/// The TypeScript types of type references in a row.
fn tys_to_ts(ts: &Vec<Box<Schema>>) -> (r: Vec<String>)
    ensures
        strings_view(r@) == tys_ts(tys_view(ts@)),
{
    let ghost tv = tys_view(ts@);
    proof {
        lemma_tys_view(ts@);
        lemma_tys_ts(tv);
    }
    let mut parts: Vec<String> = Vec::new();
    let mut i: usize = 0;
    while i < ts.len()
        invariant
            i <= ts@.len(),
            tv == tys_view(ts@),
            tv.len() == ts@.len(),
            forall|j: int| 0 <= j < ts@.len() ==> #[trigger] tv[j] == schema_view(*ts@[j]),
            tys_ts(tv).len() == tv.len(),
            forall|j: int| 0 <= j < tv.len() ==> #[trigger] tys_ts(tv)[j] == ty_ts(tv[j]),
            parts@.len() == i,
            forall|j: int| 0 <= j < i ==> #[trigger] parts@[j]@ == ty_ts(tv[j]),
        decreases ts@.len() - i,
    {
        let s = ty_to_ts(&ts[i]);
        parts.push(s);
        i = i + 1;
    }
    assert(strings_view(parts@) =~= tys_ts(tv));
    parts
}

/// `wire_name: Type` for each field.
fn field_pairs_vec(fs: &Vec<Field>) -> (r: Vec<String>)
    ensures
        strings_view(r@) == field_pairs(fields_view(fs@)),
{
    let ghost fv = fields_view(fs@);
    proof {
        lemma_fields_view(fs@);
    }
    let mut parts: Vec<String> = Vec::new();
    let mut i: usize = 0;
    while i < fs.len()
        invariant
            i <= fs@.len(),
            fv == fields_view(fs@),
            fv.len() == fs@.len(),
            forall|j: int| 0 <= j < fs@.len() ==> #[trigger] fv[j] == field_view(fs@[j]),
            parts@.len() == i,
            forall|j: int| 0 <= j < i ==> #[trigger] parts@[j]@ == field_pair(fv[j]),
        decreases fs@.len() - i,
    {
        let f = &fs[i];
        let mut p = f.wire_name.clone();
        p.append(": ");
        let t = ty_to_ts(&f.ty);
        p.append(t.as_str());
        assert(p@ =~= field_pair(fv[i as int]));
        parts.push(p);
        i = i + 1;
    }
    assert(strings_view(parts@) =~= field_pairs(fv));
    parts
}

/// The member of an externally tagged union for a variant.
fn emit_ext_tagged_variant(v: &Variant) -> (r: String)
    ensures
        r@ == ext_member(variant_view(*v)),
{
    let mut out = String::new();
    match &v.kind {
        VariantKind::Unit => {
            push_quoted(&mut out, v.wire_name.as_str());
        },
        VariantKind::Named(fields) => {
            let inner = join_strings(&field_pairs_vec(fields), "; ");
            out.append("{ ");
            push_quoted(&mut out, v.wire_name.as_str());
            out.append(": { ");
            out.append(inner.as_str());
            out.append(" } }");
        },
        VariantKind::Unnamed(idents) => {
            proof {
                lemma_tys_view(idents@);
            }
            out.append("{ ");
            push_quoted(&mut out, v.wire_name.as_str());
            if idents.len() == 1 {
                let t = ty_to_ts(&idents[0]);
                out.append(": ");
                out.append(t.as_str());
                out.append(" }");
            } else {
                let types = join_strings(&tys_to_ts(idents), ", ");
                out.append(": [");
                out.append(types.as_str());
                out.append("] }");
            }
        },
    }
    assert(out@ =~= ext_member(variant_view(*v)));
    out
}

/// The member of an internally tagged union for a variant.
fn emit_int_tagged_variant(v: &Variant, tag_key: &str) -> (r: String)
    ensures
        r@ == int_member(variant_view(*v), tag_key@),
{
    let mut head = String::from_str(tag_key);
    head.append(": ");
    push_quoted(&mut head, v.wire_name.as_str());
    let mut out = String::from_str("{ ");
    match &v.kind {
        VariantKind::Unit => {
            out.append(head.as_str());
            out.append(" }");
        },
        VariantKind::Named(fields) => {
            let ghost hv = head@;
            let mut parts: Vec<String> = Vec::new();
            parts.push(head);
            assert(strings_view(parts@) =~= seq![hv]);
            let mut rest = field_pairs_vec(fields);
            let ghost first = parts@;
            let ghost pairs = rest@;
            parts.append(&mut rest);
            assert(strings_view(parts@) =~= strings_view(first) + strings_view(pairs));
            let joined = join_strings(&parts, "; ");
            out.append(joined.as_str());
            out.append(" }");
            assert(strings_view(parts@) =~= seq![tag_key@ + ": "@ + quoted(v.wire_name@)]
                + field_pairs(fields_view(fields@)));
        },
        VariantKind::Unnamed(idents) => {
            proof {
                lemma_tys_view(idents@);
            }
            out.append(head.as_str());
            if idents.len() == 1 {
                let t = ty_to_ts(&idents[0]);
                out.append(" } & ");
                out.append(t.as_str());
            } else {
                out.append(" }");
            }
        },
    }
    assert(out@ =~= int_member(variant_view(*v), tag_key@));
    out
}

/// The member of an adjacently tagged union for a variant.
fn emit_adj_tagged_variant(v: &Variant, tag_key: &str, content_key: &str) -> (r: String)
    ensures
        r@ == adj_member(variant_view(*v), tag_key@, content_key@),
{
    let mut out = String::from_str("{ ");
    out.append(tag_key);
    out.append(": ");
    push_quoted(&mut out, v.wire_name.as_str());
    match &v.kind {
        VariantKind::Unit => {
            out.append(" }");
        },
        VariantKind::Named(fields) => {
            let inner = join_strings(&field_pairs_vec(fields), "; ");
            out.append("; ");
            out.append(content_key);
            out.append(": { ");
            out.append(inner.as_str());
            out.append(" } }");
        },
        VariantKind::Unnamed(idents) => {
            proof {
                lemma_tys_view(idents@);
            }
            out.append("; ");
            out.append(content_key);
            if idents.len() == 1 {
                let t = ty_to_ts(&idents[0]);
                out.append(": ");
                out.append(t.as_str());
                out.append(" }");
            } else {
                let types = join_strings(&tys_to_ts(idents), ", ");
                out.append(": [");
                out.append(types.as_str());
                out.append("] }");
            }
        },
    }
    assert(out@ =~= adj_member(variant_view(*v), tag_key@, content_key@));
    out
}

/// The member of an untagged union for a variant.
fn emit_untagged_variant(v: &Variant) -> (r: String)
    ensures
        r@ == untagged_member(variant_view(*v)),
{
    match &v.kind {
        VariantKind::Unit => String::from_str("null"),
        VariantKind::Named(fields) => {
            let inner = join_strings(&field_pairs_vec(fields), "; ");
            let mut out = String::from_str("{ ");
            out.append(inner.as_str());
            out.append(" }");
            assert(out@ =~= untagged_member(variant_view(*v)));
            out
        },
        VariantKind::Unnamed(idents) => {
            proof {
                lemma_tys_view(idents@);
            }
            if idents.len() == 1 {
                ty_to_ts(&idents[0])
            } else {
                let types = join_strings(&tys_to_ts(idents), ", ");
                let mut out = String::from_str("[");
                out.append(types.as_str());
                out.append("]");
                assert(out@ =~= untagged_member(variant_view(*v)));
                out
            }
        },
    }
}

/// The member of an enum's union for a variant, under the enum's tagging.
fn emit_variant(v: &Variant, tagging: &Tagging) -> (r: String)
    ensures
        r@ == variant_member(variant_view(*v), tagging_view(*tagging)),
{
    reveal(variant_member);
    match tagging {
        Tagging::External => emit_ext_tagged_variant(v),
        Tagging::Internal { tag } => emit_int_tagged_variant(v, tag.as_str()),
        Tagging::Adjacent { tag, content } => emit_adj_tagged_variant(
            v,
            tag.as_str(),
            content.as_str(),
        ),
        Tagging::Untagged => emit_untagged_variant(v),
    }
}

// ---------------------------------------------------------------------------
// Declarations
// ---------------------------------------------------------------------------

/// The members of a union of unit variants: the wire names, in quotes, of
/// the variants that are not skipped.
#[verifier::opaque]
pub open spec fn unit_members(vs: Seq<VariantView>) -> Seq<Seq<char>>
    decreases vs.len(),
{
    if vs.len() == 0 {
        Seq::empty()
    } else {
        let r = unit_members(vs.drop_last());
        if skipped(vs.last().flags) {
            r
        } else {
            r.push(quoted(vs.last().wire_name))
        }
    }
}

/// The members of an enum's union: one for each variant that is not
/// skipped.
#[verifier::opaque]
pub open spec fn union_members(vs: Seq<VariantView>, tagging: TaggingView) -> Seq<Seq<char>>
    decreases vs.len(),
{
    if vs.len() == 0 {
        Seq::empty()
    } else {
        let r = union_members(vs.drop_last(), tagging);
        if skipped(vs.last().flags) {
            r
        } else {
            r.push(variant_member(vs.last(), tagging))
        }
    }
}

/// The declaration of an enum: a union of string literals when every
/// variant is a unit variant, else a union of the variants' members.
pub open spec fn enum_decl(e: EnumView) -> Seq<char> {
    let members = if e.flags & 2u8 == 2u8 {
        unit_members(e.variants)
    } else {
        union_members(e.variants, e.tagging)
    };
    "export type "@ + e.ident + " = "@ + join(members, " | "@) + ";\n\n"@
}

/// The line of an interface for a field; none for a skipped field. A field
/// with a default is optional.
pub open spec fn field_line(f: FieldView) -> Seq<char> {
    if skipped(f.flags) {
        Seq::empty()
    } else {
        let opt = if f.default is NoDefault {
            ""@
        } else {
            "?"@
        };
        "  "@ + f.wire_name + opt + ": "@ + ty_ts(*f.ty) + ";\n"@
    }
}

/// The lines of an interface for its fields.
#[verifier::opaque]
pub open spec fn field_lines(fs: Seq<FieldView>) -> Seq<char>
    decreases fs.len(),
{
    if fs.len() == 0 {
        Seq::empty()
    } else {
        field_lines(fs.drop_last()) + field_line(fs.last())
    }
}

/// The declaration of a struct: an interface for named fields, a tuple
/// type for positional ones, `null` for a unit struct.
pub open spec fn struct_decl(st: StructView) -> Seq<char> {
    match st.shape {
        StructShapeView::Named(fs) => "export interface "@ + st.ident + " {\n"@ + field_lines(fs)
            + "}\n\n"@,
        StructShapeView::Tuple(ts) => "export type "@ + st.ident + " = ["@ + join(
            tys_ts(ts),
            ", "@,
        ) + "];\n\n"@,
        StructShapeView::Unit => "export type "@ + st.ident + " = null;\n\n"@,
    }
}

/// A type alias declaration.
pub open spec fn alias_decl(ident: Seq<char>, ty: SchemaView) -> Seq<char> {
    "export type "@ + ident + " = "@ + ty_ts(ty) + ";\n\n"@
}

/// The declaration of a type definition; type references have none.
pub open spec fn decl(s: SchemaView) -> Seq<char> {
    match s {
        SchemaView::Struct(st) => struct_decl(st),
        SchemaView::Transparent(t) => alias_decl(t.ident, *t.field_ty),
        SchemaView::Enum(e) => enum_decl(e),
        SchemaView::IntoProxy(x) => alias_decl(x.ident, *x.into_ty),
        SchemaView::FromProxy(x) => alias_decl(x.ident, *x.proxy),
        _ => Seq::empty(),
    }
}

/// One more variant adds its member to the union unless it is skipped.
proof fn lemma_members_step(vs: Seq<VariantView>, i: int, tagging: TaggingView)
    requires
        0 <= i < vs.len(),
    ensures
        unit_members(vs.take(i + 1)) == if skipped(vs[i].flags) {
            unit_members(vs.take(i))
        } else {
            unit_members(vs.take(i)).push(quoted(vs[i].wire_name))
        },
        union_members(vs.take(i + 1), tagging) == if skipped(vs[i].flags) {
            union_members(vs.take(i), tagging)
        } else {
            union_members(vs.take(i), tagging).push(variant_member(vs[i], tagging))
        },
{
    reveal(unit_members);
    reveal(union_members);
    assert(vs.take(i + 1).drop_last() =~= vs.take(i));
    assert(vs.take(i + 1).last() == vs[i]);
}

/// No variant, no member.
proof fn lemma_members_empty(tagging: TaggingView)
    ensures
        unit_members(Seq::empty()) == Seq::<Seq<char>>::empty(),
        union_members(Seq::empty(), tagging) == Seq::<Seq<char>>::empty(),
{
    reveal(unit_members);
    reveal(union_members);
}

/// The members of a union of unit variants.
fn unit_union(vs: &Vec<Variant>) -> (r: Vec<String>)
    ensures
        strings_view(r@) == unit_members(variants_view(vs@)),
{
    let ghost vv = variants_view(vs@);
    proof {
        lemma_variants_view(vs@);
        assert((1u8 | 2u8) == 3u8) by (bit_vector);
    }
    let mut members: Vec<String> = Vec::new();
    let mut i: usize = 0;
    assert(vv.take(0) =~= Seq::<VariantView>::empty());
    proof {
        lemma_members_empty(TaggingView::External);
    }
    while i < vs.len()
        invariant
            i <= vs@.len(),
            vv.len() == vs@.len(),
            vv == variants_view(vs@),
            strings_view(members@) == unit_members(vv.take(i as int)),
        decreases vs@.len() - i,
    {
        let v = &vs[i];
        proof {
            lemma_members_step(vv, i as int, TaggingView::External);
            lemma_variants_view(vs@);
        }
        assert(vv[i as int].flags == v.flags.bits);
        assert(vv[i as int].wire_name == v.wire_name@);
        let ghost before = members@;
        assert((1u8 | 2u8) == 3u8) by (bit_vector);
        if !v.flags.intersects(VariantFlags::SKIP_SER | VariantFlags::SKIP_DE) {
            let mut m = String::new();
            push_quoted(&mut m, v.wire_name.as_str());
            members.push(m);
            assert(strings_view(members@) =~= strings_view(before).push(members@.last()@));
        }
        i = i + 1;
    }
    assert(vv.take(vs@.len() as int) =~= vv);
    members
}

/// The members of an enum's union under its tagging.
fn tagged_union(vs: &Vec<Variant>, tagging: &Tagging) -> (r: Vec<String>)
    ensures
        strings_view(r@) == union_members(variants_view(vs@), tagging_view(*tagging)),
{
    let ghost vv = variants_view(vs@);
    let ghost tg = tagging_view(*tagging);
    proof {
        lemma_variants_view(vs@);
        assert((1u8 | 2u8) == 3u8) by (bit_vector);
    }
    let mut members: Vec<String> = Vec::new();
    let mut i: usize = 0;
    assert(vv.take(0) =~= Seq::<VariantView>::empty());
    proof {
        lemma_members_empty(tagging_view(*tagging));
    }
    while i < vs.len()
        invariant
            i <= vs@.len(),
            vv.len() == vs@.len(),
            tg == tagging_view(*tagging),
            forall|j: int| 0 <= j < vv.len() ==> #[trigger] vv[j] == variant_view(vs@[j]),
            strings_view(members@) == union_members(vv.take(i as int), tg),
        decreases vs@.len() - i,
    {
        let v = &vs[i];
        proof {
            lemma_members_step(vv, i as int, tg);
        }
        let ghost before = members@;
        assert((1u8 | 2u8) == 3u8) by (bit_vector);
        if !v.flags.intersects(VariantFlags::SKIP_SER | VariantFlags::SKIP_DE) {
            members.push(emit_variant(v, tagging));
            assert(strings_view(members@) =~= strings_view(before).push(members@.last()@));
        }
        i = i + 1;
    }
    assert(vv.take(vs@.len() as int) =~= vv);
    members
}

/// Appends the declaration of an enum.
fn emit_enum(e: &Enum, out: &mut String)
    ensures
        final(out)@ == old(out)@ + enum_decl(enum_view(*e)),
{
    let members = if e.flags.contains(EnumFlags::ALL_UNIT) {
        unit_union(&e.variants)
    } else {
        tagged_union(&e.variants, &e.tagging)
    };
    let joined = join_strings(&members, " | ");
    out.append("export type ");
    out.append(e.ident.as_str());
    out.append(" = ");
    out.append(joined.as_str());
    out.append(";\n\n");
    assert(final(out)@ =~= old(out)@ + enum_decl(enum_view(*e)));
}

/// One more field adds its line.
proof fn lemma_field_lines_step(fs: Seq<FieldView>, i: int)
    requires
        0 <= i < fs.len(),
    ensures
        field_lines(fs.take(i + 1)) == field_lines(fs.take(i)) + field_line(fs[i]),
        field_lines(Seq::<FieldView>::empty()) == Seq::<char>::empty(),
{
    reveal(field_lines);
    assert(fs.take(i + 1).drop_last() =~= fs.take(i));
    assert(fs.take(i + 1).last() == fs[i]);
}

/// Appends the lines of an interface for its fields.
fn emit_field_lines(fields: &Vec<Field>, out: &mut String)
    ensures
        final(out)@ == old(out)@ + field_lines(fields_view(fields@)),
{
    let ghost fv = fields_view(fields@);
    let ghost start = out@;
    proof {
        lemma_fields_view(fields@);
        reveal(field_lines);
    }
    assert(fv.take(0) =~= Seq::<FieldView>::empty());
    assert(out@ =~= start + field_lines(fv.take(0)));
    let mut i: usize = 0;
    while i < fields.len()
        invariant
            i <= fields@.len(),
            fv.len() == fields@.len(),
            forall|j: int| 0 <= j < fv.len() ==> #[trigger] fv[j] == field_view(fields@[j]),
            out@ == start + field_lines(fv.take(i as int)),
        decreases fields@.len() - i,
    {
        let f = &fields[i];
        proof {
            lemma_field_lines_step(fv, i as int);
        }
        assert((1u8 | 2u8) == 3u8) by (bit_vector);
        let ghost before = out@;
        if !f.flags.intersects(FieldFlags::SKIP_SER | FieldFlags::SKIP_DE) {
            let t = ty_to_ts(&f.ty);
            out.append("  ");
            out.append(f.wire_name.as_str());
            match &f.default {
                FieldDefault::NoDefault => {
                    proof {
                        reveal_strlit("");
                    }
                },
                _ => out.append("?"),
            }
            out.append(": ");
            out.append(t.as_str());
            out.append(";\n");
            assert(out@ =~= before + field_line(fv[i as int]));
        } else {
            assert(field_line(fv[i as int]) =~= Seq::<char>::empty());
            assert(out@ =~= before + field_line(fv[i as int]));
        }
        i = i + 1;
    }
    assert(fv.take(fields@.len() as int) =~= fv);
}

/// Appends the declaration of a struct.
fn emit_struct(st: &Struct, out: &mut String)
    ensures
        final(out)@ == old(out)@ + struct_decl(struct_view(*st)),
{
    match &st.shape {
        StructShape::Named(fields) => {
            out.append("export interface ");
            out.append(st.ident.as_str());
            out.append(" {\n");
            emit_field_lines(fields, out);
            out.append("}\n\n");
        },
        StructShape::Tuple(idents) => {
            let types = join_strings(&tys_to_ts(idents), ", ");
            out.append("export type ");
            out.append(st.ident.as_str());
            out.append(" = [");
            out.append(types.as_str());
            out.append("];\n\n");
        },
        StructShape::Unit => {
            out.append("export type ");
            out.append(st.ident.as_str());
            out.append(" = null;\n\n");
        },
    }
    assert(final(out)@ =~= old(out)@ + struct_decl(struct_view(*st)));
}

/// Appends a type alias declaration.
fn emit_alias(ident: &str, ty: &Schema, out: &mut String)
    ensures
        final(out)@ == old(out)@ + alias_decl(ident@, ty@),
{
    let t = ty_to_ts(ty);
    out.append("export type ");
    out.append(ident);
    out.append(" = ");
    out.append(t.as_str());
    out.append(";\n\n");
    assert(final(out)@ =~= old(out)@ + alias_decl(ident@, ty@));
}

/// Appends the declaration of a type definition; type references have
/// none.
pub fn emit_decl(s: &Schema, out: &mut String)
    ensures
        final(out)@ == old(out)@ + decl(s@),
{
    proof {
        reveal_with_fuel(crate::schema::schema_view, 2);
    }
    match s {
        Schema::Struct(st) => emit_struct(st, out),
        Schema::Transparent(t) => emit_alias(t.ident.as_str(), &t.field_ty, out),
        Schema::Enum(e) => emit_enum(e, out),
        Schema::IntoProxy(p) => emit_alias(p.ident.as_str(), &p.into_ty, out),
        Schema::FromProxy(p) => emit_alias(p.ident.as_str(), &p.proxy, out),
        _ => {
            assert(old(out)@ + decl(s@) =~= old(out)@);
        },
    }
}

// ---------------------------------------------------------------------------
// The whole output
// ---------------------------------------------------------------------------

/// Whether a schema is a named type definition: one that gets a
/// declaration.
pub open spec fn is_named(s: SchemaView) -> bool {
    &&& spec_ident(s) is Some
    &&& spec_ident(s)->0.len() > 0
    &&& !spec_is_type_ref(s)
}

/// The named type definitions among schemas, in their order.
#[verifier::opaque]
pub open spec fn named(ss: Seq<SchemaView>) -> Seq<SchemaView>
    decreases ss.len(),
{
    if ss.len() == 0 {
        Seq::empty()
    } else {
        let r = named(ss.drop_last());
        if is_named(ss.last()) {
            r.push(ss.last())
        } else {
            r
        }
    }
}

/// The key by which declarations are ordered: the UTF-8 bytes of the
/// type's name.
pub open spec fn ident_key(s: SchemaView) -> Seq<u8> {
    encode_utf8(spec_ident(s)->0)
}

/// Lexicographic order of byte strings (the order of Rust's `str`).
pub open spec fn bytes_lt(a: Seq<u8>, b: Seq<u8>) -> bool
    decreases a.len(),
{
    if b.len() == 0 {
        false
    } else if a.len() == 0 {
        true
    } else if a[0] != b[0] {
        a[0] < b[0]
    } else {
        bytes_lt(a.drop_first(), b.drop_first())
    }
}

/// `x` inserted into `s` after every element whose key is not greater than
/// its own, counting from the end.
#[verifier::opaque]
pub open spec fn insert_sorted(s: Seq<SchemaView>, x: SchemaView) -> Seq<SchemaView>
    decreases s.len(),
{
    if s.len() == 0 {
        seq![x]
    } else if bytes_lt(ident_key(x), ident_key(s.last())) {
        insert_sorted(s.drop_last(), x).push(s.last())
    } else {
        s.push(x)
    }
}

/// Schemas stably sorted by key: elements with equal keys keep their order.
#[verifier::opaque]
pub open spec fn sort_by_ident(s: Seq<SchemaView>) -> Seq<SchemaView>
    decreases s.len(),
{
    if s.len() == 0 {
        Seq::empty()
    } else {
        insert_sorted(sort_by_ident(s.drop_last()), s.last())
    }
}

/// The declarations of schemas, one after the other.
#[verifier::opaque]
pub open spec fn decls(s: Seq<SchemaView>) -> Seq<char>
    decreases s.len(),
{
    if s.len() == 0 {
        Seq::empty()
    } else {
        decls(s.drop_last()) + decl(s.last())
    }
}

/// The TypeScript declarations of a list of schemas: those of its named
/// type definitions, sorted by name.
pub open spec fn typescript(ss: Seq<SchemaView>) -> Seq<char> {
    decls(sort_by_ident(named(ss)))
}

/// The schemas at the given positions.
pub open spec fn picked(sv: Seq<SchemaView>, idx: Seq<usize>) -> Seq<SchemaView> {
    Seq::new(idx.len(), |k: int| sv[idx[k] as int])
}

proof fn lemma_named_empty()
    ensures
        named(Seq::<SchemaView>::empty()) == Seq::<SchemaView>::empty(),
{
    reveal(named);
}

proof fn lemma_named_step(ss: Seq<SchemaView>, i: int)
    requires
        0 <= i < ss.len(),
    ensures
        named(ss.take(i + 1)) == if is_named(ss[i]) {
            named(ss.take(i)).push(ss[i])
        } else {
            named(ss.take(i))
        },
{
    reveal(named);
    assert(ss.take(i + 1).drop_last() =~= ss.take(i));
    assert(ss.take(i + 1).last() == ss[i]);
}

proof fn lemma_sort_empty()
    ensures
        sort_by_ident(Seq::<SchemaView>::empty()) == Seq::<SchemaView>::empty(),
{
    reveal(sort_by_ident);
}

proof fn lemma_sort_step(s: Seq<SchemaView>, i: int)
    requires
        0 <= i < s.len(),
    ensures
        sort_by_ident(s.take(i + 1)) == insert_sorted(sort_by_ident(s.take(i)), s[i]),
{
    reveal(sort_by_ident);
    assert(s.take(i + 1).drop_last() =~= s.take(i));
    assert(s.take(i + 1).last() == s[i]);
}

proof fn lemma_insert_step(s: Seq<SchemaView>, j: int, x: SchemaView)
    requires
        0 < j <= s.len(),
    ensures
        bytes_lt(ident_key(x), ident_key(s[j - 1])) ==> insert_sorted(s.take(j), x)
            == insert_sorted(s.take(j - 1), x).push(s[j - 1]),
        !bytes_lt(ident_key(x), ident_key(s[j - 1])) ==> insert_sorted(s.take(j), x) == s.take(
            j,
        ).push(x),
        insert_sorted(Seq::<SchemaView>::empty(), x) == seq![x],
{
    reveal(insert_sorted);
    assert(s.take(j).drop_last() =~= s.take(j - 1));
    assert(s.take(j).last() == s[j - 1]);
}

proof fn lemma_decls_empty()
    ensures
        decls(Seq::<SchemaView>::empty()) == Seq::<char>::empty(),
{
    reveal(decls);
}

proof fn lemma_decls_step(s: Seq<SchemaView>, i: int)
    requires
        0 <= i < s.len(),
    ensures
        decls(s.take(i + 1)) == decls(s.take(i)) + decl(s[i]),
{
    reveal(decls);
    assert(s.take(i + 1).drop_last() =~= s.take(i));
    assert(s.take(i + 1).last() == s[i]);
}

/// Lexicographic order of byte strings.
fn bytes_less(a: &[u8], b: &[u8]) -> (r: bool)
    ensures
        r == bytes_lt(a@, b@),
{
    let mut i: usize = 0;
    assert(a@.skip(0) =~= a@);
    assert(b@.skip(0) =~= b@);
    while i < a.len() && i < b.len()
        invariant
            i <= a@.len(),
            i <= b@.len(),
            bytes_lt(a@, b@) == bytes_lt(a@.skip(i as int), b@.skip(i as int)),
        decreases a@.len() - i,
    {
        if a[i] != b[i] {
            return a[i] < b[i];
        }
        assert(a@.skip(i as int).drop_first() =~= a@.skip(i + 1));
        assert(b@.skip(i as int).drop_first() =~= b@.skip(i + 1));
        i = i + 1;
    }
    i < b.len()
}

/// Whether the name of `a` comes before that of `b`.
fn ident_less(a: &Schema, b: &Schema) -> (r: bool)
    requires
        is_named(a@),
        is_named(b@),
    ensures
        r == bytes_lt(ident_key(a@), ident_key(b@)),
{
    match (a.ident(), b.ident()) {
        (Some(x), Some(y)) => bytes_less(x.as_bytes(), y.as_bytes()),
        _ => false,
    }
}

/// Generates TypeScript declarations for schemas: one for each named type
/// definition, sorted by name (stably, so the output does not depend on
/// the order of differently named records), in the TypeScript syntax that
/// matches the serde representation of each type.
pub fn generate(schemas: &[Schema]) -> (r: String)
    ensures
        r@ == typescript(schemas_view(schemas@)),
{
    let ghost sv = schemas_view(schemas@);
    // The named definitions, by position.
    let mut idx: Vec<usize> = Vec::new();
    let mut i: usize = 0;
    proof {
        assert(sv.take(0) =~= Seq::<SchemaView>::empty());
        lemma_named_empty();
        assert(picked(sv, idx@) =~= Seq::<SchemaView>::empty());
    }
    while i < schemas.len()
        invariant
            i <= schemas@.len(),
            sv == schemas_view(schemas@),
            forall|k: int| 0 <= k < idx@.len() ==> #[trigger] idx@[k] < schemas@.len(),
            forall|k: int| 0 <= k < idx@.len() ==> is_named(schemas@[#[trigger] idx@[k] as int]@),
            picked(sv, idx@) == named(sv.take(i as int)),
        decreases schemas@.len() - i,
    {
        proof {
            lemma_named_step(sv, i as int);
        }
        let s = &schemas[i];
        assert(sv[i as int] == s@);
        let has_name = match s.ident() {
            Some(name) => !name.is_empty(),
            None => false,
        };
        if has_name && !s.is_type_ref() {
            let ghost before = idx@;
            idx.push(i);
            assert(picked(sv, idx@) =~= picked(sv, before).push(sv[i as int]));
        }
        i = i + 1;
    }
    assert(sv.take(schemas@.len() as int) =~= sv);
    let ghost nv = picked(sv, idx@);
    // Stable insertion sort by name.
    let mut order: Vec<usize> = Vec::new();
    let mut k: usize = 0;
    proof {
        lemma_sort_empty();
        assert(nv.take(0) =~= Seq::<SchemaView>::empty());
        assert(picked(sv, order@) =~= Seq::<SchemaView>::empty());
    }
    while k < idx.len()
        invariant
            k <= idx@.len(),
            sv == schemas_view(schemas@),
            nv == picked(sv, idx@),
            nv == named(sv),
            forall|m: int| 0 <= m < idx@.len() ==> #[trigger] idx@[m] < schemas@.len(),
            forall|m: int| 0 <= m < idx@.len() ==> is_named(schemas@[#[trigger] idx@[m] as int]@),
            forall|m: int| 0 <= m < order@.len() ==> #[trigger] order@[m] < schemas@.len(),
            forall|m: int|
                0 <= m < order@.len() ==> is_named(schemas@[#[trigger] order@[m] as int]@),
            picked(sv, order@) == sort_by_ident(nv.take(k as int)),
        decreases idx@.len() - k,
    {
        let x = idx[k];
        proof {
            lemma_sort_step(nv, k as int);
            assert(nv[k as int] == sv[x as int]);
            assert(sv[x as int] == schemas@[x as int]@);
        }
        let ghost ov = picked(sv, order@);
        let mut j: usize = order.len();
        assert(ov.take(j as int) =~= ov);
        assert(ov.skip(j as int) =~= Seq::<SchemaView>::empty());
        while j > 0 && ident_less(&schemas[x], &schemas[order[j - 1]])
            invariant
                j <= order@.len(),
                ov == picked(sv, order@),
                x < schemas@.len(),
                sv == schemas_view(schemas@),
                forall|m: int| 0 <= m < order@.len() ==> #[trigger] order@[m] < schemas@.len(),
                forall|m: int|
                    0 <= m < order@.len() ==> is_named(schemas@[#[trigger] order@[m] as int]@),
                is_named(schemas@[x as int]@),
                insert_sorted(ov, sv[x as int]) == insert_sorted(ov.take(j as int), sv[x as int])
                    + ov.skip(j as int),
            decreases j,
        {
            proof {
                lemma_insert_step(ov, j as int, sv[x as int]);
                assert(ov[j - 1] == schemas@[order@[j - 1] as int]@);
                assert(ov.skip(j - 1) =~= seq![ov[j - 1]] + ov.skip(j as int));
                assert(insert_sorted(ov.take(j - 1), sv[x as int]).push(ov[j - 1]) + ov.skip(
                    j as int,
                ) =~= insert_sorted(ov.take(j - 1), sv[x as int]) + ov.skip(j - 1));
            }
            j = j - 1;
        }
        proof {
            if j > 0 {
                lemma_insert_step(ov, j as int, sv[x as int]);
                assert(ov[j - 1] == schemas@[order@[j - 1] as int]@);
            } else {
                lemma_insert_step(seq![sv[x as int]], 1, sv[x as int]);
                assert(ov.take(0) =~= Seq::<SchemaView>::empty());
            }
        }
        order.insert(j, x);
        assert(picked(sv, order@) =~= ov.take(j as int).push(sv[x as int]) + ov.skip(j as int));
        k = k + 1;
    }
    assert(nv.take(idx@.len() as int) =~= nv);
    // The declarations, in that order.
    let ghost sorted = picked(sv, order@);
    let mut out = String::new();
    let mut m: usize = 0;
    proof {
        lemma_decls_empty();
        assert(sorted.take(0) =~= Seq::<SchemaView>::empty());
    }
    while m < order.len()
        invariant
            m <= order@.len(),
            sv == schemas_view(schemas@),
            sorted == picked(sv, order@),
            forall|q: int| 0 <= q < order@.len() ==> #[trigger] order@[q] < schemas@.len(),
            out@ == decls(sorted.take(m as int)),
        decreases order@.len() - m,
    {
        proof {
            lemma_decls_step(sorted, m as int);
        }
        emit_decl(&schemas[order[m]], &mut out);
        m = m + 1;
    }
    assert(sorted.take(order@.len() as int) =~= sorted);
    out
}

/// Generates TypeScript declarations from the raw bytes of a
/// `typewire_schemas` section: parses the section, then declares its
/// schemas as `generate` does. A malformed section is the error that
/// parsing it meets.
pub fn generate_from_section(data: &[u8]) -> (r: Result<String, Error>)
    ensures
        match spec_parse_section(data@) {
            Ok(v) => r matches Ok(t) && t@ == typescript(v),
            Err(e) => r == Err::<String, Error>(e),
        },
{
    let schemas = match parse_section(data) {
        Ok(s) => s,
        Err(e) => return Err(e),
    };
    Ok(generate(schemas.as_slice()))
}

// ---------------------------------------------------------------------------
// The order of the declarations
// ---------------------------------------------------------------------------

/// No byte string comes before itself.
pub proof fn lemma_bytes_lt_irreflexive(a: Seq<u8>)
    ensures
        !bytes_lt(a, a),
    decreases a.len(),
{
    if a.len() > 0 {
        lemma_bytes_lt_irreflexive(a.drop_first());
    }
}

/// The order of byte strings is transitive.
pub proof fn lemma_bytes_lt_transitive(a: Seq<u8>, b: Seq<u8>, c: Seq<u8>)
    requires
        bytes_lt(a, b),
        bytes_lt(b, c),
    ensures
        bytes_lt(a, c),
    decreases a.len(),
{
    if a.len() > 0 && a[0] == b[0] && b[0] == c[0] {
        lemma_bytes_lt_transitive(a.drop_first(), b.drop_first(), c.drop_first());
    }
}

/// Of two different byte strings, one comes before the other.
pub proof fn lemma_bytes_lt_total(a: Seq<u8>, b: Seq<u8>)
    ensures
        bytes_lt(a, b) || bytes_lt(b, a) || a == b,
    decreases a.len(),
{
    if a.len() == 0 && b.len() == 0 {
        assert(a =~= b);
    } else if a.len() > 0 && b.len() > 0 && a[0] == b[0] {
        lemma_bytes_lt_total(a.drop_first(), b.drop_first());
        if a.drop_first() == b.drop_first() {
            assert(a =~= seq![a[0]] + a.drop_first());
            assert(b =~= seq![b[0]] + b.drop_first());
        }
    }
}

/// Schemas whose keys never decrease.
pub open spec fn sorted_by_ident(s: Seq<SchemaView>) -> bool {
    forall|i: int, j: int|
        0 <= i < j < s.len() ==> !bytes_lt(ident_key(#[trigger] s[j]), ident_key(#[trigger] s[i]))
}

/// Inserting into a sorted sequence keeps it sorted and adds just the new
/// element.
proof fn lemma_insert_sorted(s: Seq<SchemaView>, x: SchemaView)
    requires
        sorted_by_ident(s),
    ensures
        sorted_by_ident(insert_sorted(s, x)),
        insert_sorted(s, x).to_multiset() == s.to_multiset().insert(x),
    decreases s.len(),
{
    broadcast use vstd::seq_lib::group_to_multiset_ensures;

    reveal(insert_sorted);
    if s.len() == 0 {
        assert(seq![x] =~= Seq::<SchemaView>::empty().push(x));
    } else {
        let last = s.last();
        let init = s.drop_last();
        assert(init.push(last) =~= s);
        assert forall|i: int, j: int| 0 <= i < j < init.len() implies !bytes_lt(
            ident_key(#[trigger] init[j]),
            ident_key(#[trigger] init[i]),
        ) by {
            assert(init[i] == s[i] && init[j] == s[j]);
        }
        if bytes_lt(ident_key(x), ident_key(last)) {
            lemma_insert_sorted(init, x);
            let r0 = insert_sorted(init, x);
            let r = r0.push(last);
            assert forall|i: int, j: int| 0 <= i < j < r.len() implies !bytes_lt(
                ident_key(#[trigger] r[j]),
                ident_key(#[trigger] r[i]),
            ) by {
                if j == r.len() - 1 {
                    let e = r0[i];
                    assert(r0.to_multiset().count(e) > 0);
                    if e == x {
                        if bytes_lt(ident_key(last), ident_key(x)) {
                            lemma_bytes_lt_transitive(ident_key(x), ident_key(last), ident_key(x));
                            lemma_bytes_lt_irreflexive(ident_key(x));
                        }
                    } else {
                        assert(init.to_multiset().count(e) > 0);
                        assert(init.contains(e));
                        let m = choose|m: int| 0 <= m < init.len() && init[m] == e;
                        assert(s[m] == e);
                        assert(s[s.len() - 1] == last);
                    }
                } else {
                    assert(r[i] == r0[i] && r[j] == r0[j]);
                }
            }
        } else {
            let r = s.push(x);
            assert forall|i: int, j: int| 0 <= i < j < r.len() implies !bytes_lt(
                ident_key(#[trigger] r[j]),
                ident_key(#[trigger] r[i]),
            ) by {
                if j == r.len() - 1 {
                    let e = s[i];
                    if i < s.len() - 1 {
                        assert(s[s.len() - 1] == last);
                        assert(!bytes_lt(ident_key(last), ident_key(e)));
                    }
                    if bytes_lt(ident_key(x), ident_key(e)) {
                        lemma_bytes_lt_total(ident_key(x), ident_key(last));
                        if bytes_lt(ident_key(last), ident_key(x)) {
                            lemma_bytes_lt_transitive(ident_key(last), ident_key(x), ident_key(e));
                        }
                    }
                } else {
                    assert(r[i] == s[i] && r[j] == s[j]);
                }
            }
        }
    }
}

/// The declarations come sorted by name, and each named definition has
/// exactly one: the order is a permutation of the definitions that keeps
/// names non-decreasing.
pub proof fn lemma_sort_by_ident(s: Seq<SchemaView>)
    ensures
        sorted_by_ident(sort_by_ident(s)),
        sort_by_ident(s).to_multiset() == s.to_multiset(),
    decreases s.len(),
{
    broadcast use vstd::seq_lib::group_to_multiset_ensures;

    reveal(sort_by_ident);
    if s.len() == 0 {
        assert(s.to_multiset() =~= Multiset::<SchemaView>::empty());
        assert(sort_by_ident(s).to_multiset() =~= Multiset::<SchemaView>::empty());
    } else {
        lemma_sort_by_ident(s.drop_last());
        lemma_insert_sorted(sort_by_ident(s.drop_last()), s.last());
        assert(s.drop_last().push(s.last()) =~= s);
    }
}

/// Whether equal names mean equal schemas among the elements of `m`.
pub open spec fn names_identify(m: Multiset<SchemaView>) -> bool {
    forall|x: SchemaView, y: SchemaView|
        m.count(x) > 0 && m.count(y) > 0 && ident_key(x) == ident_key(y) ==> x == y
}

/// Two sorted sequences with the same elements, among which a name
/// identifies a schema, are equal.
proof fn lemma_sorted_unique(s: Seq<SchemaView>, t: Seq<SchemaView>)
    requires
        sorted_by_ident(s),
        sorted_by_ident(t),
        s.to_multiset() == t.to_multiset(),
        names_identify(s.to_multiset()),
    ensures
        s == t,
    decreases s.len(),
{
    broadcast use vstd::seq_lib::group_to_multiset_ensures;
    broadcast use vstd::multiset::group_multiset_axioms;

    assert(s.to_multiset().len() == s.len());
    assert(t.to_multiset().len() == t.len());
    if s.len() == 0 {
        assert(s =~= t);
    } else {
        let s0 = s[0];
        let t0 = t[0];
        assert(t.to_multiset().count(t0) > 0);
        assert(s.contains(t0));
        let k = choose|k: int| 0 <= k < s.len() && s[k] == t0;
        if k > 0 {
            assert(!bytes_lt(ident_key(s[k]), ident_key(s[0])));
        } else {
            lemma_bytes_lt_irreflexive(ident_key(s0));
        }
        assert(s.to_multiset().count(s0) > 0);
        assert(t.contains(s0));
        let m = choose|m: int| 0 <= m < t.len() && t[m] == s0;
        if m > 0 {
            assert(!bytes_lt(ident_key(t[m]), ident_key(t[0])));
        } else {
            lemma_bytes_lt_irreflexive(ident_key(t0));
        }
        lemma_bytes_lt_total(ident_key(s0), ident_key(t0));
        assert(s0 == t0);
        let s1 = s.drop_first();
        let t1 = t.drop_first();
        assert(s.remove(0) =~= s1);
        assert(t.remove(0) =~= t1);
        assert(s1.to_multiset() =~= t1.to_multiset());
        assert forall|i: int, j: int| 0 <= i < j < s1.len() implies !bytes_lt(
            ident_key(#[trigger] s1[j]),
            ident_key(#[trigger] s1[i]),
        ) by {
            assert(s1[i] == s[i + 1] && s1[j] == s[j + 1]);
        }
        assert forall|i: int, j: int| 0 <= i < j < t1.len() implies !bytes_lt(
            ident_key(#[trigger] t1[j]),
            ident_key(#[trigger] t1[i]),
        ) by {
            assert(t1[i] == t[i + 1] && t1[j] == t[j + 1]);
        }
        assert forall|x: SchemaView, y: SchemaView|
            s1.to_multiset().count(x) > 0 && s1.to_multiset().count(y) > 0 && ident_key(x)
                == ident_key(y) implies x == y by {
            assert(s.to_multiset().count(x) > 0);
            assert(s.to_multiset().count(y) > 0);
        }
        lemma_sorted_unique(s1, t1);
        assert(s =~= seq![s0] + s1);
        assert(t =~= seq![t0] + t1);
    }
}

/// The declarations do not depend on the order of the records: two lists
/// of schemas with the same named definitions, in any order, among which a
/// name identifies a definition, give the same TypeScript.
pub proof fn lemma_typescript_order_independent(a: Seq<SchemaView>, b: Seq<SchemaView>)
    requires
        named(a).to_multiset() == named(b).to_multiset(),
        names_identify(named(a).to_multiset()),
    ensures
        typescript(a) == typescript(b),
{
    lemma_sort_by_ident(named(a));
    lemma_sort_by_ident(named(b));
    lemma_sorted_unique(sort_by_ident(named(a)), sort_by_ident(named(b)));
}


/// The named definitions of two lists in a row are those of the first
/// followed by those of the second.
proof fn lemma_named_concat(a: Seq<SchemaView>, b: Seq<SchemaView>)
    ensures
        named(a + b) == named(a) + named(b),
    decreases b.len(),
{
    reveal(named);
    if b.len() == 0 {
        assert(a + b =~= a);
        assert(named(a) + named(b) =~= named(a));
    } else {
        lemma_named_concat(a, b.drop_last());
        assert((a + b).drop_last() =~= a + b.drop_last());
        assert((a + b).last() == b.last());
        if is_named(b.last()) {
            assert(named(a + b) =~= named(a) + named(b));
        } else {
            assert(named(a + b) =~= named(a) + named(b));
        }
    }
}

/// The declarations of two sections written by the encoder do not depend
/// on which comes first in the binary, when every record reads back in
/// both orders and a name identifies a definition.
pub proof fn lemma_sections_order_independent(xs: Seq<SchemaView>, ys: Seq<SchemaView>)
    requires
        crate::roundtrip::section_reads_back(xs + ys),
        crate::roundtrip::section_reads_back(ys + xs),
        names_identify(named(xs + ys).to_multiset()),
    ensures
        spec_parse_section(
            crate::encode::section_bytes(xs) + crate::encode::section_bytes(ys),
        ) == Ok::<Seq<SchemaView>, Error>(xs + ys),
        spec_parse_section(
            crate::encode::section_bytes(ys) + crate::encode::section_bytes(xs),
        ) == Ok::<Seq<SchemaView>, Error>(ys + xs),
        typescript(xs + ys) == typescript(ys + xs),
{
    crate::roundtrip::lemma_sections_concat(xs, ys);
    crate::roundtrip::lemma_sections_concat(ys, xs);
    lemma_named_concat(xs, ys);
    lemma_named_concat(ys, xs);
    vstd::seq_lib::lemma_multiset_commutative(named(xs), named(ys));
    vstd::seq_lib::lemma_multiset_commutative(named(ys), named(xs));
    assert(named(xs + ys).to_multiset() =~= named(ys + xs).to_multiset());
    lemma_typescript_order_independent(xs + ys, ys + xs);
}

/// Two lists of schemas declare the same in either order, when their
/// names identify their definitions.
pub proof fn lemma_lists_order_independent(xs: Seq<SchemaView>, ys: Seq<SchemaView>)
    requires
        names_identify(named(xs + ys).to_multiset()),
    ensures
        typescript(xs + ys) == typescript(ys + xs),
{
    lemma_named_concat(xs, ys);
    lemma_named_concat(ys, xs);
    vstd::seq_lib::lemma_multiset_commutative(named(xs), named(ys));
    vstd::seq_lib::lemma_multiset_commutative(named(ys), named(xs));
    assert(named(xs + ys).to_multiset() =~= named(ys + xs).to_multiset());
    lemma_typescript_order_independent(xs + ys, ys + xs);
}

/// How type references read in TypeScript: every integer and float is a
/// `number`; `bool` is `boolean`; text-like scalars are `string`; an
/// option adds `| null` to its type; a box is its inner type; a sequence
/// is its element type followed by `[]`, a union element in parentheses;
/// a map is a `Record` of its key and value types; a native type is its
/// name.
pub proof fn lemma_type_references(t: SchemaView, k: SchemaView, n: Seq<char>, s: Scalar)
    ensures
        s is bool ==> ty_ts(SchemaView::Primitive(s)) == "boolean"@,
        (s is u8 || s is u16 || s is u32 || s is u64 || s is u128 || s is i8 || s is i16 || s is i32
            || s is i64 || s is i128 || s is usize || s is isize || s is F32 || s is F64) ==> ty_ts(
            SchemaView::Primitive(s),
        ) == "number"@,
        (s is char || s is str || s is Url || s is Uuid || s is DateTime || s is FractionalIndex)
            ==> ty_ts(SchemaView::Primitive(s)) == "string"@,
        ty_ts(SchemaView::Option(Box::new(t))) == ty_ts(t) + " | null"@,
        ty_ts(SchemaView::Box(Box::new(t))) == ty_ts(t),
        ty_ts(t).contains('|') ==> ty_ts(SchemaView::Sequence(Box::new(t))) == "("@ + ty_ts(t) + ")"@ + "[]"@,
        !ty_ts(t).contains('|') ==> ty_ts(SchemaView::Sequence(Box::new(t))) == ty_ts(t) + "[]"@,
        ty_ts(SchemaView::Mapping { key: Box::new(k), value: Box::new(t) }) == "Record<"@ + ty_ts(k)
            + ", "@ + ty_ts(t) + ">"@,
        ty_ts(SchemaView::Native(n)) == n,
{
}

/// A field skipped either way has no line in its interface; any other
/// field has one line, its wire name then its type, marked optional
/// exactly when it has a default; and the lines of fields in a row are
/// those of each field in order.
pub proof fn lemma_field_lines(f: FieldView, a: Seq<FieldView>, b: Seq<FieldView>)
    ensures
        (f.flags & 1u8 == 1u8 || f.flags & 2u8 == 2u8) ==> field_line(f) == Seq::<char>::empty(),
        !(f.flags & 1u8 == 1u8 || f.flags & 2u8 == 2u8) && f.default is NoDefault ==> field_line(f)
            == "  "@ + f.wire_name + ""@ + ": "@ + ty_ts(*f.ty) + ";\n"@,
        !(f.flags & 1u8 == 1u8 || f.flags & 2u8 == 2u8) && !(f.default is NoDefault) ==> field_line(f)
            == "  "@ + f.wire_name + "?"@ + ": "@ + ty_ts(*f.ty) + ";\n"@,
        field_lines(a + b) == field_lines(a) + field_lines(b),
    decreases b.len(),
{
    let x = f.flags;
    assert((x & 1u8 == 1u8 || x & 2u8 == 2u8) == (x & 3u8 != 0)) by (bit_vector);
    reveal(field_lines);
    if b.len() == 0 {
        assert(a + b =~= a);
        assert(field_lines(a) + Seq::<char>::empty() =~= field_lines(a));
    } else {
        lemma_field_lines(f, a, b.drop_last());
        assert((a + b).drop_last() =~= a + b.drop_last());
        assert((a + b).last() == b.last());
        assert(field_lines(a) + field_lines(b.drop_last()) + field_line(b.last()) =~= field_lines(a)
            + (field_lines(b.drop_last()) + field_line(b.last())));
    }
}

} // verus!
