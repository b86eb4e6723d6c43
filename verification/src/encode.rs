//! Encoding of schema values into section records: the byte format that
//! `decode` reads.

use vstd::prelude::*;
use vstd::string::*;
use vstd::utf8::*;

use crate::scalar::{Scalar, scalar_code};
use crate::schema::{
    Enum, Struct, struct_view, enum_view, Field, FieldDefault, FieldDefaultView, FieldView, Schema, SchemaView, StructShape,
    StructShapeView, Tagging, TaggingView, Variant, VariantKind, VariantKindView, VariantView,
    field_view, fields_view, schema_view, spec_ident, strings_view, tys_view, variant_view,
    variants_view,
};
use crate::decode::schemas_view;

verus! {

// ---------------------------------------------------------------------------
// Specification of the byte format
// ---------------------------------------------------------------------------

/// A `u32` in little-endian order.
pub open spec fn u32_bytes(n: u32) -> Seq<u8> {
    seq![(n & 0xff) as u8, ((n >> 8u32) & 0xff) as u8, ((n >> 16u32) & 0xff) as u8, ((n >> 24u32) & 0xff) as u8]
}

/// A count or length, as the `u32` the format stores.
pub open spec fn count_bytes(n: int) -> Seq<u8> {
    u32_bytes(n as u32)
}

/// A string: its UTF-8 length as a `u32`, then its UTF-8 bytes.
pub open spec fn str_bytes(s: Seq<char>) -> Seq<u8> {
    count_bytes(encode_utf8(s).len() as int) + encode_utf8(s)
}

/// Strings in a row.
pub open spec fn strs_bytes(ss: Seq<Seq<char>>) -> Seq<u8>
    decreases ss.len(),
{
    if ss.len() == 0 {
        Seq::empty()
    } else {
        str_bytes(ss[0]) + strs_bytes(ss.subrange(1, ss.len() as int))
    }
}

/// A type identity. A definition standing where a type is expected is
/// written as a reference to its name.
pub open spec fn ty_bytes(t: SchemaView) -> Seq<u8>
    decreases t,
{
    match t {
        SchemaView::Native(n) => str_bytes(n),
        SchemaView::Primitive(s) => seq![1u8, scalar_code(s)],
        SchemaView::Option(i) => seq![2u8] + ty_bytes(*i),
        SchemaView::Box(i) => seq![3u8] + ty_bytes(*i),
        SchemaView::Sequence(i) => seq![4u8] + ty_bytes(*i),
        SchemaView::Mapping { key, value } => seq![5u8] + ty_bytes(*key) + ty_bytes(*value),
        SchemaView::Tuple(ts) => seq![6u8, ts.len() as u8] + tys_bytes(ts),
        SchemaView::Skipped => seq![11u8],
        _ => str_bytes(spec_ident(t)->0),
    }
}

/// Type identities in a row.
pub open spec fn tys_bytes(ts: Seq<SchemaView>) -> Seq<u8>
    decreases ts,
{
    if ts.len() == 0 {
        Seq::empty()
    } else {
        ty_bytes(ts[0]) + tys_bytes(ts.subrange(1, ts.len() as int))
    }
}

pub open spec fn default_code(d: FieldDefaultView) -> u8 {
    match d {
        FieldDefaultView::NoDefault => 0,
        FieldDefaultView::Default => 1,
        FieldDefaultView::Path(_) => 2,
    }
}

/// The bytes of a field after its type.
pub open spec fn field_tail_bytes(f: FieldView) -> Seq<u8> {
    str_bytes(f.wire_name) + seq![f.flags, default_code(f.default)] + count_bytes(
        f.aliases.len() as int,
    ) + strs_bytes(f.aliases)
}

/// A field record.
pub open spec fn field_bytes(f: FieldView) -> Seq<u8> {
    str_bytes(f.ident) + ty_bytes(*f.ty) + field_tail_bytes(f)
}

/// Field records in a row.
pub open spec fn fields_bytes(fs: Seq<FieldView>) -> Seq<u8>
    decreases fs.len(),
{
    if fs.len() == 0 {
        Seq::empty()
    } else {
        field_bytes(fs[0]) + fields_bytes(fs.subrange(1, fs.len() as int))
    }
}

/// The aliases of a variant: its names after the primary one.
pub open spec fn variant_aliases(v: VariantView) -> Seq<Seq<char>> {
    if v.all_wire_names.len() == 0 {
        Seq::empty()
    } else {
        v.all_wire_names.subrange(1, v.all_wire_names.len() as int)
    }
}

/// Kind code, child count and children of a variant payload.
pub open spec fn kind_bytes(k: VariantKindView) -> Seq<u8> {
    match k {
        VariantKindView::Unit => seq![0u8] + count_bytes(0),
        VariantKindView::Named(fs) => seq![1u8] + count_bytes(fs.len() as int) + fields_bytes(fs),
        VariantKindView::Unnamed(ts) => seq![2u8] + count_bytes(ts.len() as int) + tys_bytes(ts),
    }
}

/// A variant record.
pub open spec fn variant_bytes(v: VariantView) -> Seq<u8> {
    str_bytes(v.ident) + str_bytes(v.wire_name) + seq![v.flags] + kind_bytes(v.kind) + count_bytes(
        variant_aliases(v).len() as int,
    ) + strs_bytes(variant_aliases(v))
}

/// Variant records in a row.
pub open spec fn variants_bytes(vs: Seq<VariantView>) -> Seq<u8>
    decreases vs.len(),
{
    if vs.len() == 0 {
        Seq::empty()
    } else {
        variant_bytes(vs[0]) + variants_bytes(vs.subrange(1, vs.len() as int))
    }
}

/// Tagging code, tag key and content key of an enum.
pub open spec fn tagging_bytes(t: TaggingView) -> Seq<u8> {
    match t {
        TaggingView::External => seq![0u8] + str_bytes(Seq::empty()) + str_bytes(Seq::empty()),
        TaggingView::Internal { tag } => seq![1u8] + str_bytes(tag) + str_bytes(Seq::empty()),
        TaggingView::Adjacent { tag, content } => seq![2u8] + str_bytes(tag) + str_bytes(content),
        TaggingView::Untagged => seq![3u8] + str_bytes(Seq::empty()) + str_bytes(Seq::empty()),
    }
}

/// Shape code, generic count, field count and fields of a struct.
pub open spec fn shape_bytes(shape: StructShapeView, generics: nat) -> Seq<u8> {
    match shape {
        StructShapeView::Named(fs) => seq![0u8] + count_bytes(generics as int) + count_bytes(
            fs.len() as int,
        ) + fields_bytes(fs),
        StructShapeView::Tuple(ts) => seq![1u8] + count_bytes(generics as int) + count_bytes(
            ts.len() as int,
        ) + tys_bytes(ts),
        StructShapeView::Unit => seq![2u8] + count_bytes(generics as int) + count_bytes(0),
    }
}

/// The body of a record: a tag byte and what it announces. A type
/// reference other than a native name or a primitive is written as its
/// type identity.
pub open spec fn record_body(s: SchemaView) -> Seq<u8> {
    match s {
        SchemaView::Native(n) => seq![0u8] + str_bytes(n),
        SchemaView::Primitive(p) => seq![1u8, scalar_code(p)],
        SchemaView::Struct(st) => seq![6u8] + str_bytes(st.ident) + seq![st.flags] + shape_bytes(
            st.shape,
            st.generics.len(),
        ),
        SchemaView::Transparent(t) => seq![7u8] + str_bytes(t.ident) + seq![
            if t.atomic {
                1u8
            } else {
                0u8
            },
        ] + ty_bytes(*t.field_ty),
        SchemaView::Enum(e) => seq![8u8] + str_bytes(e.ident) + seq![e.flags] + tagging_bytes(
            e.tagging,
        ) + count_bytes(e.generics.len() as int) + count_bytes(e.variants.len() as int)
            + variants_bytes(e.variants),
        SchemaView::IntoProxy(p) => seq![9u8] + str_bytes(p.ident) + count_bytes(
            p.generics.len() as int,
        ) + ty_bytes(*p.into_ty),
        SchemaView::FromProxy(p) => seq![10u8] + str_bytes(p.ident) + count_bytes(
            p.generics.len() as int,
        ) + ty_bytes(*p.proxy) + seq![
            if p.is_try {
                1u8
            } else {
                0u8
            },
        ],
        _ => ty_bytes(s),
    }
}

/// A record: the body's length as a `u32`, then the body.
pub open spec fn record_bytes(s: SchemaView) -> Seq<u8> {
    count_bytes(record_body(s).len() as int) + record_body(s)
}

/// A section: records in a row.
pub open spec fn section_bytes(ss: Seq<SchemaView>) -> Seq<u8>
    decreases ss.len(),
{
    if ss.len() == 0 {
        Seq::empty()
    } else {
        record_bytes(ss[0]) + section_bytes(ss.subrange(1, ss.len() as int))
    }
}

// ---------------------------------------------------------------------------
// What fits in the format's counters
// ---------------------------------------------------------------------------

pub open spec fn count_fits(n: int) -> bool {
    0 <= n <= u32::MAX
}

pub open spec fn str_fits(s: Seq<char>) -> bool {
    count_fits(encode_utf8(s).len() as int)
}

pub open spec fn strs_fit(ss: Seq<Seq<char>>) -> bool {
    count_fits(ss.len() as int) && forall|i: int| 0 <= i < ss.len() ==> str_fits(#[trigger] ss[i])
}

/// Every string and count of a type identity fits its counter; a tuple has
/// at most 255 elements.
pub open spec fn ty_fits(t: SchemaView) -> bool
    decreases t,
{
    match t {
        SchemaView::Native(n) => str_fits(n),
        SchemaView::Primitive(_) => true,
        SchemaView::Option(i) => ty_fits(*i),
        SchemaView::Box(i) => ty_fits(*i),
        SchemaView::Sequence(i) => ty_fits(*i),
        SchemaView::Mapping { key, value } => ty_fits(*key) && ty_fits(*value),
        SchemaView::Tuple(ts) => ts.len() <= 255 && tys_fit(ts),
        SchemaView::Skipped => true,
        _ => str_fits(spec_ident(t)->0),
    }
}

pub open spec fn tys_fit(ts: Seq<SchemaView>) -> bool
    decreases ts,
{
    if ts.len() == 0 {
        true
    } else {
        ty_fits(ts[0]) && tys_fit(ts.subrange(1, ts.len() as int))
    }
}

pub open spec fn field_fits(f: FieldView) -> bool {
    str_fits(f.ident) && ty_fits(*f.ty) && str_fits(f.wire_name) && strs_fit(f.aliases)
}

pub open spec fn fields_fit(fs: Seq<FieldView>) -> bool {
    count_fits(fs.len() as int) && forall|i: int| 0 <= i < fs.len() ==> field_fits(#[trigger] fs[i])
}

pub open spec fn variant_fits(v: VariantView) -> bool {
    &&& str_fits(v.ident)
    &&& str_fits(v.wire_name)
    &&& strs_fit(variant_aliases(v))
    &&& match v.kind {
        VariantKindView::Unit => true,
        VariantKindView::Named(fs) => fields_fit(fs),
        VariantKindView::Unnamed(ts) => count_fits(ts.len() as int) && tys_fit(ts),
    }
}

pub open spec fn variants_fit(vs: Seq<VariantView>) -> bool {
    count_fits(vs.len() as int) && forall|i: int|
        0 <= i < vs.len() ==> variant_fits(#[trigger] vs[i])
}

pub open spec fn tagging_fits(t: TaggingView) -> bool {
    match t {
        TaggingView::Internal { tag } => str_fits(tag),
        TaggingView::Adjacent { tag, content } => str_fits(tag) && str_fits(content),
        _ => true,
    }
}

/// Every string and count of a record fits its counter, and so does the
/// record's length.
pub open spec fn record_fits(s: SchemaView) -> bool {
    &&& count_fits(record_body(s).len() as int)
    &&& match s {
        SchemaView::Native(n) => str_fits(n),
        SchemaView::Primitive(_) => true,
        SchemaView::Struct(st) => str_fits(st.ident) && count_fits(st.generics.len() as int)
            && match st.shape {
            StructShapeView::Named(fs) => fields_fit(fs),
            StructShapeView::Tuple(ts) => count_fits(ts.len() as int) && tys_fit(ts),
            StructShapeView::Unit => true,
        },
        SchemaView::Transparent(t) => str_fits(t.ident) && ty_fits(*t.field_ty),
        SchemaView::Enum(e) => str_fits(e.ident) && tagging_fits(e.tagging) && count_fits(
            e.generics.len() as int,
        ) && variants_fit(e.variants),
        SchemaView::IntoProxy(p) => str_fits(p.ident) && count_fits(p.generics.len() as int)
            && ty_fits(*p.into_ty),
        SchemaView::FromProxy(p) => str_fits(p.ident) && count_fits(p.generics.len() as int)
            && ty_fits(*p.proxy),
        _ => ty_fits(s),
    }
}

pub open spec fn section_fits(ss: Seq<SchemaView>) -> bool {
    forall|i: int| 0 <= i < ss.len() ==> record_fits(#[trigger] ss[i])
}


// ---------------------------------------------------------------------------
// Facts used by the writers
// ---------------------------------------------------------------------------

/// `tys_fit` holds of a list exactly when it holds of every element.
pub proof fn lemma_tys_fit(ts: Seq<SchemaView>)
    ensures
        tys_fit(ts) <==> forall|i: int| 0 <= i < ts.len() ==> ty_fits(#[trigger] ts[i]),
    decreases ts.len(),
{
    if ts.len() > 0 {
        let rest = ts.subrange(1, ts.len() as int);
        lemma_tys_fit(rest);
        if tys_fit(ts) {
            assert forall|i: int| 0 <= i < ts.len() implies ty_fits(#[trigger] ts[i]) by {
                if i > 0 {
                    assert(rest[i - 1] == ts[i]);
                }
            }
        }
        if forall|i: int| 0 <= i < ts.len() ==> ty_fits(#[trigger] ts[i]) {
            assert forall|i: int| 0 <= i < rest.len() implies ty_fits(#[trigger] rest[i]) by {
                assert(rest[i] == ts[i + 1]);
            }
        }
    }
}

// ---------------------------------------------------------------------------
// Writers
// ---------------------------------------------------------------------------

fn write_u32(out: &mut Vec<u8>, n: u32)
    ensures
        final(out)@ == old(out)@ + u32_bytes(n),
{
    out.push((n & 0xff) as u8);
    out.push(((n >> 8u32) & 0xff) as u8);
    out.push(((n >> 16u32) & 0xff) as u8);
    out.push(((n >> 24u32) & 0xff) as u8);
    assert(final(out)@ =~= old(out)@ + u32_bytes(n));
}

fn write_bytes(out: &mut Vec<u8>, bytes: &[u8])
    ensures
        final(out)@ == old(out)@ + bytes@,
{
    let mut i: usize = 0;
    while i < bytes.len()
        invariant
            i <= bytes@.len(),
            out@ =~= old(out)@ + bytes@.subrange(0, i as int),
        decreases bytes@.len() - i,
    {
        out.push(bytes[i]);
        assert(bytes@.subrange(0, i + 1) =~= bytes@.subrange(0, i as int).push(bytes@[i as int]));
        i = i + 1;
    }
    assert(bytes@.subrange(0, bytes@.len() as int) =~= bytes@);
}

fn write_str(out: &mut Vec<u8>, s: &str)
    requires
        str_fits(s@),
    ensures
        final(out)@ == old(out)@ + str_bytes(s@),
{
    let bytes = s.as_bytes();
    write_u32(out, bytes.len() as u32);
    write_bytes(out, bytes);
    assert(final(out)@ =~= old(out)@ + str_bytes(s@));
}

fn write_strs(out: &mut Vec<u8>, ss: &Vec<String>, start: usize)
    requires
        start <= ss@.len(),
        forall|i: int| start <= i < ss@.len() ==> str_fits(#[trigger] ss@[i]@),
    ensures
        final(out)@ == old(out)@ + strs_bytes(
            strings_view(ss@).subrange(start as int, ss@.len() as int),
        ),
{
    let ghost sv = strings_view(ss@);
    let ghost all = sv.subrange(start as int, sv.len() as int);
    let mut i: usize = start;
    while i < ss.len()
        invariant
            start <= i <= ss@.len(),
            sv == strings_view(ss@),
            all == sv.subrange(start as int, sv.len() as int),
            forall|i: int| start <= i < ss@.len() ==> str_fits(#[trigger] ss@[i]@),
            old(out)@ + strs_bytes(all) == out@ + strs_bytes(sv.subrange(i as int, sv.len() as int)),
        decreases ss@.len() - i,
    {
        let ghost tail = sv.subrange(i as int, sv.len() as int);
        assert(tail.subrange(1, tail.len() as int) =~= sv.subrange(i + 1, sv.len() as int));
        assert(tail[0] == ss@[i as int]@);
        let ghost before = out@;
        write_str(out, ss[i].as_str());
        assert(before + strs_bytes(tail) =~= out@ + strs_bytes(
            sv.subrange(i + 1, sv.len() as int),
        ));
        i = i + 1;
    }
    assert(out@ + strs_bytes(sv.subrange(ss@.len() as int, sv.len() as int)) =~= out@);
}

#[verifier::loop_isolation(false)]
fn write_ty(out: &mut Vec<u8>, t: &Schema)
    requires
        ty_fits(t@),
    ensures
        final(out)@ == old(out)@ + ty_bytes(t@),
    decreases t,
{
    proof {
        reveal_with_fuel(crate::schema::schema_view, 2);
    }
    match t {
        Schema::Native(n) => write_str(out, n.as_str()),
        Schema::Primitive(s) => {
            out.push(1u8);
            out.push(s.as_u8());
            assert(final(out)@ =~= old(out)@ + ty_bytes(t@));
        },
        Schema::Option(inner) => {
            out.push(2u8);
            write_ty(out, inner);
            assert(final(out)@ =~= old(out)@ + ty_bytes(t@));
        },
        Schema::Box(inner) => {
            out.push(3u8);
            write_ty(out, inner);
            assert(final(out)@ =~= old(out)@ + ty_bytes(t@));
        },
        Schema::Sequence(inner) => {
            out.push(4u8);
            write_ty(out, inner);
            assert(final(out)@ =~= old(out)@ + ty_bytes(t@));
        },
        Schema::Mapping { key, value } => {
            out.push(5u8);
            write_ty(out, key);
            write_ty(out, value);
            assert(final(out)@ =~= old(out)@ + ty_bytes(t@));
        },
        Schema::Tuple(ts) => {
            let ghost tv = tys_view(ts@);
            proof {
                crate::schema::lemma_tys_view(ts@);
                lemma_tys_fit(tv);
            }
            out.push(6u8);
            out.push(ts.len() as u8);
            let ghost start = out@;
            assert(tv.subrange(0, tv.len() as int) =~= tv);
            let mut i: usize = 0;
            while i < ts.len()
                invariant
                    i <= ts@.len(),
                    tv == tys_view(ts@),
                    tv.len() == ts@.len(),
                    forall|j: int| 0 <= j < ts@.len() ==> #[trigger] tv[j] == schema_view(*ts@[j]),
                    forall|j: int| 0 <= j < tv.len() ==> ty_fits(#[trigger] tv[j]),
                    start + tys_bytes(tv) == out@ + tys_bytes(tv.subrange(i as int, tv.len() as int)),
                decreases ts@.len() - i,
            {
                let ghost tail = tv.subrange(i as int, tv.len() as int);
                assert(tail.subrange(1, tail.len() as int) =~= tv.subrange(i + 1, tv.len() as int));
                assert(tail[0] == tv[i as int]);
                let ghost before = out@;
                assert(ty_fits(tv[i as int]));
                proof {
                    assert(decreases_to!(*t => *ts));
                    assert(decreases_to!(*ts => ts@));
                    assert(decreases_to!(ts@ => ts@[i as int]));
                    assert(decreases_to!(*t => ts@[i as int]));
                }
                write_ty(out, &ts[i]);
                assert(before + tys_bytes(tail) =~= out@ + tys_bytes(
                    tv.subrange(i + 1, tv.len() as int),
                ));
                i = i + 1;
            }
            assert(out@ + tys_bytes(tv.subrange(ts@.len() as int, tv.len() as int)) =~= out@);
            assert(final(out)@ =~= old(out)@ + ty_bytes(t@));
        },
        Schema::Skipped => {
            out.push(11u8);
            assert(final(out)@ =~= old(out)@ + ty_bytes(t@));
        },
        Schema::Struct(st) => write_str(out, st.ident.as_str()),
        Schema::Transparent(tr) => write_str(out, tr.ident.as_str()),
        Schema::Enum(e) => write_str(out, e.ident.as_str()),
        Schema::IntoProxy(p) => write_str(out, p.ident.as_str()),
        Schema::FromProxy(p) => write_str(out, p.ident.as_str()),
    }
}


fn write_field(out: &mut Vec<u8>, f: &Field)
    requires
        field_fits(field_view(*f)),
    ensures
        final(out)@ == old(out)@ + field_bytes(field_view(*f)),
{
    let ghost fv = field_view(*f);
    write_str(out, f.ident.as_str());
    write_ty(out, &f.ty);
    write_str(out, f.wire_name.as_str());
    out.push(f.flags.bits);
    let code: u8 = match &f.default {
        FieldDefault::NoDefault => 0,
        FieldDefault::Default => 1,
        FieldDefault::Path(_) => 2,
    };
    out.push(code);
    write_u32(out, f.aliases.len() as u32);
    proof {
        assert forall|i: int| 0 <= i < f.aliases@.len() implies str_fits(#[trigger] f.aliases@[i]@) by {
            assert(fv.aliases[i] == f.aliases@[i]@);
        }
        assert(strings_view(f.aliases@).subrange(0, f.aliases@.len() as int) =~= fv.aliases);
    }
    write_strs(out, &f.aliases, 0);
    assert(final(out)@ =~= old(out)@ + field_bytes(fv));
}

fn write_fields(out: &mut Vec<u8>, fs: &Vec<Field>)
    requires
        fields_fit(fields_view(fs@)),
    ensures
        final(out)@ == old(out)@ + fields_bytes(fields_view(fs@)),
{
    let ghost fv = fields_view(fs@);
    proof {
        crate::schema::lemma_fields_view(fs@);
    }
    assert(fv.subrange(0, fv.len() as int) =~= fv);
    let mut i: usize = 0;
    while i < fs.len()
        invariant
            i <= fs@.len(),
            fv == fields_view(fs@),
            fv.len() == fs@.len(),
            forall|j: int| 0 <= j < fs@.len() ==> #[trigger] fv[j] == field_view(fs@[j]),
            fields_fit(fv),
            old(out)@ + fields_bytes(fv) == out@ + fields_bytes(fv.subrange(i as int, fv.len() as int)),
        decreases fs@.len() - i,
    {
        let ghost tail = fv.subrange(i as int, fv.len() as int);
        assert(tail.subrange(1, tail.len() as int) =~= fv.subrange(i + 1, fv.len() as int));
        assert(tail[0] == fv[i as int]);
        assert(field_fits(fv[i as int]));
        let ghost before = out@;
        write_field(out, &fs[i]);
        assert(before + fields_bytes(tail) =~= out@ + fields_bytes(
            fv.subrange(i + 1, fv.len() as int),
        ));
        i = i + 1;
    }
    assert(out@ + fields_bytes(fv.subrange(fs@.len() as int, fv.len() as int)) =~= out@);
}

fn write_tys(out: &mut Vec<u8>, ts: &Vec<Box<Schema>>)
    requires
        tys_fit(tys_view(ts@)),
    ensures
        final(out)@ == old(out)@ + tys_bytes(tys_view(ts@)),
{
    let ghost tv = tys_view(ts@);
    proof {
        crate::schema::lemma_tys_view(ts@);
        lemma_tys_fit(tv);
    }
    assert(tv.subrange(0, tv.len() as int) =~= tv);
    let mut i: usize = 0;
    while i < ts.len()
        invariant
            i <= ts@.len(),
            tv == tys_view(ts@),
            tv.len() == ts@.len(),
            forall|j: int| 0 <= j < ts@.len() ==> #[trigger] tv[j] == schema_view(*ts@[j]),
            forall|j: int| 0 <= j < tv.len() ==> ty_fits(#[trigger] tv[j]),
            old(out)@ + tys_bytes(tv) == out@ + tys_bytes(tv.subrange(i as int, tv.len() as int)),
        decreases ts@.len() - i,
    {
        let ghost tail = tv.subrange(i as int, tv.len() as int);
        assert(tail.subrange(1, tail.len() as int) =~= tv.subrange(i + 1, tv.len() as int));
        assert(tail[0] == tv[i as int]);
        assert(ty_fits(tv[i as int]));
        let ghost before = out@;
        write_ty(out, &ts[i]);
        assert(before + tys_bytes(tail) =~= out@ + tys_bytes(tv.subrange(i + 1, tv.len() as int)));
        i = i + 1;
    }
    assert(out@ + tys_bytes(tv.subrange(ts@.len() as int, tv.len() as int)) =~= out@);
}

fn write_variant_kind(out: &mut Vec<u8>, v: &Variant)
    requires
        variant_fits(variant_view(*v)),
    ensures
        final(out)@ == old(out)@ + kind_bytes(variant_view(*v).kind),
{
    let ghost vv = variant_view(*v);
    match &v.kind {
        VariantKind::Unit => {
            out.push(0u8);
            write_u32(out, 0);
        },
        VariantKind::Named(fs) => {
            out.push(1u8);
            write_u32(out, fs.len() as u32);
            proof {
                crate::schema::lemma_fields_view(fs@);
            }
            write_fields(out, fs);
        },
        VariantKind::Unnamed(ts) => {
            out.push(2u8);
            write_u32(out, ts.len() as u32);
            proof {
                crate::schema::lemma_tys_view(ts@);
            }
            write_tys(out, ts);
        },
    }
    assert(final(out)@ =~= old(out)@ + kind_bytes(vv.kind));
}

fn write_variant_aliases(out: &mut Vec<u8>, v: &Variant)
    requires
        variant_fits(variant_view(*v)),
    ensures
        final(out)@ == old(out)@ + count_bytes(variant_aliases(variant_view(*v)).len() as int)
            + strs_bytes(variant_aliases(variant_view(*v))),
{
    let ghost vv = variant_view(*v);
    let n = v.all_wire_names.len();
    let ghost names = strings_view(v.all_wire_names@);
    assert(vv.all_wire_names == names);
    proof {
        assert forall|i: int| 1 <= i < v.all_wire_names@.len() implies str_fits(
            #[trigger] v.all_wire_names@[i]@,
        ) by {
            assert(variant_aliases(vv)[i - 1] == names[i]);
        }
    }
    if n == 0 {
        write_u32(out, 0);
        assert(final(out)@ =~= old(out)@ + count_bytes(variant_aliases(vv).len() as int)
            + strs_bytes(variant_aliases(vv)));
    } else {
        write_u32(out, (n - 1) as u32);
        write_strs(out, &v.all_wire_names, 1);
    }
}

fn write_variant(out: &mut Vec<u8>, v: &Variant)
    requires
        variant_fits(variant_view(*v)),
    ensures
        final(out)@ == old(out)@ + variant_bytes(variant_view(*v)),
{
    let ghost vv = variant_view(*v);
    write_str(out, v.ident.as_str());
    write_str(out, v.wire_name.as_str());
    out.push(v.flags.bits);
    write_variant_kind(out, v);
    write_variant_aliases(out, v);
    assert(final(out)@ =~= old(out)@ + variant_bytes(vv));
}

fn write_variants(out: &mut Vec<u8>, vs: &Vec<Variant>)
    requires
        variants_fit(variants_view(vs@)),
    ensures
        final(out)@ == old(out)@ + variants_bytes(variants_view(vs@)),
{
    let ghost vv = variants_view(vs@);
    proof {
        crate::schema::lemma_variants_view(vs@);
    }
    assert(vv.subrange(0, vv.len() as int) =~= vv);
    let mut i: usize = 0;
    while i < vs.len()
        invariant
            i <= vs@.len(),
            vv == variants_view(vs@),
            vv.len() == vs@.len(),
            forall|j: int| 0 <= j < vs@.len() ==> #[trigger] vv[j] == variant_view(vs@[j]),
            variants_fit(vv),
            old(out)@ + variants_bytes(vv) == out@ + variants_bytes(
                vv.subrange(i as int, vv.len() as int),
            ),
        decreases vs@.len() - i,
    {
        let ghost tail = vv.subrange(i as int, vv.len() as int);
        assert(tail.subrange(1, tail.len() as int) =~= vv.subrange(i + 1, vv.len() as int));
        assert(tail[0] == vv[i as int]);
        assert(variant_fits(vv[i as int]));
        let ghost before = out@;
        write_variant(out, &vs[i]);
        assert(before + variants_bytes(tail) =~= out@ + variants_bytes(
            vv.subrange(i + 1, vv.len() as int),
        ));
        i = i + 1;
    }
    assert(out@ + variants_bytes(vv.subrange(vs@.len() as int, vv.len() as int)) =~= out@);
}


fn write_struct_body(out: &mut Vec<u8>, st: &Struct)
    requires
        record_fits(SchemaView::Struct(struct_view(*st))),
    ensures
        final(out)@ == old(out)@ + record_body(SchemaView::Struct(struct_view(*st))),
{
    let ghost sv = struct_view(*st);
    out.push(6u8);
    write_str(out, st.ident.as_str());
    out.push(st.flags.bits);
    let g = st.generics.len() as u32;
    match &st.shape {
        StructShape::Named(fs) => {
            out.push(0u8);
            write_u32(out, g);
            proof {
                crate::schema::lemma_fields_view(fs@);
            }
            write_u32(out, fs.len() as u32);
            write_fields(out, fs);
        },
        StructShape::Tuple(ts) => {
            out.push(1u8);
            write_u32(out, g);
            proof {
                crate::schema::lemma_tys_view(ts@);
            }
            write_u32(out, ts.len() as u32);
            write_tys(out, ts);
        },
        StructShape::Unit => {
            out.push(2u8);
            write_u32(out, g);
            write_u32(out, 0);
        },
    }
    assert(final(out)@ =~= old(out)@ + record_body(SchemaView::Struct(sv)));
}

fn write_tagging(out: &mut Vec<u8>, t: &Tagging)
    requires
        tagging_fits(crate::schema::tagging_view(*t)),
    ensures
        final(out)@ == old(out)@ + tagging_bytes(crate::schema::tagging_view(*t)),
{
    proof {
        reveal_strlit("");
        lemma_empty_str_fits();
    }
    match t {
        Tagging::External => {
            out.push(0u8);
            write_str(out, "");
            write_str(out, "");
        },
        Tagging::Internal { tag } => {
            out.push(1u8);
            write_str(out, tag.as_str());
            write_str(out, "");
        },
        Tagging::Adjacent { tag, content } => {
            out.push(2u8);
            write_str(out, tag.as_str());
            write_str(out, content.as_str());
        },
        Tagging::Untagged => {
            out.push(3u8);
            write_str(out, "");
            write_str(out, "");
        },
    }
    assert(final(out)@ =~= old(out)@ + tagging_bytes(crate::schema::tagging_view(*t)));
}

/// The empty string fits its counter.
pub proof fn lemma_empty_str_fits()
    ensures
        str_fits(Seq::<char>::empty()),
        encode_utf8(Seq::<char>::empty()) == Seq::<u8>::empty(),
{
    assert(encode_utf8(Seq::<char>::empty()) =~= Seq::<u8>::empty());
}

fn write_enum_body(out: &mut Vec<u8>, e: &Enum)
    requires
        record_fits(SchemaView::Enum(enum_view(*e))),
    ensures
        final(out)@ == old(out)@ + record_body(SchemaView::Enum(enum_view(*e))),
{
    let ghost ev = enum_view(*e);
    out.push(8u8);
    write_str(out, e.ident.as_str());
    out.push(e.flags.bits);
    write_tagging(out, &e.tagging);
    write_u32(out, e.generics.len() as u32);
    proof {
        crate::schema::lemma_variants_view(e.variants@);
    }
    write_u32(out, e.variants.len() as u32);
    write_variants(out, &e.variants);
    assert(final(out)@ =~= old(out)@ + record_body(SchemaView::Enum(ev)));
}

fn write_record_body(out: &mut Vec<u8>, s: &Schema)
    requires
        record_fits(s@),
    ensures
        final(out)@ == old(out)@ + record_body(s@),
{
    proof {
        reveal_with_fuel(crate::schema::schema_view, 2);
    }
    match s {
        Schema::Native(n) => {
            out.push(0u8);
            write_str(out, n.as_str());
        },
        Schema::Primitive(p) => {
            out.push(1u8);
            out.push(p.as_u8());
        },
        Schema::Struct(st) => write_struct_body(out, st),
        Schema::Transparent(t) => {
            out.push(7u8);
            write_str(out, t.ident.as_str());
            out.push(if t.atomic { 1u8 } else { 0u8 });
            write_ty(out, &t.field_ty);
        },
        Schema::Enum(e) => write_enum_body(out, e),
        Schema::IntoProxy(p) => {
            out.push(9u8);
            write_str(out, p.ident.as_str());
            write_u32(out, p.generics.len() as u32);
            write_ty(out, &p.into_ty);
        },
        Schema::FromProxy(p) => {
            out.push(10u8);
            write_str(out, p.ident.as_str());
            write_u32(out, p.generics.len() as u32);
            write_ty(out, &p.proxy);
            out.push(if p.is_try { 1u8 } else { 0u8 });
        },
        _ => write_ty(out, s),
    }
    assert(final(out)@ =~= old(out)@ + record_body(s@));
}

/// Encodes one schema as a section record: the body's length as a
/// little-endian `u32`, then the body (a tag byte and what it announces).
pub fn encode_record(s: &Schema) -> (r: Vec<u8>)
    requires
        record_fits(s@),
    ensures
        r@ == record_bytes(s@),
{
    let mut body: Vec<u8> = Vec::new();
    write_record_body(&mut body, s);
    assert(body@ =~= record_body(s@));
    let mut out: Vec<u8> = Vec::new();
    write_u32(&mut out, body.len() as u32);
    out.append(&mut body);
    assert(out@ =~= record_bytes(s@));
    out
}

/// Encodes schemas as a section: their records, in order.
pub fn encode_section(schemas: &[Schema]) -> (r: Vec<u8>)
    requires
        section_fits(schemas_view(schemas@)),
    ensures
        r@ == section_bytes(schemas_view(schemas@)),
{
    let ghost sv = schemas_view(schemas@);
    let mut out: Vec<u8> = Vec::new();
    assert(sv.subrange(0, sv.len() as int) =~= sv);
    let mut i: usize = 0;
    while i < schemas.len()
        invariant
            i <= schemas@.len(),
            sv == schemas_view(schemas@),
            section_fits(sv),
            section_bytes(sv) == out@ + section_bytes(sv.subrange(i as int, sv.len() as int)),
        decreases schemas@.len() - i,
    {
        let ghost tail = sv.subrange(i as int, sv.len() as int);
        assert(tail.subrange(1, tail.len() as int) =~= sv.subrange(i + 1, sv.len() as int));
        assert(tail[0] == schemas@[i as int]@);
        assert(record_fits(sv[i as int]));
        let mut rec = encode_record(&schemas[i]);
        let ghost before = out@;
        out.append(&mut rec);
        assert(before + section_bytes(tail) =~= out@ + section_bytes(
            sv.subrange(i + 1, sv.len() as int),
        ));
        i = i + 1;
    }
    assert(out@ + section_bytes(sv.subrange(schemas@.len() as int, sv.len() as int)) =~= out@);
    out
}

} // verus!
