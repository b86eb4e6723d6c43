//! What the decoder gives back of what the encoder wrote.

use vstd::prelude::*;
use vstd::utf8::*;

use crate::coded::{Tag, tag_of_code};
use crate::coded::FieldDefaultKind;
use crate::coded::{StructShapeTag, struct_shape_tag_of_code, tagging_kind_of_code};
use crate::coded::{VariantKindTag, variant_kind_tag_code, variant_kind_tag_of_code};
use crate::decode::{
    Step, le32, rem, spec_read_count, spec_read_field, spec_read_fields, spec_read_str, spec_read_strs,
    spec_read_ty, spec_read_tys, spec_read_u32, spec_read_u8, spec_read_variant,
    spec_read_variant_kind, spec_read_variants, spec_read_struct, generic_names,
    spec_read_transparent, spec_read_enum, spec_read_into_proxy, spec_read_from_proxy, tagging_of, spec_read_record, spec_parse_from,
    spec_parse_section,
};
use crate::encode::{
    count_bytes, count_fits, default_code, field_bytes, field_fits, field_tail_bytes, fields_bytes,
    fields_fit, kind_bytes, str_bytes, str_fits, strs_bytes, strs_fit, ty_bytes, tys_bytes,
    u32_bytes, lemma_empty_str_fits, tagging_fits, tagging_bytes, record_body, section_bytes, record_fits, shape_bytes, variant_aliases, variant_bytes, variant_fits, variants_bytes,
};
use crate::scalar::{Scalar, lemma_scalar_codes, scalar_code, scalar_of_code};
use crate::schema::{
    EnumView, FieldDefaultView, FieldView, FromProxyView, IntoProxyView, SchemaView,
    StructShapeView, StructView, TaggingView, TransparentView, VariantKindView, VariantView,
    spec_ident,
};

verus! {

// ---------------------------------------------------------------------------
// Conditions under which a type identity reads back
// ---------------------------------------------------------------------------

/// A tag-prefixed type identity is read as such when at least two bytes
/// start at it and the three bytes after its tag are not all zero (three
/// zero bytes there announce a native name instead).
pub open spec fn tag_prefix_ok(b: Seq<u8>) -> bool {
    b.len() >= 2 && !(b.len() >= 4 && b[1] == 0 && b[2] == 0 && b[3] == 0)
}

/// A type identity, followed in the section by the bytes `follow`, reads
/// back as itself: it holds only type references, every native name in it
/// is shorter than 256 UTF-8 bytes, every tuple has at most 255 elements,
/// and no tag-prefixed node is mistaken for a native name.
pub open spec fn ty_reads_back(t: SchemaView, follow: Seq<u8>) -> bool
    decreases t,
{
    match t {
        SchemaView::Native(n) => encode_utf8(n).len() < 256,
        SchemaView::Primitive(_) => tag_prefix_ok(ty_bytes(t) + follow),
        SchemaView::Skipped => tag_prefix_ok(ty_bytes(t) + follow),
        SchemaView::Option(i) => tag_prefix_ok(ty_bytes(t) + follow) && ty_reads_back(*i, follow),
        SchemaView::Box(i) => tag_prefix_ok(ty_bytes(t) + follow) && ty_reads_back(*i, follow),
        SchemaView::Sequence(i) => tag_prefix_ok(ty_bytes(t) + follow) && ty_reads_back(
            *i,
            follow,
        ),
        SchemaView::Mapping { key, value } => tag_prefix_ok(ty_bytes(t) + follow) && ty_reads_back(
            *key,
            ty_bytes(*value) + follow,
        ) && ty_reads_back(*value, follow),
        SchemaView::Tuple(ts) => ts.len() <= 255 && tag_prefix_ok(ty_bytes(t) + follow)
            && tys_read_back(ts, follow),
        _ => false,
    }
}

/// Type identities in a row, followed by `follow`, read back.
pub open spec fn tys_read_back(ts: Seq<SchemaView>, follow: Seq<u8>) -> bool
    decreases ts,
{
    if ts.len() == 0 {
        true
    } else {
        let rest = ts.subrange(1, ts.len() as int);
        ty_reads_back(ts[0], tys_bytes(rest) + follow) && tys_read_back(rest, follow)
    }
}

// ---------------------------------------------------------------------------
// Positions in the data
// ---------------------------------------------------------------------------

/// The data from `p` on is `a` then `b`.
pub proof fn lemma_split(d: Seq<u8>, p: int, a: Seq<u8>, b: Seq<u8>)
    requires
        0 <= p <= d.len(),
        d.subrange(p, d.len() as int) == a + b,
    ensures
        p + a.len() <= d.len(),
        d.subrange(p + a.len(), d.len() as int) == b,
        forall|i: int| 0 <= i < a.len() ==> d[p + i] == #[trigger] a[i],
        rem(d, p) == a.len() + b.len(),
        rem(d, p + a.len()) == b.len(),
        d.subrange(p, p + a.len()) == a,
        forall|k: int| 0 <= k < a.len() + b.len() ==> d[p + k] == #[trigger] (a + b)[k],
{
    assert(d.subrange(p, d.len() as int).len() == a.len() + b.len());
    let whole = d.subrange(p, d.len() as int);
    assert forall|i: int| 0 <= i < a.len() implies d[p + i] == #[trigger] a[i] by {
        assert(whole[i] == d[p + i]);
        assert(whole[i] == (a + b)[i]);
    }
    assert forall|i: int| 0 <= i < b.len() implies d.subrange(
        p + a.len(),
        d.len() as int,
    )[i] == b[i] by {
        assert(whole[a.len() + i] == d[p + a.len() + i]);
        assert(whole[a.len() + i] == (a + b)[a.len() + i]);
    }
    assert(d.subrange(p + a.len(), d.len() as int) =~= b);
    assert(d.subrange(p, p + a.len()) =~= a);
    assert forall|k: int| 0 <= k < a.len() + b.len() implies d[p + k] == #[trigger] (a + b)[k] by {
        assert(whole[k] == d[p + k]);
    }
}

// ---------------------------------------------------------------------------
// Integers and strings
// ---------------------------------------------------------------------------

/// The four little-endian bytes of `n` read back as `n`.
pub proof fn lemma_u32_bytes(n: u32)
    ensures
        le32(u32_bytes(n), 0) == n,
        n < 256 ==> u32_bytes(n)[1] == 0 && u32_bytes(n)[2] == 0 && u32_bytes(n)[3] == 0,
{
    let b0 = n & 0xff;
    let b1 = (n >> 8u32) & 0xff;
    let b2 = (n >> 16u32) & 0xff;
    let b3 = (n >> 24u32) & 0xff;
    assert(b0 + 256 * b1 + 65536 * b2 + 16777216 * b3 == n) by (bit_vector)
        requires
            b0 == n & 0xff,
            b1 == (n >> 8u32) & 0xff,
            b2 == (n >> 16u32) & 0xff,
            b3 == (n >> 24u32) & 0xff,
    ;
    assert(b0 < 256 && b1 < 256 && b2 < 256 && b3 < 256) by (bit_vector)
        requires
            b0 == n & 0xff,
            b1 == (n >> 8u32) & 0xff,
            b2 == (n >> 16u32) & 0xff,
            b3 == (n >> 24u32) & 0xff,
    ;
    assert(n < 256 ==> b1 == 0 && b2 == 0 && b3 == 0) by (bit_vector)
        requires
            b1 == (n >> 8u32) & 0xff,
            b2 == (n >> 16u32) & 0xff,
            b3 == (n >> 24u32) & 0xff,
    ;
}

/// A `u32` written at `p` reads back.
pub proof fn lemma_read_u32(d: Seq<u8>, p: int, n: u32, follow: Seq<u8>)
    requires
        0 <= p <= d.len(),
        d.subrange(p, d.len() as int) == u32_bytes(n) + follow,
    ensures
        spec_read_u32(d, p) == Ok::<(int, int), crate::decode::Error>((n as int, p + 4)),
        d.subrange(p + 4, d.len() as int) == follow,
{
    lemma_split(d, p, u32_bytes(n), follow);
    lemma_u32_bytes(n);
    assert(d[p] == u32_bytes(n)[0]);
    assert(d[p + 1] == u32_bytes(n)[1]);
    assert(d[p + 2] == u32_bytes(n)[2]);
    assert(d[p + 3] == u32_bytes(n)[3]);
}

/// A string written at `p` reads back.
pub proof fn lemma_read_str(d: Seq<u8>, p: int, s: Seq<char>, follow: Seq<u8>)
    requires
        0 <= p <= d.len(),
        d.subrange(p, d.len() as int) == str_bytes(s) + follow,
        str_fits(s),
    ensures
        spec_read_str(d, p) == Ok::<(Seq<char>, int), crate::decode::Error>(
            (s, p + str_bytes(s).len()),
        ),
        d.subrange(p + str_bytes(s).len(), d.len() as int) == follow,
{
    let enc = encode_utf8(s);
    let n = enc.len() as u32;
    assert(str_bytes(s) + follow =~= u32_bytes(n) + (enc + follow));
    lemma_read_u32(d, p, n, enc + follow);
    lemma_split(d, p + 4, enc, follow);
    encode_utf8_valid_utf8(s);
    encode_utf8_decode_utf8(s);
    lemma_split(d, p, str_bytes(s), follow);
}


/// A byte written at `p` reads back.
pub proof fn lemma_read_byte(d: Seq<u8>, p: int, x: u8, follow: Seq<u8>)
    requires
        0 <= p <= d.len(),
        d.subrange(p, d.len() as int) == seq![x] + follow,
    ensures
        spec_read_u8(d, p) == Ok::<(u8, int), crate::decode::Error>((x, p + 1)),
        d.subrange(p + 1, d.len() as int) == follow,
{
    lemma_split(d, p, seq![x], follow);
    assert(d[p] == seq![x][0]);
}

// ---------------------------------------------------------------------------
// Type identities
// ---------------------------------------------------------------------------

/// The first bytes at `p` are those of what the data holds from `p` on.
pub proof fn lemma_first_bytes(d: Seq<u8>, p: int, b: Seq<u8>)
    requires
        0 <= p <= d.len(),
        d.subrange(p, d.len() as int) == b,
    ensures
        rem(d, p) == b.len(),
        b.len() >= 1 ==> d[p] == b[0],
        b.len() >= 2 ==> d[p + 1] == b[1],
        b.len() >= 4 ==> d[p + 2] == b[2] && d[p + 3] == b[3],
{
    if b.len() >= 1 {
        assert(b[0] == d[p]);
    }
    if b.len() >= 2 {
        assert(b[1] == d[p + 1]);
    }
    if b.len() >= 4 {
        assert(b[2] == d[p + 2]);
        assert(b[3] == d[p + 3]);
    }
}

/// Every scalar's discriminant names it.
pub proof fn lemma_scalar_roundtrip(s: Scalar)
    ensures
        scalar_of_code(scalar_code(s)) == Some(s),
{
    lemma_scalar_codes(scalar_code(s));
}

/// A type identity takes at least one byte.
pub proof fn lemma_ty_bytes_nonempty(t: SchemaView)
    ensures
        ty_bytes(t).len() >= 1,
{
    match t {
        SchemaView::Native(n) => {},
        SchemaView::Primitive(_) => {},
        SchemaView::Option(i) => {},
        SchemaView::Box(i) => {},
        SchemaView::Sequence(i) => {},
        SchemaView::Mapping { key, value } => {},
        SchemaView::Tuple(ts) => {},
        SchemaView::Skipped => {},
        _ => {},
    }
}

/// A native name written at `p` reads back.
proof fn lemma_read_native(d: Seq<u8>, p: int, n: Seq<char>, follow: Seq<u8>)
    requires
        0 <= p <= d.len(),
        d.subrange(p, d.len() as int) == str_bytes(n) + follow,
        encode_utf8(n).len() < 256,
    ensures
        spec_read_ty(d, p) == Ok::<(SchemaView, int), crate::decode::Error>(
            (SchemaView::Native(n), p + str_bytes(n).len()),
        ),
        d.subrange(p + str_bytes(n).len(), d.len() as int) == follow,
{
    let enc = encode_utf8(n);
    lemma_split(d, p, str_bytes(n), follow);
    lemma_first_bytes(d, p, str_bytes(n) + follow);
    lemma_u32_bytes(enc.len() as u32);
    assert((str_bytes(n) + follow)[1] == u32_bytes(enc.len() as u32)[1]);
    assert((str_bytes(n) + follow)[2] == u32_bytes(enc.len() as u32)[2]);
    assert((str_bytes(n) + follow)[3] == u32_bytes(enc.len() as u32)[3]);
    lemma_read_str(d, p, n, follow);
}

/// A primitive or a skipped marker written at `p` reads back.
proof fn lemma_read_leaf(d: Seq<u8>, p: int, t: SchemaView, follow: Seq<u8>)
    requires
        0 <= p <= d.len(),
        t is Primitive || t is Skipped,
        d.subrange(p, d.len() as int) == ty_bytes(t) + follow,
        ty_reads_back(t, follow),
    ensures
        spec_read_ty(d, p) == Ok::<(SchemaView, int), crate::decode::Error>(
            (t, p + ty_bytes(t).len()),
        ),
        d.subrange(p + ty_bytes(t).len(), d.len() as int) == follow,
{
    lemma_split(d, p, ty_bytes(t), follow);
    lemma_first_bytes(d, p, ty_bytes(t) + follow);
    if let SchemaView::Primitive(sc) = t {
        lemma_scalar_roundtrip(sc);
    }
}

/// An option, a box or a sequence written at `p` reads back.
proof fn lemma_read_wrapped(d: Seq<u8>, p: int, t: SchemaView, follow: Seq<u8>)
    requires
        0 <= p <= d.len(),
        t is Option || t is Box || t is Sequence,
        d.subrange(p, d.len() as int) == ty_bytes(t) + follow,
        ty_reads_back(t, follow),
    ensures
        spec_read_ty(d, p) == Ok::<(SchemaView, int), crate::decode::Error>(
            (t, p + ty_bytes(t).len()),
        ),
        d.subrange(p + ty_bytes(t).len(), d.len() as int) == follow,
    decreases t, 0int,
{
    lemma_split(d, p, ty_bytes(t), follow);
    lemma_first_bytes(d, p, ty_bytes(t) + follow);
    let (tag, i): (u8, SchemaView) = match t {
        SchemaView::Option(i) => (2u8, *i),
        SchemaView::Box(i) => (3u8, *i),
        SchemaView::Sequence(i) => (4u8, *i),
        _ => (0u8, t),
    };
    assert(ty_bytes(t) == seq![tag] + ty_bytes(i));
    assert(ty_bytes(t) + follow =~= seq![tag] + (ty_bytes(i) + follow));
    lemma_split(d, p, seq![tag], ty_bytes(i) + follow);
    lemma_read_ty(d, p + 1, i, follow);
}

/// A map written at `p` reads back.
proof fn lemma_read_mapping(d: Seq<u8>, p: int, t: SchemaView, follow: Seq<u8>)
    requires
        0 <= p <= d.len(),
        t is Mapping,
        d.subrange(p, d.len() as int) == ty_bytes(t) + follow,
        ty_reads_back(t, follow),
    ensures
        spec_read_ty(d, p) == Ok::<(SchemaView, int), crate::decode::Error>(
            (t, p + ty_bytes(t).len()),
        ),
        d.subrange(p + ty_bytes(t).len(), d.len() as int) == follow,
    decreases t, 0int,
{
    lemma_split(d, p, ty_bytes(t), follow);
    lemma_first_bytes(d, p, ty_bytes(t) + follow);
    if let SchemaView::Mapping { key, value } = t {
        let kb = ty_bytes(*key);
        let vb = ty_bytes(*value);
        assert(ty_bytes(t) + follow =~= seq![5u8] + (kb + (vb + follow)));
        lemma_split(d, p, seq![5u8], kb + (vb + follow));
        lemma_read_ty(d, p + 1, *key, vb + follow);
        lemma_ty_bytes_nonempty(*key);
        lemma_read_ty(d, p + 1 + kb.len(), *value, follow);
    }
}

/// A tuple written at `p` reads back.
proof fn lemma_read_tuple(d: Seq<u8>, p: int, t: SchemaView, follow: Seq<u8>)
    requires
        0 <= p <= d.len(),
        t is Tuple,
        d.subrange(p, d.len() as int) == ty_bytes(t) + follow,
        ty_reads_back(t, follow),
    ensures
        spec_read_ty(d, p) == Ok::<(SchemaView, int), crate::decode::Error>(
            (t, p + ty_bytes(t).len()),
        ),
        d.subrange(p + ty_bytes(t).len(), d.len() as int) == follow,
    decreases t, 0int,
{
    lemma_split(d, p, ty_bytes(t), follow);
    lemma_first_bytes(d, p, ty_bytes(t) + follow);
    if let SchemaView::Tuple(ts) = t {
        let head = seq![6u8, ts.len() as u8];
        assert(ty_bytes(t) + follow =~= head + (tys_bytes(ts) + follow));
        lemma_split(d, p, head, tys_bytes(ts) + follow);
        assert(d[p + 1] == head[1]);
        lemma_read_tys(d, p + 2, ts, follow);
    }
}

/// A type identity written at `p` reads back as itself.
pub proof fn lemma_read_ty(d: Seq<u8>, p: int, t: SchemaView, follow: Seq<u8>)
    requires
        0 <= p <= d.len(),
        d.subrange(p, d.len() as int) == ty_bytes(t) + follow,
        ty_reads_back(t, follow),
    ensures
        spec_read_ty(d, p) == Ok::<(SchemaView, int), crate::decode::Error>(
            (t, p + ty_bytes(t).len()),
        ),
        d.subrange(p + ty_bytes(t).len(), d.len() as int) == follow,
    decreases t, 1int,
{
    match t {
        SchemaView::Native(n) => lemma_read_native(d, p, n, follow),
        SchemaView::Primitive(_) => lemma_read_leaf(d, p, t, follow),
        SchemaView::Skipped => lemma_read_leaf(d, p, t, follow),
        SchemaView::Option(_) => lemma_read_wrapped(d, p, t, follow),
        SchemaView::Box(_) => lemma_read_wrapped(d, p, t, follow),
        SchemaView::Sequence(_) => lemma_read_wrapped(d, p, t, follow),
        SchemaView::Mapping { .. } => lemma_read_mapping(d, p, t, follow),
        SchemaView::Tuple(_) => lemma_read_tuple(d, p, t, follow),
        _ => {},
    }
}

/// Type identities written in a row at `p` read back.
pub proof fn lemma_read_tys(d: Seq<u8>, p: int, ts: Seq<SchemaView>, follow: Seq<u8>)
    requires
        0 <= p <= d.len(),
        d.subrange(p, d.len() as int) == tys_bytes(ts) + follow,
        tys_read_back(ts, follow),
    ensures
        spec_read_tys(d, p, ts.len() as int) == Ok::<(Seq<SchemaView>, int), crate::decode::Error>(
            (ts, p + tys_bytes(ts).len()),
        ),
        d.subrange(p + tys_bytes(ts).len(), d.len() as int) == follow,
    decreases ts, 1int,
{
    if ts.len() == 0 {
        assert(ts =~= Seq::<SchemaView>::empty());
        assert(tys_bytes(ts) + follow =~= follow);
    } else {
        let rest = ts.subrange(1, ts.len() as int);
        let hb = ty_bytes(ts[0]);
        let rb = tys_bytes(rest);
        assert(tys_bytes(ts) + follow =~= hb + (rb + follow));
        lemma_read_ty(d, p, ts[0], rb + follow);
        lemma_ty_bytes_nonempty(ts[0]);
        lemma_read_tys(d, p + hb.len(), rest, follow);
        assert(seq![ts[0]] + rest =~= ts);
    }
}


// ---------------------------------------------------------------------------
// Counts, string lists and fields
// ---------------------------------------------------------------------------

/// A count written at `p`, with at least that many bytes after it, reads
/// back.
pub proof fn lemma_read_count(d: Seq<u8>, p: int, n: int, follow: Seq<u8>)
    requires
        0 <= p <= d.len(),
        d.subrange(p, d.len() as int) == count_bytes(n) + follow,
        count_fits(n),
        n <= follow.len(),
    ensures
        spec_read_count(d, p) == Ok::<(int, int), crate::decode::Error>((n, p + 4)),
        d.subrange(p + 4, d.len() as int) == follow,
{
    lemma_read_u32(d, p, n as u32, follow);
    lemma_split(d, p + 4, Seq::<u8>::empty(), follow);
    assert(Seq::<u8>::empty() + follow =~= follow);
}

/// Strings in a row take at least four bytes each.
pub proof fn lemma_strs_len(ss: Seq<Seq<char>>)
    ensures
        strs_bytes(ss).len() >= 4 * ss.len(),
    decreases ss.len(),
{
    if ss.len() > 0 {
        lemma_strs_len(ss.subrange(1, ss.len() as int));
    }
}

/// Strings written in a row at `p` read back.
pub proof fn lemma_read_strs(d: Seq<u8>, p: int, ss: Seq<Seq<char>>, follow: Seq<u8>)
    requires
        0 <= p <= d.len(),
        d.subrange(p, d.len() as int) == strs_bytes(ss) + follow,
        forall|i: int| 0 <= i < ss.len() ==> str_fits(#[trigger] ss[i]),
    ensures
        spec_read_strs(d, p, ss.len() as int) == Ok::<
            (Seq<Seq<char>>, int),
            crate::decode::Error,
        >((ss, p + strs_bytes(ss).len())),
        d.subrange(p + strs_bytes(ss).len(), d.len() as int) == follow,
    decreases ss.len(),
{
    if ss.len() == 0 {
        assert(ss =~= Seq::<Seq<char>>::empty());
        assert(strs_bytes(ss) + follow =~= follow);
    } else {
        let rest = ss.subrange(1, ss.len() as int);
        assert(strs_bytes(ss) + follow =~= str_bytes(ss[0]) + (strs_bytes(rest) + follow));
        lemma_read_str(d, p, ss[0], strs_bytes(rest) + follow);
        assert forall|i: int| 0 <= i < rest.len() implies str_fits(#[trigger] rest[i]) by {
            assert(rest[i] == ss[i + 1]);
        }
        lemma_read_strs(d, p + str_bytes(ss[0]).len(), rest, follow);
        assert(seq![ss[0]] + rest =~= ss);
    }
}

/// A field, followed by `follow`, reads back: its strings and counts fit,
/// it has no default path and no `skip_serializing_if` (the format keeps
/// neither), and its type reads back.
pub open spec fn field_reads_back(f: FieldView, follow: Seq<u8>) -> bool {
    &&& field_fits(f)
    &&& !(f.default is Path)
    &&& f.skip_serializing_if is None
    &&& ty_reads_back(*f.ty, field_tail_bytes(f) + follow)
}

/// A field written at `p` reads back.
pub proof fn lemma_read_field(d: Seq<u8>, p: int, f: FieldView, follow: Seq<u8>)
    requires
        0 <= p <= d.len(),
        d.subrange(p, d.len() as int) == field_bytes(f) + follow,
        field_reads_back(f, follow),
    ensures
        spec_read_field(d, p) == Ok::<(FieldView, int), crate::decode::Error>(
            (f, p + field_bytes(f).len()),
        ),
        d.subrange(p + field_bytes(f).len(), d.len() as int) == follow,
{
    let ib = str_bytes(f.ident);
    let tb = ty_bytes(*f.ty);
    let wb = str_bytes(f.wire_name);
    let code = default_code(f.default);
    let ab = strs_bytes(f.aliases);
    let cb = count_bytes(f.aliases.len() as int);
    assert(field_bytes(f) + follow =~= ib + (tb + (wb + (seq![f.flags, code] + (cb + (ab
        + follow))))));
    assert(field_tail_bytes(f) + follow =~= wb + (seq![f.flags, code] + (cb + (ab + follow))));
    let p1 = p + ib.len();
    let p2 = p1 + tb.len();
    let p3 = p2 + wb.len();
    lemma_read_str(d, p, f.ident, tb + (wb + (seq![f.flags, code] + (cb + (ab + follow)))));
    lemma_read_ty(d, p1, *f.ty, wb + (seq![f.flags, code] + (cb + (ab + follow))));
    lemma_read_str(d, p2, f.wire_name, seq![f.flags, code] + (cb + (ab + follow)));
    lemma_split(d, p3, seq![f.flags, code], cb + (ab + follow));
    lemma_strs_len(f.aliases);
    lemma_read_count(d, p3 + 2, f.aliases.len() as int, ab + follow);
    lemma_read_strs(d, p3 + 6, f.aliases, follow);
    assert(spec_read_u8(d, p3) == Ok::<(u8, int), crate::decode::Error>((f.flags, p3 + 1)));
    assert(spec_read_u8(d, p3 + 1) == Ok::<(u8, int), crate::decode::Error>((code, p3 + 2)));
    let g = FieldView {
        ident: f.ident,
        ty: Box::new(*f.ty),
        wire_name: f.wire_name,
        flags: f.flags,
        aliases: f.aliases,
        default: if crate::coded::field_default_kind_of_code(code)->0 == FieldDefaultKind::NoDefault {
            FieldDefaultView::NoDefault
        } else {
            FieldDefaultView::Default
        },
        skip_serializing_if: None,
    };
    assert(g == f);
}

/// Fields in a row, followed by `follow`, read back.
pub open spec fn fields_read_back(fs: Seq<FieldView>, follow: Seq<u8>) -> bool
    decreases fs.len(),
{
    if fs.len() == 0 {
        true
    } else {
        let rest = fs.subrange(1, fs.len() as int);
        field_reads_back(fs[0], fields_bytes(rest) + follow) && fields_read_back(rest, follow)
    }
}

/// Fields in a row take at least one byte each.
pub proof fn lemma_fields_len(fs: Seq<FieldView>)
    ensures
        fields_bytes(fs).len() >= fs.len(),
    decreases fs.len(),
{
    if fs.len() > 0 {
        lemma_fields_len(fs.subrange(1, fs.len() as int));
    }
}

/// Fields written in a row at `p` read back.
#[verifier::rlimit(30)]
pub proof fn lemma_read_fields(d: Seq<u8>, p: int, fs: Seq<FieldView>, follow: Seq<u8>)
    requires
        0 <= p <= d.len(),
        d.subrange(p, d.len() as int) == fields_bytes(fs) + follow,
        fields_read_back(fs, follow),
    ensures
        spec_read_fields(d, p, fs.len() as int) == Ok::<(Seq<FieldView>, int), crate::decode::Error>(
            (fs, p + fields_bytes(fs).len()),
        ),
        d.subrange(p + fields_bytes(fs).len(), d.len() as int) == follow,
    decreases fs.len(),
{
    if fs.len() == 0 {
        assert(fs =~= Seq::<FieldView>::empty());
        assert(fields_bytes(fs) + follow =~= follow);
    } else {
        let rest = fs.subrange(1, fs.len() as int);
        assert(fields_bytes(fs) + follow =~= field_bytes(fs[0]) + (fields_bytes(rest) + follow));
        lemma_read_field(d, p, fs[0], fields_bytes(rest) + follow);
        lemma_read_fields(d, p + field_bytes(fs[0]).len(), rest, follow);
        assert(seq![fs[0]] + rest =~= fs);
    }
}

/// Type identities in a row take at least one byte each.
pub proof fn lemma_tys_len(ts: Seq<SchemaView>)
    ensures
        tys_bytes(ts).len() >= ts.len(),
    decreases ts.len(),
{
    if ts.len() > 0 {
        lemma_ty_bytes_nonempty(ts[0]);
        lemma_tys_len(ts.subrange(1, ts.len() as int));
    }
}

// ---------------------------------------------------------------------------
// Variants
// ---------------------------------------------------------------------------

/// The payload of a variant, followed by `follow`, reads back.
pub open spec fn kind_reads_back(k: VariantKindView, follow: Seq<u8>) -> bool {
    match k {
        VariantKindView::Unit => true,
        VariantKindView::Named(fs) => fields_read_back(fs, follow),
        VariantKindView::Unnamed(ts) => tys_read_back(ts, follow),
    }
}

/// A variant, followed by `follow`, reads back: its strings and counts
/// fit, its first wire name is its primary one, and its payload reads back.
pub open spec fn variant_reads_back(v: VariantView, follow: Seq<u8>) -> bool {
    let aliases = variant_aliases(v);
    &&& variant_fits(v)
    &&& v.all_wire_names.len() >= 1
    &&& v.all_wire_names[0] == v.wire_name
    &&& kind_reads_back(v.kind, count_bytes(aliases.len() as int) + (strs_bytes(aliases) + follow))
}

/// The kind tag of a variant payload.
pub open spec fn kind_tag(k: VariantKindView) -> VariantKindTag {
    match k {
        VariantKindView::Unit => VariantKindTag::Unit,
        VariantKindView::Named(_) => VariantKindTag::Named,
        VariantKindView::Unnamed(_) => VariantKindTag::Unnamed,
    }
}

/// The number of children of a variant payload.
pub open spec fn kind_len(k: VariantKindView) -> int {
    match k {
        VariantKindView::Unit => 0,
        VariantKindView::Named(fs) => fs.len() as int,
        VariantKindView::Unnamed(ts) => ts.len() as int,
    }
}

/// A variant payload written at `p` reads back.
proof fn lemma_read_kind(d: Seq<u8>, p: int, k: VariantKindView, follow: Seq<u8>)
    requires
        0 <= p <= d.len(),
        d.subrange(p, d.len() as int) == kind_bytes(k) + follow,
        kind_reads_back(k, follow),
        count_fits(kind_len(k)),
    ensures
        spec_read_u8(d, p) == Ok::<(u8, int), crate::decode::Error>(
            (variant_kind_tag_code(kind_tag(k)), p + 1),
        ),
        variant_kind_tag_of_code(variant_kind_tag_code(kind_tag(k))) == Some(kind_tag(k)),
        spec_read_count(d, p + 1) == Ok::<(int, int), crate::decode::Error>((kind_len(k), p + 5)),
        spec_read_variant_kind(d, p + 5, kind_tag(k), kind_len(k)) == Ok::<
            (VariantKindView, int),
            crate::decode::Error,
        >((k, p + kind_bytes(k).len())),
        d.subrange(p + kind_bytes(k).len(), d.len() as int) == follow,
{
    lemma_split(d, p, kind_bytes(k), follow);
    let code = variant_kind_tag_code(kind_tag(k));
    let n = kind_len(k);
    let children: Seq<u8> = match k {
        VariantKindView::Unit => Seq::empty(),
        VariantKindView::Named(fs) => fields_bytes(fs),
        VariantKindView::Unnamed(ts) => tys_bytes(ts),
    };
    assert(kind_bytes(k) =~= seq![code] + count_bytes(n) + children);
    assert(kind_bytes(k) + follow =~= seq![code] + (count_bytes(n) + (children + follow)));
    lemma_split(d, p, seq![code], count_bytes(n) + (children + follow));
    assert(d[p] == seq![code][0]);
    match k {
        VariantKindView::Unit => {
            assert(children + follow =~= follow);
            lemma_read_count(d, p + 1, 0, follow);
        },
        VariantKindView::Named(fs) => {
            lemma_fields_len(fs);
            lemma_read_count(d, p + 1, n, fields_bytes(fs) + follow);
            lemma_read_fields(d, p + 5, fs, follow);
        },
        VariantKindView::Unnamed(ts) => {
            lemma_tys_len(ts);
            lemma_read_count(d, p + 1, n, tys_bytes(ts) + follow);
            lemma_read_tys(d, p + 5, ts, follow);
        },
    }
}

/// A variant written at `p` reads back.
#[verifier::rlimit(30)]
pub proof fn lemma_read_variant(d: Seq<u8>, p: int, v: VariantView, follow: Seq<u8>)
    requires
        0 <= p <= d.len(),
        d.subrange(p, d.len() as int) == variant_bytes(v) + follow,
        variant_reads_back(v, follow),
    ensures
        spec_read_variant(d, p) == Ok::<(VariantView, int), crate::decode::Error>(
            (v, p + variant_bytes(v).len()),
        ),
        d.subrange(p + variant_bytes(v).len(), d.len() as int) == follow,
{
    let aliases = variant_aliases(v);
    let ib = str_bytes(v.ident);
    let wb = str_bytes(v.wire_name);
    let kb = kind_bytes(v.kind);
    let cb = count_bytes(aliases.len() as int);
    let ab = strs_bytes(aliases);
    assert(variant_bytes(v) + follow =~= ib + (wb + (seq![v.flags] + (kb + (cb + (ab
        + follow))))));
    let p1 = p + ib.len();
    let p2 = p1 + wb.len();
    let p3 = p2 + 1;
    let p4 = p3 + kb.len();
    lemma_read_str(d, p, v.ident, wb + (seq![v.flags] + (kb + (cb + (ab + follow)))));
    lemma_read_str(d, p1, v.wire_name, seq![v.flags] + (kb + (cb + (ab + follow))));
    lemma_split(d, p2, seq![v.flags], kb + (cb + (ab + follow)));
    assert(d[p2] == seq![v.flags][0]);
    assert(spec_read_u8(d, p2) == Ok::<(u8, int), crate::decode::Error>((v.flags, p3)));
    assert(count_fits(kind_len(v.kind)));
    lemma_read_kind(d, p3, v.kind, cb + (ab + follow));
    lemma_strs_len(aliases);
    lemma_read_count(d, p4, aliases.len() as int, ab + follow);
    lemma_read_strs(d, p4 + 4, aliases, follow);
    assert(seq![v.wire_name] + aliases =~= v.all_wire_names);
}

/// Variants in a row, followed by `follow`, read back.
pub open spec fn variants_read_back(vs: Seq<VariantView>, follow: Seq<u8>) -> bool
    decreases vs.len(),
{
    if vs.len() == 0 {
        true
    } else {
        let rest = vs.subrange(1, vs.len() as int);
        variant_reads_back(vs[0], variants_bytes(rest) + follow) && variants_read_back(rest, follow)
    }
}

/// Variants in a row take at least one byte each.
pub proof fn lemma_variants_len(vs: Seq<VariantView>)
    ensures
        variants_bytes(vs).len() >= vs.len(),
    decreases vs.len(),
{
    if vs.len() > 0 {
        lemma_variants_len(vs.subrange(1, vs.len() as int));
    }
}

/// Variants written in a row at `p` read back.
#[verifier::rlimit(30)]
pub proof fn lemma_read_variants(d: Seq<u8>, p: int, vs: Seq<VariantView>, follow: Seq<u8>)
    requires
        0 <= p <= d.len(),
        d.subrange(p, d.len() as int) == variants_bytes(vs) + follow,
        variants_read_back(vs, follow),
    ensures
        spec_read_variants(d, p, vs.len() as int) == Ok::<
            (Seq<VariantView>, int),
            crate::decode::Error,
        >((vs, p + variants_bytes(vs).len())),
        d.subrange(p + variants_bytes(vs).len(), d.len() as int) == follow,
    decreases vs.len(),
{
    if vs.len() == 0 {
        assert(vs =~= Seq::<VariantView>::empty());
        assert(variants_bytes(vs) + follow =~= follow);
    } else {
        let rest = vs.subrange(1, vs.len() as int);
        assert(variants_bytes(vs) + follow =~= variant_bytes(vs[0]) + (variants_bytes(rest)
            + follow));
        lemma_read_variant(d, p, vs[0], variants_bytes(rest) + follow);
        lemma_read_variants(d, p + variant_bytes(vs[0]).len(), rest, follow);
        assert(seq![vs[0]] + rest =~= vs);
    }
}

// ---------------------------------------------------------------------------
// Records
// ---------------------------------------------------------------------------

/// A record, followed in the section by `follow`, reads back: it is a
/// definition, a native name or a primitive (the record kinds of the
/// format); its strings and counts fit; its generic parameters carry the
/// placeholder names the format gives back (it keeps only their number); a
/// transparent type has no generics and a positional field; and the type
/// identities and members in it read back.
pub open spec fn record_reads_back(s: SchemaView, follow: Seq<u8>) -> bool {
    &&& record_fits(s)
    &&& match s {
        SchemaView::Native(_) => true,
        SchemaView::Primitive(_) => true,
        SchemaView::Struct(st) => st.generics == generic_names(st.generics.len())
            && shape_reads_back(st.shape, follow),
        SchemaView::Transparent(t) => t.generics.len() == 0 && t.field_ident is None
            && ty_reads_back(*t.field_ty, follow),
        SchemaView::Enum(e) => e.generics == generic_names(e.generics.len()) && variants_read_back(
            e.variants,
            follow,
        ),
        SchemaView::IntoProxy(x) => x.generics == generic_names(x.generics.len()) && ty_reads_back(
            *x.into_ty,
            follow,
        ),
        SchemaView::FromProxy(x) => x.generics == generic_names(x.generics.len()) && ty_reads_back(
            *x.proxy,
            seq![
                if x.is_try {
                    1u8
                } else {
                    0u8
                },
            ] + follow,
        ),
        _ => false,
    }
}

/// The members of a struct, followed by `follow`, read back.
pub open spec fn shape_reads_back(shape: StructShapeView, follow: Seq<u8>) -> bool {
    match shape {
        StructShapeView::Named(fs) => fields_read_back(fs, follow),
        StructShapeView::Tuple(ts) => tys_read_back(ts, follow),
        StructShapeView::Unit => true,
    }
}

/// The shape code of a struct.
pub open spec fn shape_code(shape: StructShapeView) -> u8 {
    match shape {
        StructShapeView::Named(_) => 0,
        StructShapeView::Tuple(_) => 1,
        StructShapeView::Unit => 2,
    }
}

/// The number of members of a struct.
pub open spec fn shape_len(shape: StructShapeView) -> int {
    match shape {
        StructShapeView::Named(fs) => fs.len() as int,
        StructShapeView::Tuple(ts) => ts.len() as int,
        StructShapeView::Unit => 0,
    }
}

/// The members of a struct, as bytes.
pub open spec fn shape_members(shape: StructShapeView) -> Seq<u8> {
    match shape {
        StructShapeView::Named(fs) => fields_bytes(fs),
        StructShapeView::Tuple(ts) => tys_bytes(ts),
        StructShapeView::Unit => Seq::empty(),
    }
}

/// What the members of a struct read as, given their shape code.
pub open spec fn spec_read_shape(d: Seq<u8>, p: int, tag: StructShapeTag, n: int) -> Step<
    StructShapeView,
> {
    match tag {
        StructShapeTag::Named => match spec_read_fields(d, p, n) {
            Ok((fs, q)) => Ok((StructShapeView::Named(fs), q)),
            Err(e) => Err(e),
        },
        StructShapeTag::Tuple => match spec_read_tys(d, p, n) {
            Ok((ts, q)) => Ok((StructShapeView::Tuple(ts), q)),
            Err(e) => Err(e),
        },
        StructShapeTag::Unit => Ok((StructShapeView::Unit, p)),
    }
}

/// The members of a struct written at `p` read back.
proof fn lemma_read_members(d: Seq<u8>, p: int, shape: StructShapeView, follow: Seq<u8>)
    requires
        0 <= p <= d.len(),
        d.subrange(p, d.len() as int) == shape_members(shape) + follow,
        shape_reads_back(shape, follow),
    ensures
        struct_shape_tag_of_code(shape_code(shape)) is Some,
        spec_read_shape(d, p, struct_shape_tag_of_code(shape_code(shape))->0, shape_len(shape))
            == Ok::<(StructShapeView, int), crate::decode::Error>(
            (shape, p + shape_members(shape).len()),
        ),
        shape_members(shape).len() >= shape_len(shape),
{
    match shape {
        StructShapeView::Named(fs) => {
            lemma_fields_len(fs);
            lemma_read_fields(d, p, fs, follow);
        },
        StructShapeView::Tuple(ts) => {
            lemma_tys_len(ts);
            lemma_read_tys(d, p, ts, follow);
        },
        StructShapeView::Unit => {},
    }
}

/// The members of a struct take at least one byte each.
proof fn lemma_members_len(shape: StructShapeView)
    ensures
        shape_members(shape).len() >= shape_len(shape),
{
    match shape {
        StructShapeView::Named(fs) => lemma_fields_len(fs),
        StructShapeView::Tuple(ts) => lemma_tys_len(ts),
        StructShapeView::Unit => {},
    }
}

/// What a struct record body reads as, given what its parts read as.
proof fn lemma_struct_steps(d: Seq<u8>, p: int, st: StructView, p1: int, q: int)
    requires
        spec_read_str(d, p) == Ok::<(Seq<char>, int), crate::decode::Error>((st.ident, p1)),
        spec_read_u8(d, p1) == Ok::<(u8, int), crate::decode::Error>((st.flags, p1 + 1)),
        spec_read_u8(d, p1 + 1) == Ok::<(u8, int), crate::decode::Error>(
            (shape_code(st.shape), p1 + 2),
        ),
        struct_shape_tag_of_code(shape_code(st.shape)) is Some,
        spec_read_u32(d, p1 + 2) == Ok::<(int, int), crate::decode::Error>(
            (st.generics.len() as int, p1 + 6),
        ),
        spec_read_count(d, p1 + 6) == Ok::<(int, int), crate::decode::Error>(
            (shape_len(st.shape), p1 + 10),
        ),
        spec_read_shape(
            d,
            p1 + 10,
            struct_shape_tag_of_code(shape_code(st.shape))->0,
            shape_len(st.shape),
        ) == Ok::<(StructShapeView, int), crate::decode::Error>((st.shape, q)),
        st.generics == generic_names(st.generics.len()),
    ensures
        spec_read_struct(d, p) == Ok::<(SchemaView, int), crate::decode::Error>(
            (SchemaView::Struct(st), q),
        ),
{
}

/// The body of a struct record written at `p` (after its tag) reads back.
proof fn lemma_read_struct(d: Seq<u8>, p: int, st: StructView, follow: Seq<u8>)
    requires
        0 <= p <= d.len(),
        d.subrange(p, d.len() as int) == str_bytes(st.ident) + (seq![st.flags] + (shape_bytes(
            st.shape,
            st.generics.len(),
        ) + follow)),
        str_fits(st.ident),
        count_fits(st.generics.len() as int),
        count_fits(shape_len(st.shape)),
        st.generics == generic_names(st.generics.len()),
        shape_reads_back(st.shape, follow),
    ensures
        spec_read_struct(d, p) == Ok::<(SchemaView, int), crate::decode::Error>(
            (
                SchemaView::Struct(st),
                p + str_bytes(st.ident).len() + 1 + shape_bytes(st.shape, st.generics.len()).len(),
            ),
        ),
{
    let g = st.generics.len() as int;
    let code = shape_code(st.shape);
    let n = shape_len(st.shape);
    let children = shape_members(st.shape);
    let ib = str_bytes(st.ident);
    assert(shape_bytes(st.shape, st.generics.len()) =~= seq![code] + count_bytes(g) + count_bytes(
        n,
    ) + children);
    let rest = count_bytes(g) + (count_bytes(n) + (children + follow));
    assert(shape_bytes(st.shape, st.generics.len()) + follow =~= seq![code] + rest);
    let p1 = p + ib.len();
    lemma_read_str(d, p, st.ident, seq![st.flags] + (shape_bytes(st.shape, st.generics.len())
        + follow));
    lemma_read_byte(d, p1, st.flags, shape_bytes(st.shape, st.generics.len()) + follow);
    lemma_read_byte(d, p1 + 1, code, rest);
    lemma_read_u32(d, p1 + 2, g as u32, count_bytes(n) + (children + follow));
    lemma_members_len(st.shape);
    lemma_read_count(d, p1 + 6, n, children + follow);
    lemma_read_members(d, p1 + 10, st.shape, follow);
    lemma_struct_steps(d, p, st, p1, p1 + 10 + children.len());
}

/// The body of a transparent record written at `p` (after its tag) reads
/// back.
proof fn lemma_read_transparent(d: Seq<u8>, p: int, t: TransparentView, follow: Seq<u8>)
    requires
        0 <= p <= d.len(),
        d.subrange(p, d.len() as int) == record_body(SchemaView::Transparent(t)).subrange(
            1,
            record_body(SchemaView::Transparent(t)).len() as int,
        ) + follow,
        record_reads_back(SchemaView::Transparent(t), follow),
    ensures
        spec_read_transparent(d, p) == Ok::<(SchemaView, int), crate::decode::Error>(
            (SchemaView::Transparent(t), p + record_body(SchemaView::Transparent(t)).len() - 1),
        ),
{
    let s = SchemaView::Transparent(t);
    let a: u8 = if t.atomic {
        1u8
    } else {
        0u8
    };
    let ib = str_bytes(t.ident);
    let tb = ty_bytes(*t.field_ty);
    assert(record_body(s).subrange(1, record_body(s).len() as int) + follow =~= ib + (seq![a] + (tb
        + follow)));
    let p1 = p + ib.len();
    lemma_read_str(d, p, t.ident, seq![a] + (tb + follow));
    lemma_split(d, p1, seq![a], tb + follow);
    assert(d[p1] == seq![a][0]);
    lemma_read_ty(d, p1 + 1, *t.field_ty, follow);
    assert(t.generics =~= Seq::<Seq<char>>::empty());
}

/// What an enum record body reads as, given what its parts read as.
proof fn lemma_enum_steps(
    d: Seq<u8>,
    p: int,
    e: EnumView,
    code: u8,
    tag: Seq<char>,
    content: Seq<char>,
    p1: int,
    p3: int,
    p4: int,
    q: int,
)
    requires
        spec_read_str(d, p) == Ok::<(Seq<char>, int), crate::decode::Error>((e.ident, p1)),
        spec_read_u8(d, p1) == Ok::<(u8, int), crate::decode::Error>((e.flags, p1 + 1)),
        spec_read_u8(d, p1 + 1) == Ok::<(u8, int), crate::decode::Error>((code, p1 + 2)),
        tagging_kind_of_code(code) is Some,
        tagging_of(tagging_kind_of_code(code)->0, tag, content) == e.tagging,
        spec_read_str(d, p1 + 2) == Ok::<(Seq<char>, int), crate::decode::Error>((tag, p3)),
        spec_read_str(d, p3) == Ok::<(Seq<char>, int), crate::decode::Error>((content, p4)),
        spec_read_u32(d, p4) == Ok::<(int, int), crate::decode::Error>(
            (e.generics.len() as int, p4 + 4),
        ),
        spec_read_count(d, p4 + 4) == Ok::<(int, int), crate::decode::Error>(
            (e.variants.len() as int, p4 + 8),
        ),
        spec_read_variants(d, p4 + 8, e.variants.len() as int) == Ok::<
            (Seq<VariantView>, int),
            crate::decode::Error,
        >((e.variants, q)),
        e.generics == generic_names(e.generics.len()),
    ensures
        spec_read_enum(d, p) == Ok::<(SchemaView, int), crate::decode::Error>(
            (SchemaView::Enum(e), q),
        ),
{
}

/// The tagging code of an enum.
pub open spec fn tagging_code(t: TaggingView) -> u8 {
    match t {
        TaggingView::External => 0,
        TaggingView::Internal { .. } => 1,
        TaggingView::Adjacent { .. } => 2,
        TaggingView::Untagged => 3,
    }
}

/// The tag key an enum's record holds (empty where the tagging has none).
pub open spec fn tagging_key(t: TaggingView) -> Seq<char> {
    match t {
        TaggingView::Internal { tag } => tag,
        TaggingView::Adjacent { tag, .. } => tag,
        _ => Seq::empty(),
    }
}

/// The content key an enum's record holds (empty where the tagging has
/// none).
pub open spec fn content_key(t: TaggingView) -> Seq<char> {
    match t {
        TaggingView::Adjacent { content, .. } => content,
        _ => Seq::empty(),
    }
}

/// The parts of a tagging's bytes, and what they read back as.
proof fn lemma_tagging_parts(t: TaggingView)
    ensures
        tagging_bytes(t) == seq![tagging_code(t)] + str_bytes(tagging_key(t)) + str_bytes(
            content_key(t),
        ),
        tagging_kind_of_code(tagging_code(t)) is Some,
        tagging_of(tagging_kind_of_code(tagging_code(t))->0, tagging_key(t), content_key(t)) == t,
        tagging_fits(t) ==> str_fits(tagging_key(t)) && str_fits(content_key(t)),
{
    lemma_empty_str_fits();
    assert(tagging_bytes(t) =~= seq![tagging_code(t)] + str_bytes(tagging_key(t)) + str_bytes(
        content_key(t),
    ));
}

/// The body of an enum record written at `p` (after its tag) reads back.
#[verifier::rlimit(30)]
proof fn lemma_read_enum(d: Seq<u8>, p: int, e: EnumView, follow: Seq<u8>)
    requires
        0 <= p <= d.len(),
        d.subrange(p, d.len() as int) == str_bytes(e.ident) + (seq![e.flags] + (tagging_bytes(
            e.tagging,
        ) + (count_bytes(e.generics.len() as int) + (count_bytes(e.variants.len() as int) + (
        variants_bytes(e.variants) + follow))))),
        str_fits(e.ident),
        tagging_fits(e.tagging),
        count_fits(e.generics.len() as int),
        count_fits(e.variants.len() as int),
        e.generics == generic_names(e.generics.len()),
        variants_read_back(e.variants, follow),
    ensures
        spec_read_enum(d, p) == Ok::<(SchemaView, int), crate::decode::Error>(
            (
                SchemaView::Enum(e),
                p + str_bytes(e.ident).len() + 1 + tagging_bytes(e.tagging).len() + 8
                    + variants_bytes(e.variants).len(),
            ),
        ),
{
    let g = e.generics.len() as int;
    let n = e.variants.len() as int;
    let code = tagging_code(e.tagging);
    let tag = tagging_key(e.tagging);
    let content = content_key(e.tagging);
    lemma_tagging_parts(e.tagging);
    let ib = str_bytes(e.ident);
    let tb = str_bytes(tag);
    let cb = str_bytes(content);
    let vb = variants_bytes(e.variants);
    let after = count_bytes(g) + (count_bytes(n) + (vb + follow));
    assert(tagging_bytes(e.tagging) + after =~= seq![code] + (tb + (cb + after)));
    let p1 = p + ib.len();
    let p2 = p1 + 2;
    let p3 = p2 + tb.len();
    let p4 = p3 + cb.len();
    lemma_read_str(d, p, e.ident, seq![e.flags] + (tagging_bytes(e.tagging) + after));
    lemma_read_byte(d, p1, e.flags, tagging_bytes(e.tagging) + after);
    lemma_read_byte(d, p1 + 1, code, tb + (cb + after));
    lemma_read_str(d, p2, tag, cb + after);
    lemma_read_str(d, p3, content, after);
    lemma_read_u32(d, p4, g as u32, count_bytes(n) + (vb + follow));
    lemma_variants_len(e.variants);
    lemma_read_count(d, p4 + 4, n, vb + follow);
    lemma_read_variants(d, p4 + 8, e.variants, follow);
    lemma_enum_steps(d, p, e, code, tag, content, p1, p3, p4, p4 + 8 + vb.len());
}

/// The body of an into-proxy record written at `p` (after its tag) reads
/// back.
proof fn lemma_read_into_proxy(d: Seq<u8>, p: int, x: IntoProxyView, follow: Seq<u8>)
    requires
        0 <= p <= d.len(),
        d.subrange(p, d.len() as int) == record_body(SchemaView::IntoProxy(x)).subrange(
            1,
            record_body(SchemaView::IntoProxy(x)).len() as int,
        ) + follow,
        record_reads_back(SchemaView::IntoProxy(x), follow),
    ensures
        spec_read_into_proxy(d, p) == Ok::<(SchemaView, int), crate::decode::Error>(
            (SchemaView::IntoProxy(x), p + record_body(SchemaView::IntoProxy(x)).len() - 1),
        ),
{
    let s = SchemaView::IntoProxy(x);
    let g = x.generics.len() as int;
    let ib = str_bytes(x.ident);
    let tb = ty_bytes(*x.into_ty);
    assert(record_body(s).subrange(1, record_body(s).len() as int) + follow =~= ib + (count_bytes(
        g,
    ) + (tb + follow)));
    let p1 = p + ib.len();
    lemma_read_str(d, p, x.ident, count_bytes(g) + (tb + follow));
    lemma_read_u32(d, p1, g as u32, tb + follow);
    lemma_read_ty(d, p1 + 4, *x.into_ty, follow);
}

/// The body of a from-proxy record written at `p` (after its tag) reads
/// back.
proof fn lemma_read_from_proxy(d: Seq<u8>, p: int, x: FromProxyView, follow: Seq<u8>)
    requires
        0 <= p <= d.len(),
        d.subrange(p, d.len() as int) == record_body(SchemaView::FromProxy(x)).subrange(
            1,
            record_body(SchemaView::FromProxy(x)).len() as int,
        ) + follow,
        record_reads_back(SchemaView::FromProxy(x), follow),
    ensures
        spec_read_from_proxy(d, p) == Ok::<(SchemaView, int), crate::decode::Error>(
            (SchemaView::FromProxy(x), p + record_body(SchemaView::FromProxy(x)).len() - 1),
        ),
{
    let s = SchemaView::FromProxy(x);
    let g = x.generics.len() as int;
    let b: u8 = if x.is_try {
        1u8
    } else {
        0u8
    };
    let ib = str_bytes(x.ident);
    let tb = ty_bytes(*x.proxy);
    assert(record_body(s).subrange(1, record_body(s).len() as int) + follow =~= ib + (count_bytes(
        g,
    ) + (tb + (seq![b] + follow))));
    let p1 = p + ib.len();
    lemma_read_str(d, p, x.ident, count_bytes(g) + (tb + (seq![b] + follow)));
    lemma_read_u32(d, p1, g as u32, tb + (seq![b] + follow));
    lemma_read_ty(d, p1 + 4, *x.proxy, seq![b] + follow);
    let p3 = p1 + 4 + tb.len();
    lemma_split(d, p3, seq![b], follow);
    assert(d[p3] == seq![b][0]);
}

/// A record body tagged 6 is read by `spec_read_struct`.
proof fn lemma_dispatch_struct(d: Seq<u8>, p: int)
    requires
        0 <= p < d.len(),
        d[p] == 6,
    ensures
        spec_read_record(d, p) == spec_read_struct(d, p + 1),
{
    reveal(spec_read_record);
}

/// A record body tagged 7 is read by `spec_read_transparent`.
proof fn lemma_dispatch_transparent(d: Seq<u8>, p: int)
    requires
        0 <= p < d.len(),
        d[p] == 7,
    ensures
        spec_read_record(d, p) == spec_read_transparent(d, p + 1),
{
    reveal(spec_read_record);
}

/// A record body tagged 8 is read by `spec_read_enum`.
proof fn lemma_dispatch_enum(d: Seq<u8>, p: int)
    requires
        0 <= p < d.len(),
        d[p] == 8,
    ensures
        spec_read_record(d, p) == spec_read_enum(d, p + 1),
{
    reveal(spec_read_record);
}

/// A record body tagged 9 is read by `spec_read_into_proxy`.
proof fn lemma_dispatch_into_proxy(d: Seq<u8>, p: int)
    requires
        0 <= p < d.len(),
        d[p] == 9,
    ensures
        spec_read_record(d, p) == spec_read_into_proxy(d, p + 1),
{
    reveal(spec_read_record);
}

/// A record body tagged 10 is read by `spec_read_from_proxy`.
proof fn lemma_dispatch_from_proxy(d: Seq<u8>, p: int)
    requires
        0 <= p < d.len(),
        d[p] == 10,
    ensures
        spec_read_record(d, p) == spec_read_from_proxy(d, p + 1),
{
    reveal(spec_read_record);
}

/// A record of this kind written at `p` reads back.
proof fn lemma_record_native(d: Seq<u8>, p: int, n: Seq<char>, follow: Seq<u8>)
    requires
        0 <= p <= d.len(),
        d.subrange(p, d.len() as int) == record_body(SchemaView::Native(n)) + follow,
        record_reads_back(SchemaView::Native(n), follow),
    ensures
        spec_read_record(d, p) == Ok::<(SchemaView, int), crate::decode::Error>(
            (SchemaView::Native(n), p + record_body(SchemaView::Native(n)).len()),
        ),
{
    reveal(spec_read_record);
    assert(record_body(SchemaView::Native(n)) + follow =~= seq![0u8] + (str_bytes(n) + follow));
    lemma_read_byte(d, p, 0u8, str_bytes(n) + follow);
    lemma_read_str(d, p + 1, n, follow);
}

/// A record of this kind written at `p` reads back.
proof fn lemma_record_primitive(d: Seq<u8>, p: int, x: Scalar, follow: Seq<u8>)
    requires
        0 <= p <= d.len(),
        d.subrange(p, d.len() as int) == record_body(SchemaView::Primitive(x)) + follow,
        record_reads_back(SchemaView::Primitive(x), follow),
    ensures
        spec_read_record(d, p) == Ok::<(SchemaView, int), crate::decode::Error>(
            (SchemaView::Primitive(x), p + record_body(SchemaView::Primitive(x)).len()),
        ),
{
    reveal(spec_read_record);
    assert(record_body(SchemaView::Primitive(x)) + follow =~= seq![1u8] + (seq![scalar_code(x)]
        + follow));
    lemma_read_byte(d, p, 1u8, seq![scalar_code(x)] + follow);
    lemma_read_byte(d, p + 1, scalar_code(x), follow);
    lemma_scalar_roundtrip(x);
}

/// A record of this kind written at `p` reads back.
proof fn lemma_record_struct(d: Seq<u8>, p: int, st: StructView, follow: Seq<u8>)
    requires
        0 <= p <= d.len(),
        d.subrange(p, d.len() as int) == record_body(SchemaView::Struct(st)) + follow,
        record_reads_back(SchemaView::Struct(st), follow),
    ensures
        spec_read_record(d, p) == Ok::<(SchemaView, int), crate::decode::Error>(
            (SchemaView::Struct(st), p + record_body(SchemaView::Struct(st)).len()),
        ),
{
    let rest = str_bytes(st.ident) + (seq![st.flags] + (shape_bytes(st.shape, st.generics.len())
        + follow));
    assert(record_body(SchemaView::Struct(st)) + follow =~= seq![6u8] + rest);
    lemma_read_byte(d, p, 6u8, rest);
    lemma_dispatch_struct(d, p);
    assert(count_fits(shape_len(st.shape)));
    lemma_read_struct(d, p + 1, st, follow);
}

/// A record of this kind written at `p` reads back.
proof fn lemma_record_transparent(d: Seq<u8>, p: int, t: TransparentView, follow: Seq<u8>)
    requires
        0 <= p <= d.len(),
        d.subrange(p, d.len() as int) == record_body(SchemaView::Transparent(t)) + follow,
        record_reads_back(SchemaView::Transparent(t), follow),
    ensures
        spec_read_record(d, p) == Ok::<(SchemaView, int), crate::decode::Error>(
            (SchemaView::Transparent(t), p + record_body(SchemaView::Transparent(t)).len()),
        ),
{
    let body = record_body(SchemaView::Transparent(t));
    let inner = body.subrange(1, body.len() as int);
    assert(body + follow =~= seq![7u8] + (inner + follow));
    lemma_read_byte(d, p, 7u8, inner + follow);
    lemma_dispatch_transparent(d, p);
    lemma_read_transparent(d, p + 1, t, follow);
}

/// A record of this kind written at `p` reads back.
#[verifier::rlimit(30)]
proof fn lemma_record_enum(d: Seq<u8>, p: int, e: EnumView, follow: Seq<u8>)
    requires
        0 <= p <= d.len(),
        d.subrange(p, d.len() as int) == record_body(SchemaView::Enum(e)) + follow,
        record_reads_back(SchemaView::Enum(e), follow),
    ensures
        spec_read_record(d, p) == Ok::<(SchemaView, int), crate::decode::Error>(
            (SchemaView::Enum(e), p + record_body(SchemaView::Enum(e)).len()),
        ),
{
    let rest = str_bytes(e.ident) + (seq![e.flags] + (tagging_bytes(e.tagging) + (count_bytes(
        e.generics.len() as int,
    ) + (count_bytes(e.variants.len() as int) + (variants_bytes(e.variants) + follow)))));
    assert(record_body(SchemaView::Enum(e)) + follow =~= seq![8u8] + rest);
    lemma_read_byte(d, p, 8u8, rest);
    lemma_dispatch_enum(d, p);
    lemma_read_enum(d, p + 1, e, follow);
}

/// A record of this kind written at `p` reads back.
proof fn lemma_record_into_proxy(d: Seq<u8>, p: int, x: IntoProxyView, follow: Seq<u8>)
    requires
        0 <= p <= d.len(),
        d.subrange(p, d.len() as int) == record_body(SchemaView::IntoProxy(x)) + follow,
        record_reads_back(SchemaView::IntoProxy(x), follow),
    ensures
        spec_read_record(d, p) == Ok::<(SchemaView, int), crate::decode::Error>(
            (SchemaView::IntoProxy(x), p + record_body(SchemaView::IntoProxy(x)).len()),
        ),
{
    let body = record_body(SchemaView::IntoProxy(x));
    let inner = body.subrange(1, body.len() as int);
    assert(body + follow =~= seq![9u8] + (inner + follow));
    lemma_read_byte(d, p, 9u8, inner + follow);
    lemma_dispatch_into_proxy(d, p);
    lemma_read_into_proxy(d, p + 1, x, follow);
}

/// A record of this kind written at `p` reads back.
proof fn lemma_record_from_proxy(d: Seq<u8>, p: int, x: FromProxyView, follow: Seq<u8>)
    requires
        0 <= p <= d.len(),
        d.subrange(p, d.len() as int) == record_body(SchemaView::FromProxy(x)) + follow,
        record_reads_back(SchemaView::FromProxy(x), follow),
    ensures
        spec_read_record(d, p) == Ok::<(SchemaView, int), crate::decode::Error>(
            (SchemaView::FromProxy(x), p + record_body(SchemaView::FromProxy(x)).len()),
        ),
{
    let body = record_body(SchemaView::FromProxy(x));
    let inner = body.subrange(1, body.len() as int);
    assert(body + follow =~= seq![10u8] + (inner + follow));
    lemma_read_byte(d, p, 10u8, inner + follow);
    lemma_dispatch_from_proxy(d, p);
    lemma_read_from_proxy(d, p + 1, x, follow);
}

/// A record body written at `p` reads back.
pub proof fn lemma_read_record(d: Seq<u8>, p: int, s: SchemaView, follow: Seq<u8>)
    requires
        0 <= p <= d.len(),
        d.subrange(p, d.len() as int) == record_body(s) + follow,
        record_reads_back(s, follow),
    ensures
        spec_read_record(d, p) == Ok::<(SchemaView, int), crate::decode::Error>(
            (s, p + record_body(s).len()),
        ),
{
    match s {
        SchemaView::Native(n) => lemma_record_native(d, p, n, follow),
        SchemaView::Primitive(x) => lemma_record_primitive(d, p, x, follow),
        SchemaView::Struct(st) => lemma_record_struct(d, p, st, follow),
        SchemaView::Transparent(t) => lemma_record_transparent(d, p, t, follow),
        SchemaView::Enum(e) => lemma_record_enum(d, p, e, follow),
        SchemaView::IntoProxy(x) => lemma_record_into_proxy(d, p, x, follow),
        SchemaView::FromProxy(x) => lemma_record_from_proxy(d, p, x, follow),
        _ => {},
    }
}

// ---------------------------------------------------------------------------
// Sections
// ---------------------------------------------------------------------------

/// Every record of a section reads back, each followed by the records after
/// it.
pub open spec fn section_reads_back(ss: Seq<SchemaView>) -> bool
    decreases ss.len(),
{
    if ss.len() == 0 {
        true
    } else {
        let rest = ss.subrange(1, ss.len() as int);
        record_reads_back(ss[0], section_bytes(rest)) && section_reads_back(rest)
    }
}

/// The records written from `p` on parse back.
proof fn lemma_parse_records(d: Seq<u8>, p: int, ss: Seq<SchemaView>)
    requires
        0 <= p <= d.len(),
        d.subrange(p, d.len() as int) == section_bytes(ss),
        section_reads_back(ss),
    ensures
        spec_parse_from(d, p) == Ok::<Seq<SchemaView>, crate::decode::Error>(ss),
    decreases ss.len(),
{
    if ss.len() == 0 {
        assert(ss =~= Seq::<SchemaView>::empty());
        assert(rem(d, p) == 0);
    } else {
        let rest = ss.subrange(1, ss.len() as int);
        let body = record_body(ss[0]);
        let n = body.len() as int;
        let tail = section_bytes(rest);
        assert(section_bytes(ss) =~= count_bytes(n) + (body + tail));
        lemma_read_u32(d, p, n as u32, body + tail);
        lemma_read_record(d, p + 4, ss[0], tail);
        lemma_split(d, p + 4, body, tail);
        lemma_parse_records(d, p + 4 + n, rest);
        assert(seq![ss[0]] + rest =~= ss);
    }
}

/// A section that the encoder writes is parsed back into the schemas it
/// was written from, in order, whenever each record reads back.
pub proof fn lemma_section_roundtrip(ss: Seq<SchemaView>)
    requires
        section_reads_back(ss),
    ensures
        spec_parse_section(section_bytes(ss)) == Ok::<Seq<SchemaView>, crate::decode::Error>(ss),
{
    let d = section_bytes(ss);
    assert(d.subrange(0, d.len() as int) =~= d);
    lemma_parse_records(d, 0, ss);
}


/// The bytes of schemas written as one section are those of the first
/// part's section followed by those of the second part's.
pub proof fn lemma_section_bytes_concat(xs: Seq<SchemaView>, ys: Seq<SchemaView>)
    ensures
        section_bytes(xs + ys) == section_bytes(xs) + section_bytes(ys),
    decreases xs.len(),
{
    if xs.len() == 0 {
        assert(xs + ys =~= ys);
        assert(section_bytes(xs) =~= Seq::<u8>::empty());
        assert(section_bytes(xs) + section_bytes(ys) =~= section_bytes(ys));
    } else {
        let rest = xs.subrange(1, xs.len() as int);
        lemma_section_bytes_concat(rest, ys);
        assert((xs + ys).subrange(1, (xs + ys).len() as int) =~= rest + ys);
        assert((xs + ys)[0] == xs[0]);
        assert(section_bytes(xs + ys) =~= section_bytes(xs) + section_bytes(ys));
    }
}

/// Two sections written by the encoder, one after the other, parse to the
/// schemas of the first followed by those of the second, whenever each
/// record reads back where it stands.
pub proof fn lemma_sections_concat(xs: Seq<SchemaView>, ys: Seq<SchemaView>)
    requires
        section_reads_back(xs + ys),
    ensures
        spec_parse_section(section_bytes(xs) + section_bytes(ys)) == Ok::<
            Seq<SchemaView>,
            crate::decode::Error,
        >(xs + ys),
{
    lemma_section_bytes_concat(xs, ys);
    lemma_section_roundtrip(xs + ys);
}

} // verus!
