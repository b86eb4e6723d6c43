//! Decoding of a `typewire_schemas` section into schema values.

use vstd::prelude::*;
use vstd::string::*;
use vstd::utf8::*;

use crate::coded::{
    FieldDefaultKind, StructShapeTag, Tag, TaggingKind, VariantKindTag, field_default_kind_of_code,
    struct_shape_tag_of_code, tag_of_code, tagging_kind_of_code, variant_kind_tag_of_code,
};
use crate::flags::{EnumFlags, FieldFlags, StructFlags, VariantFlags};
use crate::scalar::{Scalar, scalar_of_code};
use crate::schema::{
    Enum, EnumView, Field, FieldDefault, FieldDefaultView, FieldView, FromProxy, FromProxyView,
    IntoProxy, IntoProxyView, Schema, SchemaView, Struct, StructShape, StructShapeView, StructView,
    Tagging, TaggingView, Transparent, TransparentView, Variant, VariantKind, VariantKindView,
    VariantView, field_view, fields_view, strings_view, tys_view, variant_view, variants_view,
};
use crate::text::{decimal, decimal_string, str_from_utf8};

verus! {

/// Error returned when decoding a section fails.
#[derive(Clone, Copy, Debug, PartialEq, Eq)]
#[non_exhaustive]
pub enum Error {
    UnexpectedEof { needed: usize, remaining: usize },
    InvalidTag(u8),
    InvalidScalar(u8),
    InvalidStructShape(u8),
    InvalidTaggingKind(u8),
    InvalidVariantKind(u8),
    InvalidFieldDefault(u8),
    InvalidUtf8 { offset: usize },
    TruncatedRecord { offset: usize, declared: usize, remaining: usize },
}

/// The message of a decoding error.
pub open spec fn error_message(e: Error) -> Seq<char> {
    match e {
        Error::UnexpectedEof { needed, remaining } => "unexpected EOF: needed "@ + decimal(
            needed as nat,
        ) + " bytes, "@ + decimal(remaining as nat) + " remaining"@,
        Error::InvalidTag(b) => "invalid tag byte: "@ + decimal(b as nat),
        Error::InvalidScalar(b) => "invalid scalar discriminant: "@ + decimal(b as nat),
        Error::InvalidStructShape(b) => "invalid struct shape: "@ + decimal(b as nat),
        Error::InvalidTaggingKind(b) => "invalid tagging kind: "@ + decimal(b as nat),
        Error::InvalidVariantKind(b) => "invalid variant kind: "@ + decimal(b as nat),
        Error::InvalidFieldDefault(b) => "invalid field default kind: "@ + decimal(b as nat),
        Error::InvalidUtf8 { offset } => "invalid UTF-8 at offset "@ + decimal(offset as nat),
        Error::TruncatedRecord { offset, declared, remaining } => "truncated record at offset "@
            + decimal(offset as nat) + ": declared "@ + decimal(declared as nat) + " bytes, "@
            + decimal(remaining as nat) + " remaining"@,
    }
}

impl Error {
    /// The error's message.
    pub fn to_string(&self) -> (r: String)
        ensures
            r@ == error_message(*self),
    {
        let mut s = String::new();
        match *self {
            Error::UnexpectedEof { needed, remaining } => {
                s.append("unexpected EOF: needed ");
                s.append(decimal_string(needed as u64).as_str());
                s.append(" bytes, ");
                s.append(decimal_string(remaining as u64).as_str());
                s.append(" remaining");
            },
            Error::InvalidTag(b) => {
                s.append("invalid tag byte: ");
                s.append(decimal_string(b as u64).as_str());
            },
            Error::InvalidScalar(b) => {
                s.append("invalid scalar discriminant: ");
                s.append(decimal_string(b as u64).as_str());
            },
            Error::InvalidStructShape(b) => {
                s.append("invalid struct shape: ");
                s.append(decimal_string(b as u64).as_str());
            },
            Error::InvalidTaggingKind(b) => {
                s.append("invalid tagging kind: ");
                s.append(decimal_string(b as u64).as_str());
            },
            Error::InvalidVariantKind(b) => {
                s.append("invalid variant kind: ");
                s.append(decimal_string(b as u64).as_str());
            },
            Error::InvalidFieldDefault(b) => {
                s.append("invalid field default kind: ");
                s.append(decimal_string(b as u64).as_str());
            },
            Error::InvalidUtf8 { offset } => {
                s.append("invalid UTF-8 at offset ");
                s.append(decimal_string(offset as u64).as_str());
            },
            Error::TruncatedRecord { offset, declared, remaining } => {
                s.append("truncated record at offset ");
                s.append(decimal_string(offset as u64).as_str());
                s.append(": declared ");
                s.append(decimal_string(declared as u64).as_str());
                s.append(" bytes, ");
                s.append(decimal_string(remaining as u64).as_str());
                s.append(" remaining");
            },
        }
        assert(s@ =~= error_message(*self));
        s
    }
}

/// A decoding step's outcome: the value read and the position after it.
pub type Step<T> = Result<(T, int), Error>;

// ---------------------------------------------------------------------------
// Specification of the byte reader
// ---------------------------------------------------------------------------

/// Bytes left after position `p` (zero past the end).
pub open spec fn rem(d: Seq<u8>, p: int) -> int {
    if p <= d.len() {
        d.len() - p
    } else {
        0
    }
}

pub open spec fn eof(needed: int, d: Seq<u8>, p: int) -> Error {
    Error::UnexpectedEof { needed: needed as usize, remaining: rem(d, p) as usize }
}

/// The little-endian value of the four bytes at `p`.
pub open spec fn le32(d: Seq<u8>, p: int) -> int {
    d[p] + 256 * d[p + 1] + 65536 * d[p + 2] + 16777216 * d[p + 3]
}

pub open spec fn spec_read_u8(d: Seq<u8>, p: int) -> Step<u8> {
    if 0 <= p < d.len() {
        Ok((d[p], p + 1))
    } else {
        Err(Error::UnexpectedEof { needed: 1, remaining: 0 })
    }
}

pub open spec fn spec_read_u32(d: Seq<u8>, p: int) -> Step<int> {
    if rem(d, p) >= 4 {
        Ok((le32(d, p), p + 4))
    } else {
        Err(eof(4, d, p))
    }
}

/// A `u32` count that must not exceed the bytes left after it.
pub open spec fn spec_read_count(d: Seq<u8>, p: int) -> Step<int> {
    match spec_read_u32(d, p) {
        Ok((n, q)) => if n > rem(d, q) {
            Err(eof(n, d, q))
        } else {
            Ok((n, q))
        },
        Err(e) => Err(e),
    }
}

/// A length-prefixed UTF-8 string.
pub open spec fn spec_read_str(d: Seq<u8>, p: int) -> Step<Seq<char>> {
    match spec_read_count(d, p) {
        Ok((n, q)) => {
            let b = d.subrange(q, q + n);
            if valid_utf8(b) {
                Ok((decode_utf8(b), q + n))
            } else {
                Err(Error::InvalidUtf8 { offset: q as usize })
            }
        },
        Err(e) => Err(e),
    }
}

/// A type identity: a native name (a length-prefixed string, recognized by
/// the three zero bytes after its first byte) or a tag-prefixed compound.
pub open spec fn spec_read_ty(d: Seq<u8>, p: int) -> Step<SchemaView>
    decreases d.len() - p, 0int,
{
    if rem(d, p) < 2 {
        Err(eof(2, d, p))
    } else if rem(d, p) >= 4 && d[p + 1] == 0 && d[p + 2] == 0 && d[p + 3] == 0 {
        match spec_read_str(d, p) {
            Ok((s, q)) => Ok((SchemaView::Native(s), q)),
            Err(e) => Err(e),
        }
    } else {
        let raw = d[p];
        match tag_of_code(raw) {
            Some(Tag::Primitive) => match scalar_of_code(d[p + 1]) {
                Some(s) => Ok((SchemaView::Primitive(s), p + 2)),
                None => Err(Error::InvalidScalar(d[p + 1])),
            },
            Some(Tag::Option) => match spec_read_ty(d, p + 1) {
                Ok((t, q)) => Ok((SchemaView::Option(Box::new(t)), q)),
                Err(e) => Err(e),
            },
            Some(Tag::Box) => match spec_read_ty(d, p + 1) {
                Ok((t, q)) => Ok((SchemaView::Box(Box::new(t)), q)),
                Err(e) => Err(e),
            },
            Some(Tag::Sequence) => match spec_read_ty(d, p + 1) {
                Ok((t, q)) => Ok((SchemaView::Sequence(Box::new(t)), q)),
                Err(e) => Err(e),
            },
            Some(Tag::Mapping) => match spec_read_ty(d, p + 1) {
                Ok((k, q)) => if !(p < q <= d.len()) {
                    Err(Error::InvalidTag(raw))
                } else {
                    match spec_read_ty(d, q) {
                        Ok((v, r)) => Ok(
                            (SchemaView::Mapping { key: Box::new(k), value: Box::new(v) }, r),
                        ),
                        Err(e) => Err(e),
                    }
                },
                Err(e) => Err(e),
            },
            Some(Tag::Struct) => match spec_read_tys(d, p + 2, d[p + 1] as int) {
                Ok((ts, q)) => Ok((SchemaView::Tuple(ts), q)),
                Err(e) => Err(e),
            },
            Some(Tag::Skipped) => Ok((SchemaView::Skipped, p + 1)),
            _ => Err(Error::InvalidTag(raw)),
        }
    }
}

/// `n` type identities in a row.
pub open spec fn spec_read_tys(d: Seq<u8>, p: int, n: int) -> Step<Seq<SchemaView>>
    decreases d.len() - p, n,
{
    if n <= 0 {
        Ok((Seq::empty(), p))
    } else {
        match spec_read_ty(d, p) {
            Ok((t, q)) => if !(p < q <= d.len()) {
                Err(Error::InvalidTag(0))
            } else {
                match spec_read_tys(d, q, n - 1) {
                    Ok((ts, r)) => Ok((seq![t] + ts, r)),
                    Err(e) => Err(e),
                }
            },
            Err(e) => Err(e),
        }
    }
}

/// `acc` followed by what `r` read, or `r`'s error.
pub open spec fn prepend<T>(acc: Seq<T>, r: Step<Seq<T>>) -> Step<Seq<T>> {
    match r {
        Ok((s, q)) => Ok((acc + s, q)),
        Err(e) => Err(e),
    }
}

/// `n` strings in a row.
pub open spec fn spec_read_strs(d: Seq<u8>, p: int, n: int) -> Step<Seq<Seq<char>>>
    decreases n,
{
    if n <= 0 {
        Ok((Seq::empty(), p))
    } else {
        match spec_read_str(d, p) {
            Ok((s, q)) => prepend(seq![s], spec_read_strs(d, q, n - 1)),
            Err(e) => Err(e),
        }
    }
}

/// A field record: ident, type, wire name, flags, default kind, aliases.
/// The format keeps no default path, so both default kinds decode as
/// `Default`.
pub open spec fn spec_read_field(d: Seq<u8>, p: int) -> Step<FieldView> {
    match spec_read_str(d, p) {
        Err(e) => Err(e),
        Ok((ident, p1)) => match spec_read_ty(d, p1) {
            Err(e) => Err(e),
            Ok((ty, p2)) => match spec_read_str(d, p2) {
                Err(e) => Err(e),
                Ok((wire_name, p3)) => match spec_read_u8(d, p3) {
                    Err(e) => Err(e),
                    Ok((flags, p4)) => match spec_read_u8(d, p4) {
                        Err(e) => Err(e),
                        Ok((raw, p5)) => match field_default_kind_of_code(raw) {
                            None => Err(Error::InvalidFieldDefault(raw)),
                            Some(kind) => match spec_read_count(d, p5) {
                                Err(e) => Err(e),
                                Ok((n, p6)) => match spec_read_strs(d, p6, n) {
                                    Err(e) => Err(e),
                                    Ok((aliases, p7)) => Ok(
                                        (
                                            FieldView {
                                                ident,
                                                ty: Box::new(ty),
                                                wire_name,
                                                flags,
                                                aliases,
                                                default: if kind == FieldDefaultKind::NoDefault {
                                                    FieldDefaultView::NoDefault
                                                } else {
                                                    FieldDefaultView::Default
                                                },
                                                skip_serializing_if: None,
                                            },
                                            p7,
                                        ),
                                    ),
                                },
                            },
                        },
                    },
                },
            },
        },
    }
}

/// `n` field records in a row.
pub open spec fn spec_read_fields(d: Seq<u8>, p: int, n: int) -> Step<Seq<FieldView>>
    decreases n,
{
    if n <= 0 {
        Ok((Seq::empty(), p))
    } else {
        match spec_read_field(d, p) {
            Ok((f, q)) => prepend(seq![f], spec_read_fields(d, q, n - 1)),
            Err(e) => Err(e),
        }
    }
}

/// The payload of a variant of the given kind, with `n` children.
pub open spec fn spec_read_variant_kind(d: Seq<u8>, p: int, kind: VariantKindTag, n: int) -> Step<
    VariantKindView,
> {
    match kind {
        VariantKindTag::Unit => Ok((VariantKindView::Unit, p)),
        VariantKindTag::Named => match spec_read_fields(d, p, n) {
            Ok((fs, q)) => Ok((VariantKindView::Named(fs), q)),
            Err(e) => Err(e),
        },
        VariantKindTag::Unnamed => match spec_read_tys(d, p, n) {
            Ok((ts, q)) => Ok((VariantKindView::Unnamed(ts), q)),
            Err(e) => Err(e),
        },
    }
}

/// A variant record: ident, wire name, flags, kind, children, aliases.
pub open spec fn spec_read_variant(d: Seq<u8>, p: int) -> Step<VariantView> {
    match spec_read_str(d, p) {
        Err(e) => Err(e),
        Ok((ident, p1)) => match spec_read_str(d, p1) {
            Err(e) => Err(e),
            Ok((wire_name, p2)) => match spec_read_u8(d, p2) {
                Err(e) => Err(e),
                Ok((flags, p3)) => match spec_read_u8(d, p3) {
                    Err(e) => Err(e),
                    Ok((raw, p4)) => match variant_kind_tag_of_code(raw) {
                        None => Err(Error::InvalidVariantKind(raw)),
                        Some(kind_tag) => match spec_read_count(d, p4) {
                            Err(e) => Err(e),
                            Ok((n, p5)) => match spec_read_variant_kind(d, p5, kind_tag, n) {
                                Err(e) => Err(e),
                                Ok((kind, p6)) => match spec_read_count(d, p6) {
                                    Err(e) => Err(e),
                                    Ok((m, p7)) => match spec_read_strs(d, p7, m) {
                                        Err(e) => Err(e),
                                        Ok((aliases, p8)) => Ok(
                                            (
                                                VariantView {
                                                    ident,
                                                    wire_name,
                                                    all_wire_names: seq![wire_name] + aliases,
                                                    flags,
                                                    kind,
                                                },
                                                p8,
                                            ),
                                        ),
                                    },
                                },
                            },
                        },
                    },
                },
            },
        },
    }
}

/// `n` variant records in a row.
pub open spec fn spec_read_variants(d: Seq<u8>, p: int, n: int) -> Step<Seq<VariantView>>
    decreases n,
{
    if n <= 0 {
        Ok((Seq::empty(), p))
    } else {
        match spec_read_variant(d, p) {
            Ok((v, q)) => prepend(seq![v], spec_read_variants(d, q, n - 1)),
            Err(e) => Err(e),
        }
    }
}

/// The placeholder names of `n` generic parameters: `T0`, `T1`, ...
/// (the format keeps only their number).
pub open spec fn generic_names(n: nat) -> Seq<Seq<char>> {
    Seq::new(n, |i: int| "T"@ + decimal(i as nat))
}

/// The body of a struct record (after its tag).
pub open spec fn spec_read_struct(d: Seq<u8>, p: int) -> Step<SchemaView> {
    match spec_read_str(d, p) {
        Err(e) => Err(e),
        Ok((ident, p1)) => match spec_read_u8(d, p1) {
            Err(e) => Err(e),
            Ok((flags, p2)) => match spec_read_u8(d, p2) {
                Err(e) => Err(e),
                Ok((raw, p3)) => match struct_shape_tag_of_code(raw) {
                    None => Err(Error::InvalidStructShape(raw)),
                    Some(shape_tag) => match spec_read_u32(d, p3) {
                        Err(e) => Err(e),
                        Ok((g, p4)) => match spec_read_count(d, p4) {
                            Err(e) => Err(e),
                            Ok((n, p5)) => {
                                let shape: Step<StructShapeView> = match shape_tag {
                                    StructShapeTag::Named => match spec_read_fields(d, p5, n) {
                                        Ok((fs, q)) => Ok((StructShapeView::Named(fs), q)),
                                        Err(e) => Err(e),
                                    },
                                    StructShapeTag::Tuple => match spec_read_tys(d, p5, n) {
                                        Ok((ts, q)) => Ok((StructShapeView::Tuple(ts), q)),
                                        Err(e) => Err(e),
                                    },
                                    StructShapeTag::Unit => Ok((StructShapeView::Unit, p5)),
                                };
                                match shape {
                                    Err(e) => Err(e),
                                    Ok((shape, q)) => Ok(
                                        (
                                            SchemaView::Struct(
                                                StructView {
                                                    ident,
                                                    generics: generic_names(g as nat),
                                                    flags,
                                                    shape,
                                                },
                                            ),
                                            q,
                                        ),
                                    ),
                                }
                            },
                        },
                    },
                },
            },
        },
    }
}

/// The body of a transparent record (after its tag).
pub open spec fn spec_read_transparent(d: Seq<u8>, p: int) -> Step<SchemaView> {
    match spec_read_str(d, p) {
        Err(e) => Err(e),
        Ok((ident, p1)) => match spec_read_u8(d, p1) {
            Err(e) => Err(e),
            Ok((atomic, p2)) => match spec_read_ty(d, p2) {
                Err(e) => Err(e),
                Ok((inner, p3)) => Ok(
                    (
                        SchemaView::Transparent(
                            TransparentView {
                                ident,
                                generics: Seq::empty(),
                                atomic: atomic != 0,
                                field_ident: None,
                                field_ty: Box::new(inner),
                            },
                        ),
                        p3,
                    ),
                ),
            },
        },
    }
}

/// The tagging strategy of an enum record.
pub open spec fn tagging_of(kind: TaggingKind, tag: Seq<char>, content: Seq<char>) -> TaggingView {
    match kind {
        TaggingKind::External => TaggingView::External,
        TaggingKind::Internal => TaggingView::Internal { tag },
        TaggingKind::Adjacent => TaggingView::Adjacent { tag, content },
        TaggingKind::Untagged => TaggingView::Untagged,
    }
}

/// The body of an enum record (after its tag).
pub open spec fn spec_read_enum(d: Seq<u8>, p: int) -> Step<SchemaView> {
    match spec_read_str(d, p) {
        Err(e) => Err(e),
        Ok((ident, p1)) => match spec_read_u8(d, p1) {
            Err(e) => Err(e),
            Ok((flags, p2)) => match spec_read_u8(d, p2) {
                Err(e) => Err(e),
                Ok((raw, p3)) => match tagging_kind_of_code(raw) {
                    None => Err(Error::InvalidTaggingKind(raw)),
                    Some(kind) => match spec_read_str(d, p3) {
                        Err(e) => Err(e),
                        Ok((tag_key, p4)) => match spec_read_str(d, p4) {
                            Err(e) => Err(e),
                            Ok((content_key, p5)) => match spec_read_u32(d, p5) {
                                Err(e) => Err(e),
                                Ok((g, p6)) => match spec_read_count(d, p6) {
                                    Err(e) => Err(e),
                                    Ok((n, p7)) => match spec_read_variants(d, p7, n) {
                                        Err(e) => Err(e),
                                        Ok((variants, p8)) => Ok(
                                            (
                                                SchemaView::Enum(
                                                    EnumView {
                                                        ident,
                                                        generics: generic_names(g as nat),
                                                        flags,
                                                        tagging: tagging_of(
                                                            kind,
                                                            tag_key,
                                                            content_key,
                                                        ),
                                                        variants,
                                                    },
                                                ),
                                                p8,
                                            ),
                                        ),
                                    },
                                },
                            },
                        },
                    },
                },
            },
        },
    }
}

/// The body of an into-proxy record (after its tag).
pub open spec fn spec_read_into_proxy(d: Seq<u8>, p: int) -> Step<SchemaView> {
    match spec_read_str(d, p) {
        Err(e) => Err(e),
        Ok((ident, p1)) => match spec_read_u32(d, p1) {
            Err(e) => Err(e),
            Ok((g, p2)) => match spec_read_ty(d, p2) {
                Err(e) => Err(e),
                Ok((into_ty, p3)) => Ok(
                    (
                        SchemaView::IntoProxy(
                            IntoProxyView {
                                ident,
                                generics: generic_names(g as nat),
                                into_ty: Box::new(into_ty),
                            },
                        ),
                        p3,
                    ),
                ),
            },
        },
    }
}

/// The body of a from-proxy record (after its tag).
pub open spec fn spec_read_from_proxy(d: Seq<u8>, p: int) -> Step<SchemaView> {
    match spec_read_str(d, p) {
        Err(e) => Err(e),
        Ok((ident, p1)) => match spec_read_u32(d, p1) {
            Err(e) => Err(e),
            Ok((g, p2)) => match spec_read_ty(d, p2) {
                Err(e) => Err(e),
                Ok((proxy, p3)) => match spec_read_u8(d, p3) {
                    Err(e) => Err(e),
                    Ok((is_try, p4)) => Ok(
                        (
                            SchemaView::FromProxy(
                                FromProxyView {
                                    ident,
                                    generics: generic_names(g as nat),
                                    proxy: Box::new(proxy),
                                    is_try: is_try != 0,
                                },
                            ),
                            p4,
                        ),
                    ),
                },
            },
        },
    }
}

/// A record body: a tag byte and what it announces.
#[verifier::opaque]
pub open spec fn spec_read_record(d: Seq<u8>, p: int) -> Step<SchemaView> {
    match spec_read_u8(d, p) {
        Err(e) => Err(e),
        Ok((raw, p1)) => match tag_of_code(raw) {
            Some(Tag::Native) => match spec_read_str(d, p1) {
                Ok((s, q)) => Ok((SchemaView::Native(s), q)),
                Err(e) => Err(e),
            },
            Some(Tag::Primitive) => match spec_read_u8(d, p1) {
                Err(e) => Err(e),
                Ok((code, q)) => match scalar_of_code(code) {
                    Some(s) => Ok((SchemaView::Primitive(s), q)),
                    None => Err(Error::InvalidScalar(code)),
                },
            },
            Some(Tag::Struct) => spec_read_struct(d, p1),
            Some(Tag::Transparent) => spec_read_transparent(d, p1),
            Some(Tag::Enum) => spec_read_enum(d, p1),
            Some(Tag::IntoProxy) => spec_read_into_proxy(d, p1),
            Some(Tag::FromProxy) => spec_read_from_proxy(d, p1),
            _ => Err(Error::InvalidTag(raw)),
        },
    }
}

/// The records from position `p` on: each is a `u32` length and a body;
/// fewer than four bytes left end the section.
pub open spec fn spec_parse_from(d: Seq<u8>, p: int) -> Result<Seq<SchemaView>, Error>
    decreases d.len() - p,
{
    if rem(d, p) < 4 {
        Ok(Seq::empty())
    } else {
        let n = le32(d, p);
        let q = p + 4;
        if rem(d, q) < n {
            Err(
                Error::TruncatedRecord {
                    offset: p as usize,
                    declared: n as usize,
                    remaining: rem(d, q) as usize,
                },
            )
        } else {
            match spec_read_record(d, q) {
                Err(e) => Err(e),
                Ok((s, _)) => match spec_parse_from(d, q + n) {
                    Ok(rest) => Ok(seq![s] + rest),
                    Err(e) => Err(e),
                },
            }
        }
    }
}

/// The schemas of a whole section.
pub open spec fn spec_parse_section(d: Seq<u8>) -> Result<Seq<SchemaView>, Error> {
    spec_parse_from(d, 0)
}

/// The views of a list of schemas.
pub open spec fn schemas_view(s: Seq<Schema>) -> Seq<SchemaView> {
    Seq::new(s.len(), |i: int| s[i]@)
}

// ---------------------------------------------------------------------------
// Byte reader
// ---------------------------------------------------------------------------

pub(crate) struct Reader<'a> {
    pub(crate) data: &'a [u8],
    pub(crate) pos: usize,
}

impl<'a> Reader<'a> {
    pub(crate) open spec fn wf(&self) -> bool {
        self.pos <= self.data@.len()
    }

    pub(crate) fn new(data: &'a [u8]) -> (r: Reader<'a>)
        ensures
            r.data@ == data@,
            r.pos == 0,
            r.wf(),
    {
        Reader { data, pos: 0 }
    }

    pub(crate) fn remaining(&self) -> (r: usize)
        ensures
            r == rem(self.data@, self.pos as int),
    {
        if self.pos <= self.data.len() {
            self.data.len() - self.pos
        } else {
            0
        }
    }

    pub(crate) fn read_u8(&mut self) -> (res: Result<u8, Error>)
        requires
            old(self).wf(),
        ensures
            final(self).data@ == old(self).data@,
            final(self).wf(),
            match spec_read_u8(old(self).data@, old(self).pos as int) {
                Ok((v, q)) => res == Ok::<u8, Error>(v) && final(self).pos == q,
                Err(e) => res == Err::<u8, Error>(e),
            },
    {
        if self.pos < self.data.len() {
            let v = self.data[self.pos];
            self.pos = self.pos + 1;
            Ok(v)
        } else {
            Err(Error::UnexpectedEof { needed: 1, remaining: 0 })
        }
    }

    pub(crate) fn read_u32_le(&mut self) -> (res: Result<u32, Error>)
        requires
            old(self).wf(),
        ensures
            final(self).data@ == old(self).data@,
            final(self).wf(),
            match spec_read_u32(old(self).data@, old(self).pos as int) {
                Ok((v, q)) => res matches Ok(x) && x == v && final(self).pos == q,
                Err(e) => res == Err::<u32, Error>(e),
            },
    {
        if self.data.len() - self.pos >= 4 {
            let b0 = self.data[self.pos] as u32;
            let b1 = self.data[self.pos + 1] as u32;
            let b2 = self.data[self.pos + 2] as u32;
            let b3 = self.data[self.pos + 3] as u32;
            self.pos = self.pos + 4;
            Ok(b0 + 256 * b1 + 65536 * b2 + 16777216 * b3)
        } else {
            Err(Error::UnexpectedEof { needed: 4, remaining: self.remaining() })
        }
    }

    pub(crate) fn read_count(&mut self) -> (res: Result<usize, Error>)
        requires
            old(self).wf(),
        ensures
            final(self).data@ == old(self).data@,
            final(self).wf(),
            match spec_read_count(old(self).data@, old(self).pos as int) {
                Ok((v, q)) => res matches Ok(x) && x == v && final(self).pos == q,
                Err(e) => res == Err::<usize, Error>(e),
            },
    {
        let n = match self.read_u32_le() {
            Ok(n) => n as usize,
            Err(e) => return Err(e),
        };
        if n > self.remaining() {
            return Err(Error::UnexpectedEof { needed: n, remaining: self.remaining() });
        }
        Ok(n)
    }

    pub(crate) fn read_ident_str(&mut self) -> (res: Result<String, Error>)
        requires
            old(self).wf(),
        ensures
            final(self).data@ == old(self).data@,
            final(self).wf(),
            match spec_read_str(old(self).data@, old(self).pos as int) {
                Ok((v, q)) => res matches Ok(x) && x@ == v && final(self).pos == q,
                Err(e) => res == Err::<String, Error>(e),
            },
            res is Ok ==> old(self).pos + 4 <= final(self).pos,
    {
        let len = match self.read_count() {
            Ok(n) => n,
            Err(e) => return Err(e),
        };
        let dlen = self.data.len();
        assert(len <= dlen - self.pos);
        let offset = self.pos;
        let bytes = &self.data[self.pos..self.pos + len];
        match str_from_utf8(bytes) {
            Some(s) => {
                proof {
                    encode_utf8_decode_utf8(s@);
                }
                let out = s.to_owned();
                self.pos = self.pos + len;
                Ok(out)
            },
            None => Err(Error::InvalidUtf8 { offset }),
        }
    }

    /// Reads a type identity (a type reference).
    pub(crate) fn read_type_ident(&mut self) -> (res: Result<Schema, Error>)
        requires
            old(self).wf(),
        ensures
            final(self).data@ == old(self).data@,
            final(self).wf(),
            match spec_read_ty(old(self).data@, old(self).pos as int) {
                Ok((v, q)) => res matches Ok(x) && x@ == v && final(self).pos == q,
                Err(e) => res == Err::<Schema, Error>(e),
            },
            res is Ok ==> old(self).pos < final(self).pos,
            old(self).data@.len() - old(self).pos < 2 ==> final(self).pos == old(self).pos,
        decreases old(self).data@.len() - old(self).pos, 0int,
    {
        proof {
            reveal_with_fuel(crate::schema::schema_view, 2);
        }
        let dlen = self.data.len();
        if self.remaining() < 2 {
            return Err(Error::UnexpectedEof { needed: 2, remaining: self.remaining() });
        }
        if self.remaining() >= 4 {
            let b1 = self.data[self.pos + 1];
            let b2 = self.data[self.pos + 2];
            let b3 = self.data[self.pos + 3];
            if b1 == 0 && b2 == 0 && b3 == 0 {
                let name = match self.read_ident_str() {
                    Ok(n) => n,
                    Err(e) => return Err(e),
                };
                return Ok(Schema::Native(name));
            }
        }
        let raw = match self.read_u8() {
            Ok(v) => v,
            Err(e) => return Err(e),
        };
        match Tag::from_u8(raw) {
            Some(Tag::Primitive) => {
                let code = match self.read_u8() {
                    Ok(v) => v,
                    Err(e) => return Err(e),
                };
                match Scalar::from_u8(code) {
                    Some(s) => Ok(Schema::Primitive(s)),
                    None => Err(Error::InvalidScalar(code)),
                }
            },
            Some(Tag::Option) => {
                let inner = match self.read_type_ident() {
                    Ok(t) => t,
                    Err(e) => return Err(e),
                };
                Ok(Schema::Option(Box::new(inner)))
            },
            Some(Tag::Box) => {
                let inner = match self.read_type_ident() {
                    Ok(t) => t,
                    Err(e) => return Err(e),
                };
                Ok(Schema::Box(Box::new(inner)))
            },
            Some(Tag::Sequence) => {
                let inner = match self.read_type_ident() {
                    Ok(t) => t,
                    Err(e) => return Err(e),
                };
                Ok(Schema::Sequence(Box::new(inner)))
            },
            Some(Tag::Mapping) => {
                let key = match self.read_type_ident() {
                    Ok(t) => t,
                    Err(e) => return Err(e),
                };
                let value = match self.read_type_ident() {
                    Ok(t) => t,
                    Err(e) => return Err(e),
                };
                Ok(Schema::Mapping { key: Box::new(key), value: Box::new(value) })
            },
            Some(Tag::Struct) => {
                let count = match self.read_u8() {
                    Ok(v) => v,
                    Err(e) => return Err(e),
                };
                let elements = match self.read_type_idents(count as usize) {
                    Ok(v) => v,
                    Err(e) => return Err(e),
                };
                Ok(Schema::Tuple(elements))
            },
            Some(Tag::Skipped) => Ok(Schema::Skipped),
            _ => Err(Error::InvalidTag(raw)),
        }
    }

    /// Reads `count` type identities in a row.
    pub(crate) fn read_type_idents(&mut self, count: usize) -> (res: Result<
        Vec<Box<Schema>>,
        Error,
    >)
        requires
            old(self).wf(),
        ensures
            final(self).data@ == old(self).data@,
            final(self).wf(),
            match spec_read_tys(old(self).data@, old(self).pos as int, count as int) {
                Ok((v, q)) => res matches Ok(x) && tys_view(x@) == v && final(self).pos == q,
                Err(e) => res == Err::<Vec<Box<Schema>>, Error>(e),
            },
            res is Ok ==> old(self).pos <= final(self).pos,
        decreases old(self).data@.len() - old(self).pos, count,
    {
        let ghost d = self.data@;
        let ghost p0 = self.pos as int;
        let mut out: Vec<Box<Schema>> = Vec::new();
        let mut i: usize = 0;
        while i < count
            invariant
                self.data@ == d,
                d == old(self).data@,
                p0 == old(self).pos,
                self.wf(),
                i <= count,
                p0 <= self.pos,
                i > 0 ==> p0 < self.pos,
                spec_read_tys(d, p0, count as int) == prepend(
                    tys_view(out@),
                    spec_read_tys(d, self.pos as int, count - i),
                ),
            decreases count - i,
        {
            let ghost before = out@;
            let t = match self.read_type_ident() {
                Ok(t) => t,
                Err(e) => return Err(e),
            };
            out.push(Box::new(t));
            proof {
                assert(out@.subrange(0, out@.len() - 1) =~= before);
                let tv = tys_view(before);
                assert(tys_view(out@) == tv.push(t@));
                let rest = spec_read_tys(d, self.pos as int, count - i - 1);
                match rest {
                    Ok((ts, q)) => {
                        assert(tv + (seq![t@] + ts) =~= tv.push(t@) + ts);
                    },
                    Err(e) => {},
                }
            }
            i = i + 1;
        }
        proof {
            assert(tys_view(out@) + Seq::<SchemaView>::empty() =~= tys_view(out@));
        }
        Ok(out)
    }
}


// ---------------------------------------------------------------------------
// Record parsers
// ---------------------------------------------------------------------------

fn read_strs(r: &mut Reader, count: usize) -> (res: Result<Vec<String>, Error>)
    requires
        old(r).wf(),
    ensures
        final(r).data@ == old(r).data@,
        final(r).wf(),
        match spec_read_strs(old(r).data@, old(r).pos as int, count as int) {
            Ok((v, q)) => res matches Ok(x) && strings_view(x@) == v && final(r).pos == q,
            Err(e) => res == Err::<Vec<String>, Error>(e),
        },
{
    let ghost d = r.data@;
    let mut out: Vec<String> = Vec::new();
    let mut i: usize = 0;
    while i < count
        invariant
            r.data@ == d,
            d == old(r).data@,
            r.wf(),
            i <= count,
            spec_read_strs(d, old(r).pos as int, count as int) == prepend(
                strings_view(out@),
                spec_read_strs(d, r.pos as int, count - i),
            ),
        decreases count - i,
    {
        let ghost before = strings_view(out@);
        let s = match r.read_ident_str() {
            Ok(s) => s,
            Err(e) => return Err(e),
        };
        out.push(s);
        proof {
            assert(strings_view(out@) =~= before.push(s@));
            match spec_read_strs(d, r.pos as int, count - i - 1) {
                Ok((ss, q)) => {
                    assert(before + (seq![s@] + ss) =~= before.push(s@) + ss);
                },
                Err(e) => {},
            }
        }
        i = i + 1;
    }
    proof {
        assert(strings_view(out@) + Seq::<Seq<char>>::empty() =~= strings_view(out@));
    }
    Ok(out)
}

fn parse_flat_field(r: &mut Reader) -> (res: Result<Field, Error>)
    requires
        old(r).wf(),
    ensures
        final(r).data@ == old(r).data@,
        final(r).wf(),
        match spec_read_field(old(r).data@, old(r).pos as int) {
            Ok((v, q)) => res matches Ok(x) && field_view(x) == v && final(r).pos == q,
            Err(e) => res == Err::<Field, Error>(e),
        },
{
    let ident = match r.read_ident_str() {
        Ok(s) => s,
        Err(e) => return Err(e),
    };
    let ty = match r.read_type_ident() {
        Ok(t) => t,
        Err(e) => return Err(e),
    };
    let wire_name = match r.read_ident_str() {
        Ok(s) => s,
        Err(e) => return Err(e),
    };
    let flags = match r.read_u8() {
        Ok(v) => FieldFlags::from_bits_retain(v),
        Err(e) => return Err(e),
    };
    let raw = match r.read_u8() {
        Ok(v) => v,
        Err(e) => return Err(e),
    };
    let default_kind = match FieldDefaultKind::from_u8(raw) {
        Some(k) => k,
        None => return Err(Error::InvalidFieldDefault(raw)),
    };
    let default = match default_kind {
        FieldDefaultKind::NoDefault => FieldDefault::NoDefault,
        FieldDefaultKind::Default | FieldDefaultKind::Path => FieldDefault::Default,
    };
    let alias_count = match r.read_count() {
        Ok(n) => n,
        Err(e) => return Err(e),
    };
    let aliases = match read_strs(r, alias_count) {
        Ok(v) => v,
        Err(e) => return Err(e),
    };
    Ok(Field { ident, ty: Box::new(ty), wire_name, flags, aliases, default, skip_serializing_if: None })
}

fn read_fields(r: &mut Reader, count: usize) -> (res: Result<Vec<Field>, Error>)
    requires
        old(r).wf(),
    ensures
        final(r).data@ == old(r).data@,
        final(r).wf(),
        match spec_read_fields(old(r).data@, old(r).pos as int, count as int) {
            Ok((v, q)) => res matches Ok(x) && fields_view(x@) == v && final(r).pos == q,
            Err(e) => res == Err::<Vec<Field>, Error>(e),
        },
{
    let ghost d = r.data@;
    let mut out: Vec<Field> = Vec::new();
    let mut i: usize = 0;
    while i < count
        invariant
            r.data@ == d,
            d == old(r).data@,
            r.wf(),
            i <= count,
            spec_read_fields(d, old(r).pos as int, count as int) == prepend(
                fields_view(out@),
                spec_read_fields(d, r.pos as int, count - i),
            ),
        decreases count - i,
    {
        let ghost before = out@;
        let f = match parse_flat_field(r) {
            Ok(f) => f,
            Err(e) => return Err(e),
        };
        out.push(f);
        proof {
            assert(out@.subrange(0, out@.len() - 1) =~= before);
            let fv = fields_view(before);
            assert(fields_view(out@) == fv.push(field_view(f)));
            match spec_read_fields(d, r.pos as int, count - i - 1) {
                Ok((fs, q)) => {
                    assert(fv + (seq![field_view(f)] + fs) =~= fv.push(field_view(f)) + fs);
                },
                Err(e) => {},
            }
        }
        i = i + 1;
    }
    proof {
        assert(fields_view(out@) + Seq::<FieldView>::empty() =~= fields_view(out@));
    }
    Ok(out)
}

fn parse_flat_variant(r: &mut Reader) -> (res: Result<Variant, Error>)
    requires
        old(r).wf(),
    ensures
        final(r).data@ == old(r).data@,
        final(r).wf(),
        match spec_read_variant(old(r).data@, old(r).pos as int) {
            Ok((v, q)) => res matches Ok(x) && variant_view(x) == v && final(r).pos == q,
            Err(e) => res == Err::<Variant, Error>(e),
        },
{
    let ident = match r.read_ident_str() {
        Ok(s) => s,
        Err(e) => return Err(e),
    };
    let wire_name = match r.read_ident_str() {
        Ok(s) => s,
        Err(e) => return Err(e),
    };
    let flags = match r.read_u8() {
        Ok(v) => VariantFlags::from_bits_retain(v),
        Err(e) => return Err(e),
    };
    let raw = match r.read_u8() {
        Ok(v) => v,
        Err(e) => return Err(e),
    };
    let kind_tag = match VariantKindTag::from_u8(raw) {
        Some(k) => k,
        None => return Err(Error::InvalidVariantKind(raw)),
    };
    let child_count = match r.read_count() {
        Ok(n) => n,
        Err(e) => return Err(e),
    };
    let kind = match kind_tag {
        VariantKindTag::Unit => VariantKind::Unit,
        VariantKindTag::Named => match read_fields(r, child_count) {
            Ok(fs) => VariantKind::Named(fs),
            Err(e) => return Err(e),
        },
        VariantKindTag::Unnamed => match r.read_type_idents(child_count) {
            Ok(ts) => VariantKind::Unnamed(ts),
            Err(e) => return Err(e),
        },
    };
    let alias_count = match r.read_count() {
        Ok(n) => n,
        Err(e) => return Err(e),
    };
    let aliases = match read_strs(r, alias_count) {
        Ok(v) => v,
        Err(e) => return Err(e),
    };
    let mut all_wire_names: Vec<String> = Vec::new();
    all_wire_names.push(wire_name.clone());
    let mut i: usize = 0;
    while i < aliases.len()
        invariant
            i <= aliases.len(),
            strings_view(all_wire_names@) =~= seq![wire_name@] + strings_view(aliases@).subrange(
                0,
                i as int,
            ),
        decreases aliases.len() - i,
    {
        let ghost prev = all_wire_names@;
        let a = aliases[i].clone();
        assert(a@ == strings_view(aliases@)[i as int]);
        all_wire_names.push(a);
        assert(strings_view(all_wire_names@) =~= strings_view(prev).push(a@));
        assert(strings_view(aliases@).subrange(0, i + 1) =~= strings_view(aliases@).subrange(
            0,
            i as int,
        ).push(a@));
        i = i + 1;
    }
    proof {
        assert(strings_view(aliases@).subrange(0, aliases@.len() as int) =~= strings_view(aliases@));
    }
    Ok(Variant { ident, wire_name, all_wire_names, flags, kind })
}

fn read_variants(r: &mut Reader, count: usize) -> (res: Result<Vec<Variant>, Error>)
    requires
        old(r).wf(),
    ensures
        final(r).data@ == old(r).data@,
        final(r).wf(),
        match spec_read_variants(old(r).data@, old(r).pos as int, count as int) {
            Ok((v, q)) => res matches Ok(x) && variants_view(x@) == v && final(r).pos == q,
            Err(e) => res == Err::<Vec<Variant>, Error>(e),
        },
{
    let ghost d = r.data@;
    let mut out: Vec<Variant> = Vec::new();
    let mut i: usize = 0;
    while i < count
        invariant
            r.data@ == d,
            d == old(r).data@,
            r.wf(),
            i <= count,
            spec_read_variants(d, old(r).pos as int, count as int) == prepend(
                variants_view(out@),
                spec_read_variants(d, r.pos as int, count - i),
            ),
        decreases count - i,
    {
        let ghost before = out@;
        let v = match parse_flat_variant(r) {
            Ok(v) => v,
            Err(e) => return Err(e),
        };
        out.push(v);
        proof {
            assert(out@.subrange(0, out@.len() - 1) =~= before);
            let vv = variants_view(before);
            assert(variants_view(out@) == vv.push(variant_view(v)));
            match spec_read_variants(d, r.pos as int, count - i - 1) {
                Ok((vs, q)) => {
                    assert(vv + (seq![variant_view(v)] + vs) =~= vv.push(variant_view(v)) + vs);
                },
                Err(e) => {},
            }
        }
        i = i + 1;
    }
    proof {
        assert(variants_view(out@) + Seq::<VariantView>::empty() =~= variants_view(out@));
    }
    Ok(out)
}

/// The placeholder names `T0`, `T1`, ... of `n` generic parameters.
fn generic_names_vec(n: usize) -> (res: Vec<String>)
    ensures
        strings_view(res@) == generic_names(n as nat),
{
    let mut out: Vec<String> = Vec::new();
    let mut i: usize = 0;
    while i < n
        invariant
            i <= n,
            strings_view(out@) =~= generic_names(i as nat),
        decreases n - i,
    {
        let mut name = String::from_str("T");
        let digits = decimal_string(i as u64);
        name.append(digits.as_str());
        let ghost prev = out@;
        assert(name@ == "T"@ + decimal(i as nat));
        out.push(name);
        assert(strings_view(out@) =~= strings_view(prev).push(name@));
        assert(generic_names((i + 1) as nat) =~= generic_names(i as nat).push(name@));
        i = i + 1;
    }
    out
}


fn parse_struct(r: &mut Reader) -> (res: Result<Schema, Error>)
    requires
        old(r).wf(),
    ensures
        final(r).data@ == old(r).data@,
        final(r).wf(),
        match spec_read_struct(old(r).data@, old(r).pos as int) {
            Ok((v, q)) => res matches Ok(x) && x@ == v && final(r).pos == q,
            Err(e) => res == Err::<Schema, Error>(e),
        },
{
    proof {
        reveal_with_fuel(crate::schema::schema_view, 2);
    }
    let ident = match r.read_ident_str() {
        Ok(s) => s,
        Err(e) => return Err(e),
    };
    let flags = match r.read_u8() {
        Ok(v) => StructFlags::from_bits_retain(v),
        Err(e) => return Err(e),
    };
    let raw = match r.read_u8() {
        Ok(v) => v,
        Err(e) => return Err(e),
    };
    let shape_tag = match StructShapeTag::from_u8(raw) {
        Some(t) => t,
        None => return Err(Error::InvalidStructShape(raw)),
    };
    let generic_count = match r.read_u32_le() {
        Ok(n) => n as usize,
        Err(e) => return Err(e),
    };
    let field_count = match r.read_count() {
        Ok(n) => n,
        Err(e) => return Err(e),
    };
    let shape = match shape_tag {
        StructShapeTag::Named => match read_fields(r, field_count) {
            Ok(fs) => StructShape::Named(fs),
            Err(e) => return Err(e),
        },
        StructShapeTag::Tuple => match r.read_type_idents(field_count) {
            Ok(ts) => StructShape::Tuple(ts),
            Err(e) => return Err(e),
        },
        StructShapeTag::Unit => StructShape::Unit,
    };
    let generics = generic_names_vec(generic_count);
    Ok(Schema::Struct(Struct { ident, generics, flags, shape }))
}

fn parse_transparent(r: &mut Reader) -> (res: Result<Schema, Error>)
    requires
        old(r).wf(),
    ensures
        final(r).data@ == old(r).data@,
        final(r).wf(),
        match spec_read_transparent(old(r).data@, old(r).pos as int) {
            Ok((v, q)) => res matches Ok(x) && x@ == v && final(r).pos == q,
            Err(e) => res == Err::<Schema, Error>(e),
        },
{
    proof {
        reveal_with_fuel(crate::schema::schema_view, 2);
    }
    let ident = match r.read_ident_str() {
        Ok(s) => s,
        Err(e) => return Err(e),
    };
    let atomic = match r.read_u8() {
        Ok(v) => v != 0,
        Err(e) => return Err(e),
    };
    let inner = match r.read_type_ident() {
        Ok(t) => t,
        Err(e) => return Err(e),
    };
    let generics: Vec<String> = Vec::new();
    proof {
        assert(strings_view(generics@) =~= Seq::<Seq<char>>::empty());
    }
    Ok(
        Schema::Transparent(
            Transparent { ident, generics, atomic, field_ident: None, field_ty: Box::new(inner) },
        ),
    )
}

fn parse_enum(r: &mut Reader) -> (res: Result<Schema, Error>)
    requires
        old(r).wf(),
    ensures
        final(r).data@ == old(r).data@,
        final(r).wf(),
        match spec_read_enum(old(r).data@, old(r).pos as int) {
            Ok((v, q)) => res matches Ok(x) && x@ == v && final(r).pos == q,
            Err(e) => res == Err::<Schema, Error>(e),
        },
{
    proof {
        reveal_with_fuel(crate::schema::schema_view, 2);
    }
    let ident = match r.read_ident_str() {
        Ok(s) => s,
        Err(e) => return Err(e),
    };
    let flags = match r.read_u8() {
        Ok(v) => EnumFlags::from_bits_retain(v),
        Err(e) => return Err(e),
    };
    let raw = match r.read_u8() {
        Ok(v) => v,
        Err(e) => return Err(e),
    };
    let tagging_kind = match TaggingKind::from_u8(raw) {
        Some(k) => k,
        None => return Err(Error::InvalidTaggingKind(raw)),
    };
    let tag_key = match r.read_ident_str() {
        Ok(s) => s,
        Err(e) => return Err(e),
    };
    let content_key = match r.read_ident_str() {
        Ok(s) => s,
        Err(e) => return Err(e),
    };
    let generic_count = match r.read_u32_le() {
        Ok(n) => n as usize,
        Err(e) => return Err(e),
    };
    let variant_count = match r.read_count() {
        Ok(n) => n,
        Err(e) => return Err(e),
    };
    let tagging = match tagging_kind {
        TaggingKind::External => Tagging::External,
        TaggingKind::Internal => Tagging::Internal { tag: tag_key },
        TaggingKind::Adjacent => Tagging::Adjacent { tag: tag_key, content: content_key },
        TaggingKind::Untagged => Tagging::Untagged,
    };
    let variants = match read_variants(r, variant_count) {
        Ok(v) => v,
        Err(e) => return Err(e),
    };
    let generics = generic_names_vec(generic_count);
    Ok(Schema::Enum(Enum { ident, generics, flags, tagging, variants }))
}

fn parse_into_proxy(r: &mut Reader) -> (res: Result<Schema, Error>)
    requires
        old(r).wf(),
    ensures
        final(r).data@ == old(r).data@,
        final(r).wf(),
        match spec_read_into_proxy(old(r).data@, old(r).pos as int) {
            Ok((v, q)) => res matches Ok(x) && x@ == v && final(r).pos == q,
            Err(e) => res == Err::<Schema, Error>(e),
        },
{
    proof {
        reveal_with_fuel(crate::schema::schema_view, 2);
    }
    let ident = match r.read_ident_str() {
        Ok(s) => s,
        Err(e) => return Err(e),
    };
    let generic_count = match r.read_u32_le() {
        Ok(n) => n as usize,
        Err(e) => return Err(e),
    };
    let into_ty = match r.read_type_ident() {
        Ok(t) => t,
        Err(e) => return Err(e),
    };
    let generics = generic_names_vec(generic_count);
    Ok(Schema::IntoProxy(IntoProxy { ident, generics, into_ty: Box::new(into_ty) }))
}

fn parse_from_proxy(r: &mut Reader) -> (res: Result<Schema, Error>)
    requires
        old(r).wf(),
    ensures
        final(r).data@ == old(r).data@,
        final(r).wf(),
        match spec_read_from_proxy(old(r).data@, old(r).pos as int) {
            Ok((v, q)) => res matches Ok(x) && x@ == v && final(r).pos == q,
            Err(e) => res == Err::<Schema, Error>(e),
        },
{
    proof {
        reveal_with_fuel(crate::schema::schema_view, 2);
    }
    let ident = match r.read_ident_str() {
        Ok(s) => s,
        Err(e) => return Err(e),
    };
    let generic_count = match r.read_u32_le() {
        Ok(n) => n as usize,
        Err(e) => return Err(e),
    };
    let proxy = match r.read_type_ident() {
        Ok(t) => t,
        Err(e) => return Err(e),
    };
    let is_try = match r.read_u8() {
        Ok(v) => v != 0,
        Err(e) => return Err(e),
    };
    let generics = generic_names_vec(generic_count);
    Ok(Schema::FromProxy(FromProxy { ident, generics, proxy: Box::new(proxy), is_try }))
}

fn parse_record(r: &mut Reader) -> (res: Result<Schema, Error>)
    requires
        old(r).wf(),
    ensures
        final(r).data@ == old(r).data@,
        final(r).wf(),
        match spec_read_record(old(r).data@, old(r).pos as int) {
            Ok((v, q)) => res matches Ok(x) && x@ == v && final(r).pos == q,
            Err(e) => res == Err::<Schema, Error>(e),
        },
{
    proof {
        reveal(spec_read_record);
    }
    let raw = match r.read_u8() {
        Ok(v) => v,
        Err(e) => return Err(e),
    };
    match Tag::from_u8(raw) {
        Some(Tag::Native) => match r.read_ident_str() {
            Ok(s) => Ok(Schema::Native(s)),
            Err(e) => Err(e),
        },
        Some(Tag::Primitive) => {
            let code = match r.read_u8() {
                Ok(v) => v,
                Err(e) => return Err(e),
            };
            match Scalar::from_u8(code) {
                Some(s) => Ok(Schema::Primitive(s)),
                None => Err(Error::InvalidScalar(code)),
            }
        },
        Some(Tag::Struct) => parse_struct(r),
        Some(Tag::Transparent) => parse_transparent(r),
        Some(Tag::Enum) => parse_enum(r),
        Some(Tag::IntoProxy) => parse_into_proxy(r),
        Some(Tag::FromProxy) => parse_from_proxy(r),
        _ => Err(Error::InvalidTag(raw)),
    }
}

/// One record of a section: the section from `p` is that record followed
/// by the section after it.
proof fn lemma_parse_from_step(d: Seq<u8>, p: int)
    requires
        0 <= p,
        rem(d, p) >= 4,
        rem(d, p + 4) >= le32(d, p),
        spec_read_record(d, p + 4) is Ok,
    ensures
        match spec_read_record(d, p + 4) {
            Ok((s, _)) => spec_parse_from(d, p) == prepend_all(
                seq![s],
                spec_parse_from(d, p + 4 + le32(d, p)),
            ),
            Err(_) => true,
        },
{
}

/// `acc` followed by what `r` parsed, or `r`'s error.
pub open spec fn prepend_all(acc: Seq<SchemaView>, r: Result<Seq<SchemaView>, Error>) -> Result<
    Seq<SchemaView>,
    Error,
> {
    match r {
        Ok(s) => Ok(acc + s),
        Err(e) => Err(e),
    }
}

/// Parses a `typewire_schemas` section into the list of schemas its
/// records hold, in order.
///
/// The section is a run of records, each a little-endian `u32` length
/// followed by that many bytes; fewer than four trailing bytes end it. A
/// record whose declared length exceeds what is left is a
/// `TruncatedRecord` error; a malformed record body is the error met
/// first while reading it.
#[verifier::rlimit(40)]
pub fn parse_section(data: &[u8]) -> (res: Result<Vec<Schema>, Error>)
    ensures
        match spec_parse_section(data@) {
            Ok(v) => res matches Ok(x) && schemas_view(x@) == v,
            Err(e) => res == Err::<Vec<Schema>, Error>(e),
        },
{
    let mut schemas: Vec<Schema> = Vec::new();
    let mut reader = Reader::new(data);
    while reader.remaining() >= 4
        invariant
            reader.data@ == data@,
            reader.wf(),
            spec_parse_section(data@) == prepend_all(
                schemas_view(schemas@),
                spec_parse_from(data@, reader.pos as int),
            ),
        decreases data@.len() - reader.pos,
    {
        let offset = reader.pos;
        let record_len = match reader.read_u32_le() {
            Ok(n) => n as usize,
            Err(e) => return Err(e),
        };
        if reader.remaining() < record_len {
            return Err(
                Error::TruncatedRecord {
                    offset,
                    declared: record_len,
                    remaining: reader.remaining(),
                },
            );
        }
        let dlen = reader.data.len();
        assert(record_len <= dlen - reader.pos);
        let record_end = reader.pos + record_len;
        let schema = match parse_record(&mut reader) {
            Ok(s) => s,
            Err(e) => return Err(e),
        };
        let ghost before = schemas@;
        schemas.push(schema);
        proof {
            lemma_parse_from_step(data@, offset as int);
            assert(schemas_view(schemas@) =~= schemas_view(before).push(schema@));
            match spec_parse_from(data@, record_end as int) {
                Ok(rest) => {
                    assert(schemas_view(before) + (seq![schema@] + rest) =~= schemas_view(
                        schemas@,
                    ) + rest);
                },
                Err(e) => {},
            }
        }
        reader.pos = record_end;
    }
    proof {
        assert(schemas_view(schemas@) + Seq::<SchemaView>::empty() =~= schemas_view(schemas@));
    }
    Ok(schemas)
}

} // verus!
