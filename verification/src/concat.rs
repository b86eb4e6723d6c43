//! Sections read back to back: what the reader finds in a section is what
//! it finds in the same bytes followed by others, so long as its look-ahead
//! cannot mistake the bytes that follow for part of a type reference.
//!
//! A type reference is read as a native name when the three bytes after its
//! first one are zero; at the end of a section those bytes can lie in what
//! follows. A following section whose first byte is not zero (its first
//! record's length is not a multiple of 256) leaves every read as it was.

use vstd::prelude::*;
use vstd::utf8::*;

use crate::coded::{Tag, tag_of_code};
use crate::decode::{
    Error, Step, le32, rem, spec_parse_from, spec_parse_section, spec_read_count, spec_read_enum,
    spec_read_field, spec_read_fields, spec_read_from_proxy, spec_read_into_proxy, spec_read_record,
    spec_read_str, spec_read_strs, spec_read_struct, spec_read_transparent, spec_read_ty,
    spec_read_tys, spec_read_u32, spec_read_u8, spec_read_variant, spec_read_variant_kind,
    spec_read_variants,
};
use crate::decode::prepend_all;
use crate::schema::SchemaView;
use crate::typescript::{lemma_lists_order_independent, named, names_identify, typescript};

verus! {

/// `d1` stands in `d2` from position `o` on, and the byte after it, if
/// any, is not zero.
pub open spec fn embeds(d1: Seq<u8>, d2: Seq<u8>, o: int) -> bool {
    &&& 0 <= o
    &&& o + d1.len() <= d2.len()
    &&& forall|k: int| 0 <= k < d1.len() ==> #[trigger] d2[o + k] == d1[k]
    &&& (o + d1.len() < d2.len() ==> d2[o + d1.len()] != 0)
}

/// A step's outcome with its position moved by `o`.
pub open spec fn shifted<T>(r: Step<T>, o: int) -> Step<T> {
    match r {
        Ok((v, q)) => Ok((v, q + o)),
        Err(e) => Err(e),
    }
}

proof fn lemma_u8(d1: Seq<u8>, d2: Seq<u8>, o: int, p: int)
    requires
        embeds(d1, d2, o),
        0 <= p,
    ensures
        spec_read_u8(d1, p) matches Ok((_, q)) ==> q >= p,
        spec_read_u8(d1, p) is Ok ==> spec_read_u8(d2, o + p) == shifted(spec_read_u8(d1, p), o),
{
    if spec_read_u8(d1, p) is Ok {
        assert(d2[o + p] == d1[p]);
    }
}

proof fn lemma_u32(d1: Seq<u8>, d2: Seq<u8>, o: int, p: int)
    requires
        embeds(d1, d2, o),
        0 <= p,
    ensures
        spec_read_u32(d1, p) matches Ok((_, q)) ==> q >= p,
        spec_read_u32(d1, p) is Ok ==> spec_read_u32(d2, o + p) == shifted(spec_read_u32(d1, p), o),
{
    if spec_read_u32(d1, p) is Ok {
        assert(d2[o + p] == d1[p]);
        assert(d2[o + (p + 1)] == d1[p + 1]);
        assert(d2[o + (p + 2)] == d1[p + 2]);
        assert(d2[o + (p + 3)] == d1[p + 3]);
        assert(le32(d2, o + p) == le32(d1, p));
    }
}

proof fn lemma_count(d1: Seq<u8>, d2: Seq<u8>, o: int, p: int)
    requires
        embeds(d1, d2, o),
        0 <= p,
    ensures
        spec_read_count(d1, p) matches Ok((_, q)) ==> q >= p,
        spec_read_count(d1, p) is Ok ==> spec_read_count(d2, o + p) == shifted(spec_read_count(d1, p), o),
{
    lemma_u32(d1, d2, o, p);
}

proof fn lemma_str(d1: Seq<u8>, d2: Seq<u8>, o: int, p: int)
    requires
        embeds(d1, d2, o),
        0 <= p,
    ensures
        spec_read_str(d1, p) matches Ok((_, q)) ==> q >= p,
        spec_read_str(d1, p) is Ok ==> spec_read_str(d2, o + p) == shifted(spec_read_str(d1, p), o),
{
    lemma_count(d1, d2, o, p);
    if spec_read_str(d1, p) is Ok {
        let (n, q) = spec_read_count(d1, p)->Ok_0;
        assert(d2.subrange(o + q, o + q + n) =~= d1.subrange(q, q + n)) by {
            assert forall|k: int| 0 <= k < n implies #[trigger] d2.subrange(o + q, o + q + n)[k]
                == d1.subrange(q, q + n)[k] by {
                assert(d2[o + (q + k)] == d1[q + k]);
            }
        }
    }
}

proof fn lemma_ty(d1: Seq<u8>, d2: Seq<u8>, o: int, p: int)
    requires
        embeds(d1, d2, o),
        0 <= p,
    ensures
        spec_read_ty(d1, p) matches Ok((_, q)) ==> q >= p,
        spec_read_ty(d1, p) is Ok ==> spec_read_ty(d2, o + p) == shifted(spec_read_ty(d1, p), o),
    decreases d1.len() - p, 0int,
{
    if spec_read_ty(d1, p) is Ok {
        assert(rem(d1, p) >= 2);
        assert(d2[o + p] == d1[p]);
        assert(d2[o + (p + 1)] == d1[p + 1]);
        let native1 = rem(d1, p) >= 4 && d1[p + 1] == 0 && d1[p + 2] == 0 && d1[p + 3] == 0;
        let native2 = rem(d2, o + p) >= 4 && d2[o + p + 1] == 0 && d2[o + p + 2] == 0 && d2[o + p + 3] == 0;
        if rem(d1, p) >= 4 {
            assert(d2[o + (p + 2)] == d1[p + 2]);
            assert(d2[o + (p + 3)] == d1[p + 3]);
        } else if rem(d1, p) == 3 {
            assert(d2[o + (p + 2)] == d1[p + 2]);
            if o + d1.len() < d2.len() {
                assert(o + p + 3 == o + d1.len());
            }
        } else {
            if o + d1.len() < d2.len() {
                assert(o + p + 2 == o + d1.len());
            }
        }
        assert(native1 == native2);
        if native1 {
            lemma_str(d1, d2, o, p);
        } else {
            let raw = d1[p];
            match tag_of_code(raw) {
                Some(Tag::Option) | Some(Tag::Box) | Some(Tag::Sequence) => {
                    lemma_ty(d1, d2, o, p + 1);
                },
                Some(Tag::Mapping) => {
                    lemma_ty(d1, d2, o, p + 1);
                    let (k, q) = spec_read_ty(d1, p + 1)->Ok_0;
                    lemma_ty(d1, d2, o, q);
                },
                Some(Tag::Struct) => {
                    lemma_tys(d1, d2, o, p + 2, d1[p + 1] as int);
                },
                _ => {},
            }
        }
    }
}

proof fn lemma_tys(d1: Seq<u8>, d2: Seq<u8>, o: int, p: int, n: int)
    requires
        embeds(d1, d2, o),
        0 <= p,
    ensures
        spec_read_tys(d1, p, n) matches Ok((_, q)) ==> q >= p,
        spec_read_tys(d1, p, n) is Ok ==> spec_read_tys(d2, o + p, n) == shifted(spec_read_tys(d1, p, n), o),
    decreases d1.len() - p, n,
{
    if n > 0 && spec_read_tys(d1, p, n) is Ok {
        lemma_ty(d1, d2, o, p);
        let (t, q) = spec_read_ty(d1, p)->Ok_0;
        lemma_tys(d1, d2, o, q, n - 1);
    }
}

proof fn lemma_strs(d1: Seq<u8>, d2: Seq<u8>, o: int, p: int, n: int)
    requires
        embeds(d1, d2, o),
        0 <= p,
    ensures
        spec_read_strs(d1, p, n) matches Ok((_, q)) ==> q >= p,
        spec_read_strs(d1, p, n) is Ok ==> spec_read_strs(d2, o + p, n) == shifted(spec_read_strs(d1, p, n), o),
    decreases n,
{
    if n > 0 && spec_read_strs(d1, p, n) is Ok {
        lemma_str(d1, d2, o, p);
        let (x, q) = spec_read_str(d1, p)->Ok_0;
        lemma_strs(d1, d2, o, q, n - 1);
    }
}

proof fn lemma_field(d1: Seq<u8>, d2: Seq<u8>, o: int, p: int)
    requires
        embeds(d1, d2, o),
        0 <= p,
    ensures
        spec_read_field(d1, p) matches Ok((_, q)) ==> q >= p,
        spec_read_field(d1, p) is Ok ==> spec_read_field(d2, o + p) == shifted(spec_read_field(d1, p), o),
{
    if spec_read_field(d1, p) is Ok {
        lemma_str(d1, d2, o, p);
        let (_, p1) = spec_read_str(d1, p)->Ok_0;
        lemma_ty(d1, d2, o, p1);
        let (_, p2) = spec_read_ty(d1, p1)->Ok_0;
        lemma_str(d1, d2, o, p2);
        let (_, p3) = spec_read_str(d1, p2)->Ok_0;
        lemma_u8(d1, d2, o, p3);
        let (_, p4) = spec_read_u8(d1, p3)->Ok_0;
        lemma_u8(d1, d2, o, p4);
        let (_, p5) = spec_read_u8(d1, p4)->Ok_0;
        lemma_count(d1, d2, o, p5);
        let (n, p6) = spec_read_count(d1, p5)->Ok_0;
        lemma_strs(d1, d2, o, p6, n);
    }
}

proof fn lemma_fields(d1: Seq<u8>, d2: Seq<u8>, o: int, p: int, n: int)
    requires
        embeds(d1, d2, o),
        0 <= p,
    ensures
        spec_read_fields(d1, p, n) matches Ok((_, q)) ==> q >= p,
        spec_read_fields(d1, p, n) is Ok ==> spec_read_fields(d2, o + p, n) == shifted(spec_read_fields(d1, p, n), o),
    decreases n,
{
    if n > 0 && spec_read_fields(d1, p, n) is Ok {
        lemma_field(d1, d2, o, p);
        let (x, q) = spec_read_field(d1, p)->Ok_0;
        lemma_fields(d1, d2, o, q, n - 1);
    }
}

proof fn lemma_variant_kind(d1: Seq<u8>, d2: Seq<u8>, o: int, p: int, kind: crate::coded::VariantKindTag, n: int)
    requires
        embeds(d1, d2, o),
        0 <= p,
    ensures
        spec_read_variant_kind(d1, p, kind, n) matches Ok((_, q)) ==> q >= p,
        spec_read_variant_kind(d1, p, kind, n) is Ok ==> spec_read_variant_kind(d2, o + p, kind, n) == shifted(spec_read_variant_kind(d1, p, kind, n), o),
{
    lemma_fields(d1, d2, o, p, n);
    lemma_tys(d1, d2, o, p, n);
}

#[verifier::spinoff_prover]
#[verifier::rlimit(100)]
proof fn lemma_variant(d1: Seq<u8>, d2: Seq<u8>, o: int, p: int)
    requires
        embeds(d1, d2, o),
        0 <= p,
    ensures
        spec_read_variant(d1, p) matches Ok((_, q)) ==> q >= p,
        spec_read_variant(d1, p) is Ok ==> spec_read_variant(d2, o + p) == shifted(spec_read_variant(d1, p), o),
{
    if spec_read_variant(d1, p) is Ok {
        lemma_str(d1, d2, o, p);
        let (_, p1) = spec_read_str(d1, p)->Ok_0;
        lemma_str(d1, d2, o, p1);
        let (_, p2) = spec_read_str(d1, p1)->Ok_0;
        lemma_u8(d1, d2, o, p2);
        let (_, p3) = spec_read_u8(d1, p2)->Ok_0;
        lemma_u8(d1, d2, o, p3);
        let (raw, p4) = spec_read_u8(d1, p3)->Ok_0;
        lemma_count(d1, d2, o, p4);
        let (n, p5) = spec_read_count(d1, p4)->Ok_0;
        let kind = crate::coded::variant_kind_tag_of_code(raw)->Some_0;
        lemma_variant_kind(d1, d2, o, p5, kind, n);
        let (_, p6) = spec_read_variant_kind(d1, p5, kind, n)->Ok_0;
        lemma_count(d1, d2, o, p6);
        let (m, p7) = spec_read_count(d1, p6)->Ok_0;
        lemma_strs(d1, d2, o, p7, m);
    }
}

proof fn lemma_variants(d1: Seq<u8>, d2: Seq<u8>, o: int, p: int, n: int)
    requires
        embeds(d1, d2, o),
        0 <= p,
    ensures
        spec_read_variants(d1, p, n) matches Ok((_, q)) ==> q >= p,
        spec_read_variants(d1, p, n) is Ok ==> spec_read_variants(d2, o + p, n) == shifted(spec_read_variants(d1, p, n), o),
    decreases n,
{
    if n > 0 && spec_read_variants(d1, p, n) is Ok {
        lemma_variant(d1, d2, o, p);
        let (x, q) = spec_read_variant(d1, p)->Ok_0;
        lemma_variants(d1, d2, o, q, n - 1);
    }
}

#[verifier::spinoff_prover]
#[verifier::rlimit(100)]
proof fn lemma_struct(d1: Seq<u8>, d2: Seq<u8>, o: int, p: int)
    requires
        embeds(d1, d2, o),
        0 <= p,
    ensures
        spec_read_struct(d1, p) matches Ok((_, q)) ==> q >= p,
        spec_read_struct(d1, p) is Ok ==> spec_read_struct(d2, o + p) == shifted(spec_read_struct(d1, p), o),
{
    if spec_read_struct(d1, p) is Ok {
        lemma_str(d1, d2, o, p);
        let (_, p1) = spec_read_str(d1, p)->Ok_0;
        lemma_u8(d1, d2, o, p1);
        let (_, p2) = spec_read_u8(d1, p1)->Ok_0;
        lemma_u8(d1, d2, o, p2);
        let (_, p3) = spec_read_u8(d1, p2)->Ok_0;
        lemma_u32(d1, d2, o, p3);
        let (_, p4) = spec_read_u32(d1, p3)->Ok_0;
        lemma_count(d1, d2, o, p4);
        let (n, p5) = spec_read_count(d1, p4)->Ok_0;
        lemma_fields(d1, d2, o, p5, n);
        lemma_tys(d1, d2, o, p5, n);
    }
}

proof fn lemma_transparent(d1: Seq<u8>, d2: Seq<u8>, o: int, p: int)
    requires
        embeds(d1, d2, o),
        0 <= p,
    ensures
        spec_read_transparent(d1, p) matches Ok((_, q)) ==> q >= p,
        spec_read_transparent(d1, p) is Ok ==> spec_read_transparent(d2, o + p) == shifted(spec_read_transparent(d1, p), o),
{
    if spec_read_transparent(d1, p) is Ok {
        lemma_str(d1, d2, o, p);
        let (_, p1) = spec_read_str(d1, p)->Ok_0;
        lemma_u8(d1, d2, o, p1);
        let (_, p2) = spec_read_u8(d1, p1)->Ok_0;
        lemma_ty(d1, d2, o, p2);
    }
}

#[verifier::spinoff_prover]
#[verifier::rlimit(100)]
proof fn lemma_enum(d1: Seq<u8>, d2: Seq<u8>, o: int, p: int)
    requires
        embeds(d1, d2, o),
        0 <= p,
    ensures
        spec_read_enum(d1, p) matches Ok((_, q)) ==> q >= p,
        spec_read_enum(d1, p) is Ok ==> spec_read_enum(d2, o + p) == shifted(spec_read_enum(d1, p), o),
{
    if spec_read_enum(d1, p) is Ok {
        lemma_str(d1, d2, o, p);
        let (_, p1) = spec_read_str(d1, p)->Ok_0;
        lemma_u8(d1, d2, o, p1);
        let (_, p2) = spec_read_u8(d1, p1)->Ok_0;
        lemma_u8(d1, d2, o, p2);
        let (_, p3) = spec_read_u8(d1, p2)->Ok_0;
        lemma_str(d1, d2, o, p3);
        let (_, p4) = spec_read_str(d1, p3)->Ok_0;
        lemma_str(d1, d2, o, p4);
        let (_, p5) = spec_read_str(d1, p4)->Ok_0;
        lemma_u32(d1, d2, o, p5);
        let (_, p6) = spec_read_u32(d1, p5)->Ok_0;
        lemma_count(d1, d2, o, p6);
        let (n, p7) = spec_read_count(d1, p6)->Ok_0;
        lemma_variants(d1, d2, o, p7, n);
    }
}

proof fn lemma_into_proxy(d1: Seq<u8>, d2: Seq<u8>, o: int, p: int)
    requires
        embeds(d1, d2, o),
        0 <= p,
    ensures
        spec_read_into_proxy(d1, p) matches Ok((_, q)) ==> q >= p,
        spec_read_into_proxy(d1, p) is Ok ==> spec_read_into_proxy(d2, o + p) == shifted(spec_read_into_proxy(d1, p), o),
{
    if spec_read_into_proxy(d1, p) is Ok {
        lemma_str(d1, d2, o, p);
        let (_, p1) = spec_read_str(d1, p)->Ok_0;
        lemma_u32(d1, d2, o, p1);
        let (_, p2) = spec_read_u32(d1, p1)->Ok_0;
        lemma_ty(d1, d2, o, p2);
    }
}

proof fn lemma_from_proxy(d1: Seq<u8>, d2: Seq<u8>, o: int, p: int)
    requires
        embeds(d1, d2, o),
        0 <= p,
    ensures
        spec_read_from_proxy(d1, p) matches Ok((_, q)) ==> q >= p,
        spec_read_from_proxy(d1, p) is Ok ==> spec_read_from_proxy(d2, o + p) == shifted(spec_read_from_proxy(d1, p), o),
{
    if spec_read_from_proxy(d1, p) is Ok {
        lemma_str(d1, d2, o, p);
        let (_, p1) = spec_read_str(d1, p)->Ok_0;
        lemma_u32(d1, d2, o, p1);
        let (_, p2) = spec_read_u32(d1, p1)->Ok_0;
        lemma_ty(d1, d2, o, p2);
        let (_, p3) = spec_read_ty(d1, p2)->Ok_0;
        lemma_u8(d1, d2, o, p3);
    }
}

#[verifier::spinoff_prover]
#[verifier::rlimit(100)]
proof fn lemma_record(d1: Seq<u8>, d2: Seq<u8>, o: int, p: int)
    requires
        embeds(d1, d2, o),
        0 <= p,
    ensures
        spec_read_record(d1, p) matches Ok((_, q)) ==> q >= p,
        spec_read_record(d1, p) is Ok ==> spec_read_record(d2, o + p) == shifted(spec_read_record(d1, p), o),
{
    reveal(spec_read_record);
    if spec_read_record(d1, p) is Ok {
        lemma_u8(d1, d2, o, p);
        assert(d2[o + p] == d1[p]);
        match tag_of_code(d1[p]) {
            Some(Tag::Native) => lemma_str(d1, d2, o, p + 1),
            Some(Tag::Primitive) => lemma_u8(d1, d2, o, p + 1),
            Some(Tag::Struct) => lemma_struct(d1, d2, o, p + 1),
            Some(Tag::Transparent) => lemma_transparent(d1, d2, o, p + 1),
            Some(Tag::Enum) => lemma_enum(d1, d2, o, p + 1),
            Some(Tag::IntoProxy) => lemma_into_proxy(d1, d2, o, p + 1),
            Some(Tag::FromProxy) => lemma_from_proxy(d1, d2, o, p + 1),
            _ => {},
        }
    }
}

/// The records from position `p` on fill the bytes exactly: each a `u32`
/// length and that many bytes, the last ending at the end.
pub open spec fn whole_records(d: Seq<u8>, p: int) -> bool
    decreases d.len() - p,
{
    if p >= d.len() {
        p == d.len()
    } else if rem(d, p) < 4 {
        false
    } else {
        le32(d, p) <= rem(d, p + 4) && whole_records(d, p + 4 + le32(d, p))
    }
}

/// Whole records read in a longer run of bytes give what they give alone,
/// followed by what is read after them.
proof fn lemma_parse_prefix(d1: Seq<u8>, d2: Seq<u8>, o: int, p: int)
    requires
        embeds(d1, d2, o),
        0 <= p,
        whole_records(d1, p),
        spec_parse_from(d1, p) is Ok,
    ensures
        spec_parse_from(d2, o + p) == prepend_all(
            spec_parse_from(d1, p)->Ok_0,
            spec_parse_from(d2, o + d1.len()),
        ),
    decreases d1.len() - p,
{
    if p >= d1.len() {
        assert(p == d1.len());
        assert(spec_parse_from(d1, p) == Ok::<Seq<SchemaView>, Error>(Seq::empty()));
        match spec_parse_from(d2, o + d1.len()) {
            Ok(s) => {
                assert(Seq::<SchemaView>::empty() + s =~= s);
            },
            Err(_) => {},
        }
    } else {
        let n = le32(d1, p);
        assert(d2[o + p] == d1[p]);
        assert(d2[o + (p + 1)] == d1[p + 1]);
        assert(d2[o + (p + 2)] == d1[p + 2]);
        assert(d2[o + (p + 3)] == d1[p + 3]);
        assert(le32(d2, o + p) == n);
        lemma_record(d1, d2, o, p + 4);
        let (x, _) = spec_read_record(d1, p + 4)->Ok_0;
        lemma_parse_prefix(d1, d2, o, p + 4 + n);
        let rest = spec_parse_from(d1, p + 4 + n)->Ok_0;
        match spec_parse_from(d2, o + d1.len()) {
            Ok(s) => {
                assert(seq![x] + (rest + s) =~= (seq![x] + rest) + s);
            },
            Err(_) => {},
        }
    }
}

/// Records at the end of a longer run of bytes give what they give alone.
proof fn lemma_parse_suffix(d1: Seq<u8>, d2: Seq<u8>, o: int, p: int)
    requires
        embeds(d1, d2, o),
        o + d1.len() == d2.len(),
        0 <= p,
        spec_parse_from(d1, p) is Ok,
    ensures
        spec_parse_from(d2, o + p) == spec_parse_from(d1, p),
    decreases d1.len() - p,
{
    if rem(d1, p) >= 4 {
        let n = le32(d1, p);
        assert(d2[o + p] == d1[p]);
        assert(d2[o + (p + 1)] == d1[p + 1]);
        assert(d2[o + (p + 2)] == d1[p + 2]);
        assert(d2[o + (p + 3)] == d1[p + 3]);
        assert(le32(d2, o + p) == n);
        lemma_record(d1, d2, o, p + 4);
        lemma_parse_suffix(d1, d2, o, p + 4 + n);
    }
}

/// Two sections back to back parse to the schemas of the first followed by
/// those of the second, when the first is a whole number of records and
/// the second is empty or starts with a byte that is not zero (so that
/// no type reference at the end of the first can read into it).
pub proof fn lemma_parse_concat(a: Seq<u8>, b: Seq<u8>)
    requires
        spec_parse_section(a) is Ok,
        spec_parse_section(b) is Ok,
        whole_records(a, 0),
        b.len() == 0 || b[0] != 0,
    ensures
        spec_parse_section(a + b) == Ok::<Seq<SchemaView>, Error>(
            spec_parse_section(a)->Ok_0 + spec_parse_section(b)->Ok_0,
        ),
{
    let d = a + b;
    assert(embeds(a, d, 0)) by {
        assert forall|k: int| 0 <= k < a.len() implies #[trigger] d[0 + k] == a[k] by {
            assert(d[k] == a[k]);
        }
        if a.len() < d.len() {
            assert(d[a.len() as int] == b[0]);
        }
    }
    assert(embeds(b, d, a.len() as int)) by {
        assert forall|k: int| 0 <= k < b.len() implies #[trigger] d[a.len() + k] == b[k] by {}
    }
    lemma_parse_prefix(a, d, 0, 0);
    lemma_parse_suffix(b, d, a.len() as int, 0);
}

/// The declarations of two sections do not depend on their order, when
/// each is a whole number of records, neither starts with a zero byte
/// unless it is empty, and the names of the definitions they hold identify
/// them.
pub proof fn lemma_sections_order_free(a: Seq<u8>, b: Seq<u8>)
    requires
        spec_parse_section(a) is Ok,
        spec_parse_section(b) is Ok,
        whole_records(a, 0),
        whole_records(b, 0),
        a.len() == 0 || a[0] != 0,
        b.len() == 0 || b[0] != 0,
        names_identify(named(spec_parse_section(a)->Ok_0 + spec_parse_section(b)->Ok_0).to_multiset()),
    ensures
        spec_parse_section(a + b) is Ok,
        spec_parse_section(b + a) is Ok,
        typescript(spec_parse_section(a + b)->Ok_0) == typescript(spec_parse_section(b + a)->Ok_0),
{
    lemma_parse_concat(a, b);
    lemma_parse_concat(b, a);
    lemma_lists_order_independent(spec_parse_section(a)->Ok_0, spec_parse_section(b)->Ok_0);
}

} // verus!
