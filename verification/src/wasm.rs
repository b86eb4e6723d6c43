//! The JavaScript conversions (`to_js`, `from_js`, `patch_js`) that the
//! derive writes for a type, the JavaScript helpers they call, and the
//! `wasm_bindgen` impls around them, as source text.
//!
//! Each generator returns the text of the code; the derive parses that text
//! into tokens. The text is stated exactly by a spec function over the
//! item's view, so what a generated conversion reads (which slot of the
//! destructured object, under which wire name, with which default) is fixed
//! by the item alone.
//!
//! The JavaScript side is reached through helper functions bound for each
//! type, named `__tw_<Type>_<role>`: `destruct` returns the fields of an
//! object in a JavaScript array (one slot per field that is not skipped
//! both ways, in field order), `dispatch` returns the index of the variant
//! an enum value holds (among the variants that can be read by tag),
//! `content` its payload, `construct` builds an object, and `set_<field>`
//! writes one property back.
//!
//! Each generator takes the item as the derive sees it (see
//! [`crate::item`]): a field's type is written as the item declares it
//! (`Wrapper<T>`, `BTreeMap<String, u32>`), and the impls are written over
//! the item's generics as an impl splits them: the parameters with their
//! bounds, the parameters alone, and the `where` clause.

use vstd::prelude::*;

use crate::item::{
    Enum, EnumView, Field, FieldView, FromBody, FromBodyView, FromProxy, GenericsView, IntoProxy,
    Item, ItemView, Struct, StructShape, StructShapeView, StructView, Transparent,
    TransparentView, TypeShape, TypeShapeView, Variant, VariantKind, VariantKindView,
    VariantView, enum_view, field_view, fields_view, from_body_view, generics_view, item_view,
    lemma_fields_view, lemma_variants_view, struct_view, transparent_view, type_shape_view,
    variant_view, variants_view,
};
use crate::schema::{
    FieldDefault, FieldDefaultView, Tagging, TaggingView, field_default_view, strings_view,
    tagging_view,
};
use crate::text::{decimal, decimal_string};

verus! {

/// The code generator for `wasm32` targets: the generators of this module
/// write its conversions.
#[derive(Clone, Copy, Debug, Default, PartialEq, Eq)]
pub struct WasmCodegen;

impl WasmCodegen {
    /// The `cfg` predicate under which the generated code is compiled.
    pub fn cfg_predicate() -> (r: &'static str)
        ensures
            r@ == "target_arch = \"wasm32\""@,
    {
        "target_arch = \"wasm32\""
    }
}

// ---------------------------------------------------------------------------
// Literals, numbers and types
// ---------------------------------------------------------------------------

/// A character as it stands inside a Rust string literal.
pub open spec fn escape_char(c: char) -> Seq<char> {
    if c == '\\' {
        "\\\\"@
    } else if c == '"' {
        "\\\""@
    } else if c == '\r' {
        "\\r"@
    } else {
        seq![c]
    }
}

/// The characters of a string as they stand inside a Rust string literal.
pub open spec fn escaped(s: Seq<char>) -> Seq<char>
    decreases s.len(),
{
    if s.len() == 0 {
        Seq::empty()
    } else {
        escaped(s.drop_last()) + escape_char(s.last())
    }
}

/// A Rust string literal holding `s`.
pub open spec fn lit(s: Seq<char>) -> Seq<char> {
    "\""@ + escaped(s) + "\""@
}

/// A `u32` literal for a slot index.
pub open spec fn idx_u32(n: nat) -> Seq<char> {
    decimal(n) + "u32"@
}

/// An `i32` literal for a variant index.
pub open spec fn idx_i32(n: nat) -> Seq<char> {
    decimal(n) + "i32"@
}

/// Appends a string as the inside of a Rust string literal.
fn push_escaped(out: &mut String, s: &str)
    ensures
        final(out)@ == old(out)@ + escaped(s@),
{
    let ghost start = out@;
    let n = s.unicode_len();
    assert(s@.take(0) =~= Seq::<char>::empty());
    let mut i: usize = 0;
    while i < n
        invariant
            n == s@.len(),
            i <= n,
            out@ == start + escaped(s@.take(i as int)),
        decreases n - i,
    {
        let c = s.get_char(i);
        let ghost before = out@;
        if c == '\\' {
            out.append("\\\\");
        } else if c == '"' {
            out.append("\\\"");
        } else if c == '\r' {
            out.append("\\r");
        } else {
            let one = s.substring_char(i, i + 1);
            assert(one@ =~= seq![c]);
            out.append(one);
        }
        assert(s@.take(i + 1).drop_last() =~= s@.take(i as int));
        assert(out@ =~= start + escaped(s@.take(i + 1)));
        i = i + 1;
    }
    assert(s@.take(n as int) =~= s@);
}

/// Appends a Rust string literal holding `s`.
fn push_lit(out: &mut String, s: &str)
    ensures
        final(out)@ == old(out)@ + lit(s@),
{
    let ghost start = out@;
    out.append("\"");
    push_escaped(out, s);
    out.append("\"");
    assert(out@ =~= start + lit(s@));
}

/// Appends the decimal digits of `n`.
fn push_decimal(out: &mut String, n: usize)
    ensures
        final(out)@ == old(out)@ + decimal(n as nat),
{
    let d = decimal_string(n as u64);
    out.append(d.as_str());
}

/// Appends a `u32` literal.
fn push_u32(out: &mut String, n: usize)
    ensures
        final(out)@ == old(out)@ + idx_u32(n as nat),
{
    let ghost start = out@;
    push_decimal(out, n);
    out.append("u32");
    assert(out@ =~= start + idx_u32(n as nat));
}

/// Appends an `i32` literal.
fn push_i32(out: &mut String, n: usize)
    ensures
        final(out)@ == old(out)@ + idx_i32(n as nat),
{
    let ghost start = out@;
    push_decimal(out, n);
    out.append("i32");
    assert(out@ =~= start + idx_i32(n as nat));
}



// ---------------------------------------------------------------------------
// Fields
// ---------------------------------------------------------------------------

/// Whether every bit of `mask` is set in `flags`.
pub open spec fn flag_set(flags: u8, mask: u8) -> bool {
    flags & mask == mask
}

/// A field skipped both in serialization and in deserialization: it has
/// no slot in the destructured object.
pub open spec fn both_skipped(flags: u8) -> bool {
    flag_set(flags, 1u8) && flag_set(flags, 2u8)
}

/// The expression giving a field's default value.
pub open spec fn default_text(d: FieldDefaultView) -> Seq<char> {
    match d {
        FieldDefaultView::Path(p) => p + "()"@,
        _ => "::core::default::Default::default()"@,
    }
}

/// The expression converting the field at `acc` (a reference) to a
/// JavaScript value: base64 text, display text, a byte array, or the
/// field type's own conversion.
pub open spec fn to_js_text(acc: Seq<char>, flags: u8) -> Seq<char> {
    if flag_set(flags, 8u8) {
        "::wasm_bindgen::JsValue::from_str(&::typewire::base64_encode("@ + acc + "))"@
    } else if flag_set(flags, 16u8) {
        "::wasm_bindgen::JsValue::from_str(&::std::string::ToString::to_string("@ + acc + "))"@
    } else if flag_set(flags, 32u8) {
        "::js_sys::Uint8Array::from(("@ + acc + ").as_slice()).into()"@
    } else {
        "::typewire::Typewire::to_js("@ + acc + ")"@
    }
}

/// The expression reading a field from the JavaScript value `v`; an error
/// carries the field's wire name as its context.
pub open spec fn from_js_text(f: FieldView) -> Seq<char> {
    let ctx = ".map_err(|e| e.in_context("@ + lit(f.wire_name) + "))?"@;
    if flag_set(f.flags, 8u8) {
        "(|| -> ::core::result::Result<_, ::typewire::Error> { let s = v.as_string().ok_or(::typewire::Error::UnexpectedType { expected: \"string\" })?; ::typewire::base64_decode(&s).map_err(|e| ::typewire::Error::InvalidValue { message: e.to_string() }) })()"@ + ctx
    } else if flag_set(f.flags, 16u8) {
        "(|| -> ::core::result::Result<_, ::typewire::Error> { let s = v.as_string().ok_or(::typewire::Error::UnexpectedType { expected: \"string\" })?; s.parse::<"@
            + f.ty
            + ">().map_err(|e| ::typewire::Error::InvalidValue { message: ::std::string::ToString::to_string(&e) }) })()"@ + ctx
    } else if flag_set(f.flags, 32u8) {
        "(|| -> ::core::result::Result<_, ::typewire::Error> { use ::wasm_bindgen::JsCast as _; if let Some(arr) = v.dyn_ref::<::js_sys::Uint8Array>() { Ok(arr.to_vec()) } else if let Some(arr) = v.dyn_ref::<::js_sys::Uint8ClampedArray>() { Ok(arr.to_vec()) } else { Err(::typewire::Error::UnexpectedType { expected: \"Uint8Array or Uint8ClampedArray\" }) } })()"@ + ctx
    } else if flag_set(f.flags, 64u8) {
        "<"@ + f.ty + " as ::typewire::Typewire>::from_js_lenient(v, "@ + lit(f.wire_name)
            + ")"@ + ctx
    } else {
        "<"@ + f.ty + " as ::typewire::Typewire>::from_js(v)"@ + ctx
    }
}

/// Appends a field's default value expression.
fn push_default(out: &mut String, d: &FieldDefault)
    ensures
        final(out)@ == old(out)@ + default_text(field_default_view(*d)),
{
    let ghost start = out@;
    match d {
        FieldDefault::Path(p) => {
            out.append(p.as_str());
            out.append("()");
        },
        _ => out.append("::core::default::Default::default()"),
    }
    assert(out@ =~= start + default_text(field_default_view(*d)));
}

/// Appends the conversion of the field at `acc` to a JavaScript value.
fn push_to_js(out: &mut String, acc: &str, f: &Field)
    ensures
        final(out)@ == old(out)@ + to_js_text(acc@, f.flags.bits),
{
    let ghost start = out@;
    if f.flags.contains(crate::flags::FieldFlags::BASE64) {
        out.append("::wasm_bindgen::JsValue::from_str(&::typewire::base64_encode(");
        out.append(acc);
        out.append("))");
    } else if f.flags.contains(crate::flags::FieldFlags::DISPLAY) {
        out.append("::wasm_bindgen::JsValue::from_str(&::std::string::ToString::to_string(");
        out.append(acc);
        out.append("))");
    } else if f.flags.contains(crate::flags::FieldFlags::SERDE_BYTES) {
        out.append("::js_sys::Uint8Array::from((");
        out.append(acc);
        out.append(").as_slice()).into()");
    } else {
        out.append("::typewire::Typewire::to_js(");
        out.append(acc);
        out.append(")");
    }
    assert(out@ =~= start + to_js_text(acc@, f.flags.bits));
}

/// Appends the expression reading a field from `v`.
#[verifier::spinoff_prover]
#[verifier::rlimit(80)]
fn push_from_js(out: &mut String, f: &Field)
    ensures
        final(out)@ == old(out)@ + from_js_text(field_view(*f)),
{
    let ghost start = out@;
    let ghost fv = field_view(*f);
    if f.flags.contains(crate::flags::FieldFlags::BASE64) {
        out.append("(|| -> ::core::result::Result<_, ::typewire::Error> { let s = v.as_string().ok_or(::typewire::Error::UnexpectedType { expected: \"string\" })?; ::typewire::base64_decode(&s).map_err(|e| ::typewire::Error::InvalidValue { message: e.to_string() }) })()");
    } else if f.flags.contains(crate::flags::FieldFlags::DISPLAY) {
        out.append("(|| -> ::core::result::Result<_, ::typewire::Error> { let s = v.as_string().ok_or(::typewire::Error::UnexpectedType { expected: \"string\" })?; s.parse::<");
        out.append(f.ty.as_str());
        out.append(">().map_err(|e| ::typewire::Error::InvalidValue { message: ::std::string::ToString::to_string(&e) }) })()");
    } else if f.flags.contains(crate::flags::FieldFlags::SERDE_BYTES) {
        out.append("(|| -> ::core::result::Result<_, ::typewire::Error> { use ::wasm_bindgen::JsCast as _; if let Some(arr) = v.dyn_ref::<::js_sys::Uint8Array>() { Ok(arr.to_vec()) } else if let Some(arr) = v.dyn_ref::<::js_sys::Uint8ClampedArray>() { Ok(arr.to_vec()) } else { Err(::typewire::Error::UnexpectedType { expected: \"Uint8Array or Uint8ClampedArray\" }) } })()");
    } else if f.flags.contains(crate::flags::FieldFlags::LENIENT) {
        out.append("<");
        out.append(f.ty.as_str());
        out.append(" as ::typewire::Typewire>::from_js_lenient(v, ");
        push_lit(out, f.wire_name.as_str());
        out.append(")");
    } else {
        out.append("<");
        out.append(f.ty.as_str());
        out.append(" as ::typewire::Typewire>::from_js(v)");
    }
    out.append(".map_err(|e| e.in_context(");
    push_lit(out, f.wire_name.as_str());
    out.append("))?");
    assert(out@ =~= start + from_js_text(fv));
}


// ---------------------------------------------------------------------------
// Reading named fields from a destructured object
// ---------------------------------------------------------------------------

/// The number of slots the fields take in the destructured object: one
/// for each field that is not skipped both ways.
pub open spec fn slots(fs: Seq<FieldView>) -> nat
    decreases fs.len(),
{
    if fs.len() == 0 {
        0
    } else {
        slots(fs.drop_last()) + if both_skipped(fs.last().flags) {
            0nat
        } else {
            1nat
        }
    }
}

/// The binding of one field read from slot `idx` of `__arr`:
/// - a field skipped in deserialization gets its default;
/// - a flattened field reads the whole slot with its type's conversion,
///   under its Rust name as context;
/// - a field with a default reads the slot unless it is `undefined` or
///   `null`, and takes the default otherwise;
/// - any other field reads the slot unless it is `undefined`, and then
///   takes its type's default if it has one, or fails with `MissingField`
///   and its wire name.
pub open spec fn destruct_binding(f: FieldView, idx: nat) -> Seq<char> {
    let head = "let "@ + f.ident + " = "@;
    if flag_set(f.flags, 2u8) {
        head + default_text(f.default) + ";\n"@
    } else if flag_set(f.flags, 4u8) {
        head + "<"@ + f.ty + " as ::typewire::Typewire>::from_js(__arr.get("@ + idx_u32(idx)
            + ")).map_err(|e| e.in_context("@ + lit(f.ident) + "))?;\n"@
    } else if !(f.default is NoDefault) {
        head + "{ let v = __arr.get("@ + idx_u32(idx)
            + "); if !v.is_undefined() && !v.is_null() { "@ + from_js_text(f) + " } else { "@
            + default_text(f.default) + " } };\n"@
    } else {
        head + "{ let v = __arr.get("@ + idx_u32(idx) + "); if !v.is_undefined() { "@
            + from_js_text(f) + " } else { match <"@ + f.ty
            + " as ::typewire::Typewire>::or_default() { Some(d) => d, None => return Err(::typewire::Error::MissingField { field: "@
            + lit(f.wire_name) + " }), } } };\n"@
    }
}

/// The bindings of the fields, each reading the next slot.
pub open spec fn destruct_bindings(fs: Seq<FieldView>) -> Seq<char>
    decreases fs.len(),
{
    if fs.len() == 0 {
        Seq::empty()
    } else {
        destruct_bindings(fs.drop_last()) + destruct_binding(fs.last(), slots(fs.drop_last()))
    }
}

/// The field names of a struct literal, each followed by `, `.
pub open spec fn field_names(fs: Seq<FieldView>) -> Seq<char>
    decreases fs.len(),
{
    if fs.len() == 0 {
        Seq::empty()
    } else {
        field_names(fs.drop_last()) + fs.last().ident + ", "@
    }
}

/// Appends the binding of one field read from slot `idx`.
#[verifier::spinoff_prover]
#[verifier::rlimit(80)]
fn push_destruct_binding(out: &mut String, f: &Field, idx: usize)
    ensures
        final(out)@ == old(out)@ + destruct_binding(field_view(*f), idx as nat),
{
    let ghost start = out@;
    let ghost fv = field_view(*f);
    out.append("let ");
    out.append(f.ident.as_str());
    out.append(" = ");
    if f.flags.contains(crate::flags::FieldFlags::SKIP_DE) {
        push_default(out, &f.default);
        out.append(";\n");
    } else if f.flags.contains(crate::flags::FieldFlags::FLATTEN) {
        out.append("<");
        out.append(f.ty.as_str());
        out.append(" as ::typewire::Typewire>::from_js(__arr.get(");
        push_u32(out, idx);
        out.append(")).map_err(|e| e.in_context(");
        push_lit(out, f.ident.as_str());
        out.append("))?;\n");
    } else {
        match &f.default {
            FieldDefault::NoDefault => {
                out.append("{ let v = __arr.get(");
                push_u32(out, idx);
                out.append("); if !v.is_undefined() { ");
                push_from_js(out, f);
                out.append(" } else { match <");
                out.append(f.ty.as_str());
                out.append(" as ::typewire::Typewire>::or_default() { Some(d) => d, None => return Err(::typewire::Error::MissingField { field: ");
                push_lit(out, f.wire_name.as_str());
                out.append(" }), } } };\n");
            },
            _ => {
                out.append("{ let v = __arr.get(");
                push_u32(out, idx);
                out.append("); if !v.is_undefined() && !v.is_null() { ");
                push_from_js(out, f);
                out.append(" } else { ");
                push_default(out, &f.default);
                out.append(" } };\n");
            },
        }
    }
    assert(out@ =~= start + destruct_binding(fv, idx as nat));
}

/// Appends the bindings of the fields read from `__arr`.
fn push_destruct_bindings(out: &mut String, fields: &Vec<Field>)
    ensures
        final(out)@ == old(out)@ + destruct_bindings(fields_view(fields@)),
{
    let ghost fv = fields_view(fields@);
    let ghost start = out@;
    proof {
        lemma_fields_view(fields@);
    }
    assert(fv.take(0) =~= Seq::<FieldView>::empty());
    let mut i: usize = 0;
    let mut idx: usize = 0;
    while i < fields.len()
        invariant
            i <= fields@.len(),
            idx <= i,
            fv.len() == fields@.len(),
            forall|j: int| 0 <= j < fv.len() ==> #[trigger] fv[j] == field_view(fields@[j]),
            out@ == start + destruct_bindings(fv.take(i as int)),
            idx == slots(fv.take(i as int)),
        decreases fields@.len() - i,
    {
        let f = &fields[i];
        push_destruct_binding(out, f, idx);
        assert(fv.take(i + 1).drop_last() =~= fv.take(i as int));
        if !(f.flags.contains(crate::flags::FieldFlags::SKIP_SER) && f.flags.contains(
            crate::flags::FieldFlags::SKIP_DE,
        )) {
            idx = idx + 1;
        }
        i = i + 1;
    }
    assert(fv.take(fields@.len() as int) =~= fv);
}

/// Appends the field names of a struct literal.
fn push_field_names(out: &mut String, fields: &Vec<Field>)
    ensures
        final(out)@ == old(out)@ + field_names(fields_view(fields@)),
{
    let ghost fv = fields_view(fields@);
    let ghost start = out@;
    proof {
        lemma_fields_view(fields@);
    }
    assert(fv.take(0) =~= Seq::<FieldView>::empty());
    let mut i: usize = 0;
    while i < fields.len()
        invariant
            i <= fields@.len(),
            fv.len() == fields@.len(),
            forall|j: int| 0 <= j < fv.len() ==> #[trigger] fv[j] == field_view(fields@[j]),
            out@ == start + field_names(fv.take(i as int)),
        decreases fields@.len() - i,
    {
        out.append(fields[i].ident.as_str());
        out.append(", ");
        assert(fv.take(i + 1).drop_last() =~= fv.take(i as int));
        assert(out@ =~= start + field_names(fv.take(i + 1)));
        i = i + 1;
    }
    assert(fv.take(fields@.len() as int) =~= fv);
}


// ---------------------------------------------------------------------------
// Struct `from_js`
// ---------------------------------------------------------------------------

/// `prefix0, prefix1, ...` for `n` numbered names, each followed by `, `.
pub open spec fn numbered(prefix: Seq<char>, n: nat) -> Seq<char>
    decreases n,
{
    if n == 0 {
        Seq::empty()
    } else {
        numbered(prefix, (n - 1) as nat) + prefix + decimal((n - 1) as nat) + ", "@
    }
}

/// The bindings `<var><i>` of positional elements read from the array
/// named `arr`, each by its type's conversion.
pub open spec fn elem_bindings(var: Seq<char>, arr: Seq<char>, ts: Seq<Seq<char>>) -> Seq<char>
    decreases ts.len(),
{
    if ts.len() == 0 {
        Seq::empty()
    } else {
        let i = (ts.len() - 1) as nat;
        elem_bindings(var, arr, ts.drop_last()) + "let "@ + var + decimal(i) + " = <"@ + ts.last() + " as ::typewire::Typewire>::from_js("@ + arr + ".get("@ + idx_u32(i) + "))?;\n"@
    }
}

/// The check that an object holds no key but the struct's wire names.
pub open spec fn deny_check_text(st: StructView) -> Seq<char> {
    if flag_set(st.flags, 4u8) {
        "if let Some(__unknown) = __tw_"@ + st.ident
            + "_check_keys(&value).as_string() { return Err(::typewire::Error::InvalidValue { message: ::std::format!(\"unknown field `{__unknown}`\") }); }\n"@
    } else {
        Seq::empty()
    }
}

/// The body of a struct's `from_js`, reading `value`:
/// - named fields: the object is destructured into `__arr`, unknown keys
///   are refused under `deny_unknown_fields`, each field is bound from
///   its slot, and the struct is built from the bindings;
/// - positional fields: `value` must be an array, read element by element;
/// - a unit struct needs nothing.
pub open spec fn struct_from_js_text(st: StructView) -> Seq<char> {
    match st.shape {
        StructShapeView::Named(fs) => "let __arr = __tw_"@ + st.ident + "_destruct(&value);\n"@
            + deny_check_text(st) + destruct_bindings(fs) + "Ok("@ + st.ident + " { "@
            + field_names(fs) + "})\n"@,
        StructShapeView::Tuple(ts) => "let arr: ::js_sys::Array = value.try_into().map_err(|_| ::typewire::Error::UnexpectedType { expected: \"array\" })?;\n"@
            + elem_bindings("__field"@, "arr"@, ts) + "Ok("@ + st.ident + "("@ + numbered("__field"@, ts.len())
            + "))\n"@,
        StructShapeView::Unit => "Ok("@ + st.ident + ")\n"@,
    }
}

/// Appends `prefix0, prefix1, ...` for `n` names.
fn push_numbered(out: &mut String, prefix: &str, n: usize)
    ensures
        final(out)@ == old(out)@ + numbered(prefix@, n as nat),
{
    let ghost start = out@;
    let mut i: usize = 0;
    while i < n
        invariant
            i <= n,
            out@ == start + numbered(prefix@, i as nat),
        decreases n - i,
    {
        out.append(prefix);
        push_decimal(out, i);
        out.append(", ");
        assert(out@ =~= start + numbered(prefix@, (i + 1) as nat));
        i = i + 1;
    }
}

/// Appends the bindings of positional elements read from the array `arr`.
fn push_elem_bindings(out: &mut String, var: &str, arr: &str, ts: &Vec<String>)
    ensures
        final(out)@ == old(out)@ + elem_bindings(var@, arr@, strings_view(ts@)),
{
    let ghost tv = strings_view(ts@);
    let ghost start = out@;
    assert(tv.take(0) =~= Seq::<Seq<char>>::empty());
    let mut i: usize = 0;
    while i < ts.len()
        invariant
            i <= ts@.len(),
            tv.len() == ts@.len(),
            forall|j: int| 0 <= j < ts@.len() ==> #[trigger] tv[j] == ts@[j]@,
            out@ == start + elem_bindings(var@, arr@, tv.take(i as int)),
        decreases ts@.len() - i,
    {
        out.append("let ");
        out.append(var);
        push_decimal(out, i);
        out.append(" = <");
        out.append(ts[i].as_str());
        out.append(" as ::typewire::Typewire>::from_js(");
        out.append(arr);
        out.append(".get(");
        push_u32(out, i);
        out.append("))?;\n");
        assert(tv.take(i + 1).drop_last() =~= tv.take(i as int));
        assert(out@ =~= start + elem_bindings(var@, arr@, tv.take(i + 1)));
        i = i + 1;
    }
    assert(tv.take(ts@.len() as int) =~= tv);
}

/// The body of a struct's `from_js` (see [`struct_from_js_text`]).
#[verifier::spinoff_prover]
#[verifier::rlimit(80)]
pub fn struct_from_js_body(s: &Struct) -> (r: String)
    ensures
        r@ == struct_from_js_text(struct_view(*s)),
{
    let ghost sv = struct_view(*s);
    let mut out = String::new();
    match &s.shape {
        StructShape::Named(fields) => {
            out.append("let __arr = __tw_");
            out.append(s.ident.as_str());
            out.append("_destruct(&value);\n");
            if s.flags.contains(crate::flags::StructFlags::DENY_UNKNOWN_FIELDS) {
                out.append("if let Some(__unknown) = __tw_");
                out.append(s.ident.as_str());
                out.append("_check_keys(&value).as_string() { return Err(::typewire::Error::InvalidValue { message: ::std::format!(\"unknown field `{__unknown}`\") }); }\n");
            }
            let ghost mid = out@;
            push_destruct_bindings(&mut out, fields);
            out.append("Ok(");
            out.append(s.ident.as_str());
            out.append(" { ");
            push_field_names(&mut out, fields);
            out.append("})\n");
            assert(mid =~= "let __arr = __tw_"@ + sv.ident + "_destruct(&value);\n"@
                + deny_check_text(sv));
        },
        StructShape::Tuple(ts) => {
            out.append("let arr: ::js_sys::Array = value.try_into().map_err(|_| ::typewire::Error::UnexpectedType { expected: \"array\" })?;\n");
            push_elem_bindings(&mut out, "__field", "arr", ts);
            out.append("Ok(");
            out.append(s.ident.as_str());
            out.append("(");
            push_numbered(&mut out, "__field", ts.len());
            out.append("))\n");
        },
        StructShape::Unit => {
            out.append("Ok(");
            out.append(s.ident.as_str());
            out.append(")\n");
        },
    }
    assert(out@ =~= struct_from_js_text(sv));
    out
}


// ---------------------------------------------------------------------------
// Struct `patch_js`
// ---------------------------------------------------------------------------

/// The header of a `patch_js` method whose setter is `set_name`, with the
/// old value as `old_name`.
pub open spec fn patch_header(old_name: Seq<char>, set_name: Seq<char>) -> Seq<char> {
    "fn patch_js(&self, "@ + old_name + ": &::wasm_bindgen::JsValue, "@ + set_name
        + ": impl FnOnce(::wasm_bindgen::JsValue)) {\n"@
}

/// Where the patches of named fields act: the prefix of each field's
/// setter helper (the field's name follows), the prefix of each field's
/// access (likewise), the destructured array holding the old values, and
/// the JavaScript object the setters write to.
pub struct PatchSite {
    pub setter: Seq<char>,
    pub access: Seq<char>,
    pub arr: Seq<char>,
    pub target: Seq<char>,
}

/// The site of a struct's fields: `&self.<field>`, old values in `__arr`,
/// written to `old` by `__tw_<Type>_set_<field>`.
pub open spec fn struct_site(ty_name: Seq<char>) -> PatchSite {
    PatchSite {
        setter: "__tw_"@ + ty_name + "_set_"@,
        access: "&self."@,
        arr: "__arr"@,
        target: "old"@,
    }
}

/// The patch of one named field held in slot `idx` of the site's array:
/// - a flattened field patches the slot in place;
/// - a field converted through base64, display or bytes is written back
///   with its setter when its new JavaScript value differs from the old;
/// - any other field is patched by its type, writing back through the
///   field's setter.
pub open spec fn field_patch(site: PatchSite, f: FieldView, idx: nat) -> Seq<char> {
    let acc = site.access + f.ident;
    let setter = site.setter + f.ident;
    let slot = site.arr + ".get("@ + idx_u32(idx) + ")"@;
    if flag_set(f.flags, 4u8) {
        "::typewire::Typewire::patch_js("@ + acc + ", &"@ + slot + ", |_| {});\n"@
    } else if f.flags & 56u8 != 0 {
        "{ let __old_v = "@ + slot + "; let __new_v = "@ + to_js_text(acc, f.flags)
            + "; if __old_v != __new_v { "@ + setter + "("@ + site.target + ", __new_v); } }\n"@
    } else {
        "::typewire::Typewire::patch_js("@ + acc + ", &"@ + slot + ", |v| "@ + setter + "("@
            + site.target + ", v));\n"@
    }
}

/// The patches of the named fields; a field skipped both ways has none.
pub open spec fn field_patches(site: PatchSite, fs: Seq<FieldView>) -> Seq<char>
    decreases fs.len(),
{
    if fs.len() == 0 {
        Seq::empty()
    } else {
        field_patches(site, fs.drop_last()) + if both_skipped(fs.last().flags) {
            Seq::empty()
        } else {
            field_patch(site, fs.last(), slots(fs.drop_last()))
        }
    }
}

/// The patches `self.<i>.patch_js(..)` of positional fields, each writing
/// back into its element of `__arr`.
pub open spec fn tuple_patches(n: nat) -> Seq<char>
    decreases n,
{
    if n == 0 {
        Seq::empty()
    } else {
        let i = (n - 1) as nat;
        tuple_patches(i) + "self."@ + decimal(i) + ".patch_js(&__arr.get("@ + idx_u32(i)
            + "), |v| __arr.set("@ + idx_u32(i) + ", v));\n"@
    }
}

/// A struct's `patch_js` method, which updates the JavaScript value `old`
/// in place where it can:
/// - an atomic struct is written whole when it differs from what `old`
///   reads as;
/// - named fields: a missing `old` is replaced whole; otherwise each field
///   that has a slot is patched from it;
/// - positional fields: an `old` that is not an array is replaced whole;
///   otherwise each element is patched;
/// - a unit struct has nothing to patch.
pub open spec fn struct_patch_js_text(st: StructView) -> Seq<char> {
    if flag_set(st.flags, 1u8) {
        patch_header("old"@, "set"@)
            + "match Self::from_js(old.clone()) { Ok(ref old_val) if self == old_val => {} _ => set(self.to_js()), }\n}\n"@
    } else {
        match st.shape {
            StructShapeView::Named(fs) => patch_header("old"@, "_set"@)
                + "if old.is_undefined() || old.is_null() { _set(self.to_js()); return; }\nlet __arr = __tw_"@
                + st.ident + "_destruct(old);\n"@ + field_patches(struct_site(st.ident), fs) + "}\n"@,
            StructShapeView::Tuple(ts) => patch_header("old"@, "_set"@)
                + "use ::wasm_bindgen::JsCast as _;\nlet Some(__arr) = old.dyn_ref::<::js_sys::Array>() else { _set(self.to_js()); return; };\n"@
                + tuple_patches(ts.len()) + "}\n"@,
            StructShapeView::Unit => patch_header("_old"@, "_set"@) + "}\n"@,
        }
    }
}

/// Appends the header of a `patch_js` method.
fn push_patch_header(out: &mut String, old_name: &str, set_name: &str)
    ensures
        final(out)@ == old(out)@ + patch_header(old_name@, set_name@),
{
    let ghost start = out@;
    out.append("fn patch_js(&self, ");
    out.append(old_name);
    out.append(": &::wasm_bindgen::JsValue, ");
    out.append(set_name);
    out.append(": impl FnOnce(::wasm_bindgen::JsValue)) {\n");
    assert(out@ =~= start + patch_header(old_name@, set_name@));
}

/// Appends the patch of one named field held in slot `idx`; the site is
/// given by its setter prefix, access prefix, array and target.
#[verifier::spinoff_prover]
#[verifier::rlimit(80)]
fn push_field_patch(
    out: &mut String,
    setter: &str,
    access: &str,
    arr: &str,
    target: &str,
    f: &Field,
    idx: usize,
)
    ensures
        final(out)@ == old(out)@ + field_patch(
            PatchSite { setter: setter@, access: access@, arr: arr@, target: target@ },
            field_view(*f),
            idx as nat,
        ),
{
    let ghost start = out@;
    let ghost fv = field_view(*f);
    let ghost site = PatchSite { setter: setter@, access: access@, arr: arr@, target: target@ };
    let mut acc = String::from_str(access);
    acc.append(f.ident.as_str());
    let mut slot = String::from_str(arr);
    slot.append(".get(");
    push_u32(&mut slot, idx);
    slot.append(")");
    let special: u8 = crate::flags::FieldFlags::BASE64 | crate::flags::FieldFlags::DISPLAY
        | crate::flags::FieldFlags::SERDE_BYTES;
    assert(special == 56u8) by (bit_vector)
        requires
            special == (8u8 | 16u8 | 32u8),
    ;
    if f.flags.contains(crate::flags::FieldFlags::FLATTEN) {
        out.append("::typewire::Typewire::patch_js(");
        out.append(acc.as_str());
        out.append(", &");
        out.append(slot.as_str());
        out.append(", |_| {});\n");
    } else if f.flags.intersects(special) {
        out.append("{ let __old_v = ");
        out.append(slot.as_str());
        out.append("; let __new_v = ");
        push_to_js(out, acc.as_str(), f);
        out.append("; if __old_v != __new_v { ");
        out.append(setter);
        out.append(f.ident.as_str());
        out.append("(");
        out.append(target);
        out.append(", __new_v); } }\n");
    } else {
        out.append("::typewire::Typewire::patch_js(");
        out.append(acc.as_str());
        out.append(", &");
        out.append(slot.as_str());
        out.append(", |v| ");
        out.append(setter);
        out.append(f.ident.as_str());
        out.append("(");
        out.append(target);
        out.append(", v));\n");
    }
    assert(out@ =~= start + field_patch(site, fv, idx as nat));
}

/// Appends the patches of the named fields at a site.
fn push_field_patches(
    out: &mut String,
    setter: &str,
    access: &str,
    arr: &str,
    target: &str,
    fields: &Vec<Field>,
)
    ensures
        final(out)@ == old(out)@ + field_patches(
            PatchSite { setter: setter@, access: access@, arr: arr@, target: target@ },
            fields_view(fields@),
        ),
{
    let ghost site = PatchSite { setter: setter@, access: access@, arr: arr@, target: target@ };
    let ghost fv = fields_view(fields@);
    let ghost start = out@;
    proof {
        lemma_fields_view(fields@);
    }
    assert(fv.take(0) =~= Seq::<FieldView>::empty());
    let mut i: usize = 0;
    let mut idx: usize = 0;
    while i < fields.len()
        invariant
            i <= fields@.len(),
            idx <= i,
            site == (PatchSite { setter: setter@, access: access@, arr: arr@, target: target@ }),
            fv.len() == fields@.len(),
            forall|j: int| 0 <= j < fv.len() ==> #[trigger] fv[j] == field_view(fields@[j]),
            out@ == start + field_patches(site, fv.take(i as int)),
            idx == slots(fv.take(i as int)),
        decreases fields@.len() - i,
    {
        let f = &fields[i];
        assert(fv.take(i + 1).drop_last() =~= fv.take(i as int));
        if !(f.flags.contains(crate::flags::FieldFlags::SKIP_SER) && f.flags.contains(
            crate::flags::FieldFlags::SKIP_DE,
        )) {
            push_field_patch(out, setter, access, arr, target, f, idx);
            idx = idx + 1;
        } else {
            assert(out@ =~= start + field_patches(site, fv.take(i + 1)));
        }
        i = i + 1;
    }
    assert(fv.take(fields@.len() as int) =~= fv);
}

/// A struct's `patch_js` method (see [`struct_patch_js_text`]).
#[verifier::spinoff_prover]
#[verifier::rlimit(80)]
pub fn struct_patch_js_fn(s: &Struct) -> (r: String)
    ensures
        r@ == struct_patch_js_text(struct_view(*s)),
{
    let ghost sv = struct_view(*s);
    let mut out = String::new();
    if s.flags.contains(crate::flags::StructFlags::ATOMIC) {
        push_patch_header(&mut out, "old", "set");
        out.append("match Self::from_js(old.clone()) { Ok(ref old_val) if self == old_val => {} _ => set(self.to_js()), }\n}\n");
        assert(out@ =~= struct_patch_js_text(sv));
        return out;
    }
    match &s.shape {
        StructShape::Named(fields) => {
            push_patch_header(&mut out, "old", "_set");
            out.append("if old.is_undefined() || old.is_null() { _set(self.to_js()); return; }\nlet __arr = __tw_");
            out.append(s.ident.as_str());
            out.append("_destruct(old);\n");
            let mut setter = String::from_str("__tw_");
            setter.append(s.ident.as_str());
            setter.append("_set_");
            push_field_patches(&mut out, setter.as_str(), "&self.", "__arr", "old", fields);
            proof {
                reveal_strlit("__tw_");
                reveal_strlit("_set_");
            }
            assert(setter@ =~= "__tw_"@ + sv.ident + "_set_"@);
            out.append("}\n");
        },
        StructShape::Tuple(ts) => {
            push_patch_header(&mut out, "old", "_set");
            out.append("use ::wasm_bindgen::JsCast as _;\nlet Some(__arr) = old.dyn_ref::<::js_sys::Array>() else { _set(self.to_js()); return; };\n");
            let ghost mid = out@;
            let n = ts.len();
            let mut i: usize = 0;
            while i < n
                invariant
                    i <= n,
                    out@ == mid + tuple_patches(i as nat),
                decreases n - i,
            {
                out.append("self.");
                push_decimal(&mut out, i);
                out.append(".patch_js(&__arr.get(");
                push_u32(&mut out, i);
                out.append("), |v| __arr.set(");
                push_u32(&mut out, i);
                out.append(", v));\n");
                assert(out@ =~= mid + tuple_patches((i + 1) as nat));
                i = i + 1;
            }
            out.append("}\n");
        },
        StructShape::Unit => {
            push_patch_header(&mut out, "_old", "_set");
            out.append("}\n");
        },
    }
    assert(out@ =~= struct_patch_js_text(sv));
    out
}


// ---------------------------------------------------------------------------
// Reading named fields from an object by key
// ---------------------------------------------------------------------------

/// The try of one key: read it when nothing was found yet, keeping only a
/// value that is not `undefined`.
pub open spec fn key_try(k: Seq<char>) -> Seq<char> {
    "if __val.is_none() { __val = ::js_sys::Reflect::get(__obj, &::wasm_bindgen::JsValue::from_str("@
        + lit(k) + ")).ok().filter(|v| !v.is_undefined()); } "@
}

/// The tries of the keys, in order.
pub open spec fn key_tries(ks: Seq<Seq<char>>) -> Seq<char>
    decreases ks.len(),
{
    if ks.len() == 0 {
        Seq::empty()
    } else {
        key_tries(ks.drop_last()) + key_try(ks.last())
    }
}

/// The expression reading a field's value from `__obj`: under its wire
/// name alone, or else under the first of its wire name and its aliases
/// that holds a value.
pub open spec fn get_value_text(f: FieldView) -> Seq<char> {
    if f.aliases.len() == 0 {
        "::js_sys::Reflect::get(__obj, &::wasm_bindgen::JsValue::from_str("@ + lit(f.wire_name)
            + ")).ok()"@
    } else {
        "{ let mut __val = None; "@ + key_tries(seq![f.wire_name] + f.aliases) + "__val }"@
    }
}

/// The binding of one field read from the object `__obj`:
/// - a field skipped in deserialization gets its default;
/// - a flattened field reads the whole object;
/// - otherwise the value found by key is read, or, when there is none,
///   the default; a field with no default takes its type's default or
///   fails with `MissingField` and its wire name.
pub open spec fn obj_binding(f: FieldView) -> Seq<char> {
    let head = "let "@ + f.ident + " = "@;
    if flag_set(f.flags, 2u8) {
        head + default_text(f.default) + ";\n"@
    } else if flag_set(f.flags, 4u8) {
        head + "<"@ + f.ty
            + " as ::typewire::Typewire>::from_js((*__obj).clone()).map_err(|e| e.in_context("@
            + lit(f.ident) + "))?;\n"@
    } else {
        head + obj_read(f)
    }
}

/// The bindings of the fields read from `__obj`.
pub open spec fn obj_bindings(fs: Seq<FieldView>) -> Seq<char>
    decreases fs.len(),
{
    if fs.len() == 0 {
        Seq::empty()
    } else {
        obj_bindings(fs.drop_last()) + obj_binding(fs.last())
    }
}

/// Appends the try of one key.
fn push_key_try(out: &mut String, k: &str)
    ensures
        final(out)@ == old(out)@ + key_try(k@),
{
    let ghost start = out@;
    out.append("if __val.is_none() { __val = ::js_sys::Reflect::get(__obj, &::wasm_bindgen::JsValue::from_str(");
    push_lit(out, k);
    out.append(")).ok().filter(|v| !v.is_undefined()); } ");
    assert(out@ =~= start + key_try(k@));
}

/// Appends the expression reading a field's value from `__obj`.
fn push_get_value(out: &mut String, f: &Field)
    ensures
        final(out)@ == old(out)@ + get_value_text(field_view(*f)),
{
    let ghost start = out@;
    let ghost fv = field_view(*f);
    if f.aliases.len() == 0 {
        out.append("::js_sys::Reflect::get(__obj, &::wasm_bindgen::JsValue::from_str(");
        push_lit(out, f.wire_name.as_str());
        out.append(")).ok()");
    } else {
        let ghost ks = seq![fv.wire_name] + fv.aliases;
        out.append("{ let mut __val = None; ");
        let ghost mid = out@;
        push_key_try(out, f.wire_name.as_str());
        assert(ks.take(1).drop_last() =~= Seq::<Seq<char>>::empty());
        assert(ks.take(1).last() == fv.wire_name);
        proof {
            reveal_with_fuel(key_tries, 2);
        }
        assert(key_tries(ks.take(1)) =~= key_try(fv.wire_name));
        assert(out@ =~= mid + key_tries(ks.take(1)));
        let mut i: usize = 0;
        while i < f.aliases.len()
            invariant
                i <= f.aliases@.len(),
                fv == field_view(*f),
                ks == seq![fv.wire_name] + fv.aliases,
                fv.aliases == strings_view(f.aliases@),
                out@ == mid + key_tries(ks.take(i + 1)),
            decreases f.aliases@.len() - i,
        {
            push_key_try(out, f.aliases[i].as_str());
            assert(ks.take(i + 2).drop_last() =~= ks.take(i + 1));
            assert(ks[i + 1] == f.aliases@[i as int]@);
            i = i + 1;
        }
        assert(ks.take(f.aliases@.len() as int + 1) =~= ks);
        out.append("__val }");
    }
    assert(out@ =~= start + get_value_text(fv));
}

/// The part of a field's binding after `let <ident> = `, for a field that
/// is read by key.
pub open spec fn obj_read(f: FieldView) -> Seq<char> {
    if !(f.default is NoDefault) {
        "match "@ + get_value_text(f) + " { Some(v) if !v.is_undefined() && !v.is_null() => { "@
            + from_js_text(f) + " } _ => "@ + default_text(f.default) + ", };\n"@
    } else {
        "match "@ + get_value_text(f) + " { Some(v) if !v.is_undefined() => { "@
            + from_js_text(f) + " } _ => match <"@ + f.ty
            + " as ::typewire::Typewire>::or_default() { Some(d) => d, None => return Err(::typewire::Error::MissingField { field: "@
            + lit(f.wire_name) + " }), }, };\n"@
    }
}

/// Appends the read by key of a field's binding.
#[verifier::spinoff_prover]
#[verifier::rlimit(80)]
fn push_obj_read(out: &mut String, f: &Field)
    ensures
        final(out)@ == old(out)@ + obj_read(field_view(*f)),
{
    let ghost start = out@;
    let ghost fv = field_view(*f);
    out.append("match ");
    push_get_value(out, f);
    match &f.default {
        FieldDefault::NoDefault => {
            out.append(" { Some(v) if !v.is_undefined() => { ");
            push_from_js(out, f);
            out.append(" } _ => match <");
            out.append(f.ty.as_str());
            out.append(" as ::typewire::Typewire>::or_default() { Some(d) => d, None => return Err(::typewire::Error::MissingField { field: ");
            push_lit(out, f.wire_name.as_str());
            out.append(" }), }, };\n");
        },
        _ => {
            out.append(" { Some(v) if !v.is_undefined() && !v.is_null() => { ");
            push_from_js(out, f);
            out.append(" } _ => ");
            push_default(out, &f.default);
            out.append(", };\n");
        },
    }
    assert(out@ =~= start + obj_read(fv));
}

/// Appends the binding of one field read from `__obj`.
fn push_obj_binding(out: &mut String, f: &Field)
    ensures
        final(out)@ == old(out)@ + obj_binding(field_view(*f)),
{
    let ghost start = out@;
    let ghost fv = field_view(*f);
    out.append("let ");
    out.append(f.ident.as_str());
    out.append(" = ");
    if f.flags.contains(crate::flags::FieldFlags::SKIP_DE) {
        push_default(out, &f.default);
        out.append(";\n");
    } else if f.flags.contains(crate::flags::FieldFlags::FLATTEN) {
        out.append("<");
        out.append(f.ty.as_str());
        out.append(" as ::typewire::Typewire>::from_js((*__obj).clone()).map_err(|e| e.in_context(");
        push_lit(out, f.ident.as_str());
        out.append("))?;\n");
    } else {
        push_obj_read(out, f);
    }
    assert(out@ =~= start + obj_binding(fv));
}

/// Appends the bindings of the fields read from `__obj`.
fn push_obj_bindings(out: &mut String, fields: &Vec<Field>)
    ensures
        final(out)@ == old(out)@ + obj_bindings(fields_view(fields@)),
{
    let ghost fv = fields_view(fields@);
    let ghost start = out@;
    proof {
        lemma_fields_view(fields@);
    }
    assert(fv.take(0) =~= Seq::<FieldView>::empty());
    let mut i: usize = 0;
    while i < fields.len()
        invariant
            i <= fields@.len(),
            fv.len() == fields@.len(),
            forall|j: int| 0 <= j < fv.len() ==> #[trigger] fv[j] == field_view(fields@[j]),
            out@ == start + obj_bindings(fv.take(i as int)),
        decreases fields@.len() - i,
    {
        push_obj_binding(out, &fields[i]);
        assert(fv.take(i + 1).drop_last() =~= fv.take(i as int));
        i = i + 1;
    }
    assert(fv.take(fields@.len() as int) =~= fv);
}


// ---------------------------------------------------------------------------
// Enum fallbacks
// ---------------------------------------------------------------------------

/// A variant that is read by its tag: not skipped in deserialization, not
/// untagged, not the catch-all.
pub open spec fn is_tagged(flags: u8) -> bool {
    !flag_set(flags, 2u8) && !flag_set(flags, 8u8) && !flag_set(flags, 4u8)
}

/// An untagged variant that can be read: tried by content after the tags.
pub open spec fn is_untagged_fallback(flags: u8) -> bool {
    flag_set(flags, 8u8) && !flag_set(flags, 2u8)
}

/// The catch-all (`other`) variant that can be read.
pub open spec fn is_other(flags: u8) -> bool {
    flag_set(flags, 4u8) && !flag_set(flags, 2u8)
}

/// The number of variants read by tag.
pub open spec fn tagged_count(vs: Seq<VariantView>) -> nat
    decreases vs.len(),
{
    if vs.len() == 0 {
        0
    } else {
        tagged_count(vs.drop_last()) + if is_tagged(vs.last().flags) {
            1nat
        } else {
            0nat
        }
    }
}

/// Whether some variant is an untagged fallback.
pub open spec fn any_untagged(vs: Seq<VariantView>) -> bool
    decreases vs.len(),
{
    vs.len() > 0 && (any_untagged(vs.drop_last()) || is_untagged_fallback(vs.last().flags))
}

/// The name of the first catch-all variant, if any.
pub open spec fn other_variant(vs: Seq<VariantView>) -> Option<Seq<char>>
    decreases vs.len(),
{
    if vs.len() == 0 {
        None
    } else {
        match other_variant(vs.drop_last()) {
            Some(n) => Some(n),
            None => if is_other(vs.last().flags) {
                Some(vs.last().ident)
            } else {
                None
            },
        }
    }
}

/// The try of an untagged variant: it is returned when `value` reads as it.
pub open spec fn untagged_fallback(name: Seq<char>, v: VariantView) -> Seq<char> {
    let path = name + "::"@ + v.ident;
    match v.kind {
        VariantKindView::Unit => "if value.is_null() || value.is_undefined() { return Ok("@ + path
            + "); }\n"@,
        VariantKindView::Unnamed(ts) => if ts.len() == 1 {
            "if let Ok(v) = <"@ + ts[0]
                + " as ::typewire::Typewire>::from_js(value.clone()) { return Ok("@ + path
                + "(v)); }\n"@
        } else {
            untagged_tuple_text(name, v.ident, ts)
        },
        VariantKindView::Named(fs) => untagged_named_text(name, v.ident, fs),
    }
}

/// The try of an untagged variant with several positional fields: an
/// array of that length whose elements all read.
pub open spec fn untagged_tuple_text(name: Seq<char>, vname: Seq<char>, ts: Seq<Seq<char>>) -> Seq<char> {
    "if let Ok(arr) = ::core::convert::TryInto::<::js_sys::Array>::try_into(value.clone()) { if arr.length() == "@
        + idx_u32(ts.len()) + " { if let Ok(v) = (|| -> ::core::result::Result<"@ + name
        + ", ::typewire::Error> {\n"@ + elem_bindings("__f"@, "arr"@, ts) + "Ok("@ + name + "::"@
        + vname + "("@ + numbered("__f"@, ts.len()) + "))\n})() { return Ok(v); } } }\n"@
}

/// The try of an untagged variant with named fields, read by key.
pub open spec fn untagged_named_text(name: Seq<char>, vname: Seq<char>, fs: Seq<FieldView>) -> Seq<char> {
    "if let Ok(v) = (|| -> ::core::result::Result<"@ + name
        + ", ::typewire::Error> {\nlet __obj = &value;\n"@ + obj_bindings(fs) + "Ok("@ + name
        + "::"@ + vname + " { "@ + field_names(fs) + "})\n})() { return Ok(v); }\n"@
}

/// Appends the try of an untagged variant with several positional fields.
#[verifier::spinoff_prover]
#[verifier::rlimit(80)]
fn push_untagged_tuple(out: &mut String, name: &str, vname: &str, ts: &Vec<String>)
    ensures
        final(out)@ == old(out)@ + untagged_tuple_text(name@, vname@, strings_view(ts@)),
{
    let ghost start = out@;
    out.append("if let Ok(arr) = ::core::convert::TryInto::<::js_sys::Array>::try_into(value.clone()) { if arr.length() == ");
    push_u32(out, ts.len());
    out.append(" { if let Ok(v) = (|| -> ::core::result::Result<");
    out.append(name);
    out.append(", ::typewire::Error> {\n");
    push_elem_bindings(out, "__f", "arr", ts);
    out.append("Ok(");
    out.append(name);
    out.append("::");
    out.append(vname);
    out.append("(");
    push_numbered(out, "__f", ts.len());
    out.append("))\n})() { return Ok(v); } } }\n");
    assert(out@ =~= start + untagged_tuple_text(name@, vname@, strings_view(ts@)));
}

/// Appends the try of an untagged variant with named fields.
#[verifier::spinoff_prover]
#[verifier::rlimit(80)]
fn push_untagged_named(out: &mut String, name: &str, vname: &str, fs: &Vec<Field>)
    ensures
        final(out)@ == old(out)@ + untagged_named_text(name@, vname@, fields_view(fs@)),
{
    let ghost start = out@;
    out.append("if let Ok(v) = (|| -> ::core::result::Result<");
    out.append(name);
    out.append(", ::typewire::Error> {\nlet __obj = &value;\n");
    push_obj_bindings(out, fs);
    out.append("Ok(");
    out.append(name);
    out.append("::");
    out.append(vname);
    out.append(" { ");
    push_field_names(out, fs);
    out.append("})\n})() { return Ok(v); }\n");
    assert(out@ =~= start + untagged_named_text(name@, vname@, fields_view(fs@)));
}

/// The tries of the untagged variants, in order.
pub open spec fn untagged_fallbacks(name: Seq<char>, vs: Seq<VariantView>) -> Seq<char>
    decreases vs.len(),
{
    if vs.len() == 0 {
        Seq::empty()
    } else {
        untagged_fallbacks(name, vs.drop_last()) + if is_untagged_fallback(vs.last().flags) {
            untagged_fallback(name, vs.last())
        } else {
            Seq::empty()
        }
    }
}

/// What is returned when no variant matched: the catch-all variant, or
/// `NoMatchingVariant`.
pub open spec fn final_err_text(name: Seq<char>, vs: Seq<VariantView>) -> Seq<char> {
    match other_variant(vs) {
        Some(o) => "Ok("@ + name + "::"@ + o + ")\n"@,
        None => "Err(::typewire::Error::NoMatchingVariant)\n"@,
    }
}

/// Appends the try of an untagged variant.
fn push_untagged_fallback(out: &mut String, name: &str, v: &Variant)
    ensures
        final(out)@ == old(out)@ + untagged_fallback(name@, variant_view(*v)),
{
    let ghost start = out@;
    let ghost vv = variant_view(*v);
    match &v.kind {
        VariantKind::Unit => {
            out.append("if value.is_null() || value.is_undefined() { return Ok(");
            out.append(name);
            out.append("::");
            out.append(v.ident.as_str());
            out.append("); }\n");
        },
        VariantKind::Unnamed(ts) => {
            if ts.len() == 1 {
                out.append("if let Ok(v) = <");
                out.append(ts[0].as_str());
                out.append(" as ::typewire::Typewire>::from_js(value.clone()) { return Ok(");
                out.append(name);
                out.append("::");
                out.append(v.ident.as_str());
                out.append("(v)); }\n");
            } else {
                push_untagged_tuple(out, name, v.ident.as_str(), ts);
            }
        },
        VariantKind::Named(fs) => {
            push_untagged_named(out, name, v.ident.as_str(), fs);
        },
    }
    assert(out@ =~= start + untagged_fallback(name@, vv));
}

/// Appends the tries of the untagged variants; tells whether there was one.
fn push_untagged_fallbacks(out: &mut String, name: &str, vs: &Vec<Variant>) -> (any: bool)
    ensures
        final(out)@ == old(out)@ + untagged_fallbacks(name@, variants_view(vs@)),
        any == any_untagged(variants_view(vs@)),
{
    let ghost vv = variants_view(vs@);
    let ghost start = out@;
    proof {
        lemma_variants_view(vs@);
    }
    assert(vv.take(0) =~= Seq::<VariantView>::empty());
    let mut any = false;
    let mut i: usize = 0;
    while i < vs.len()
        invariant
            i <= vs@.len(),
            vv.len() == vs@.len(),
            forall|j: int| 0 <= j < vv.len() ==> #[trigger] vv[j] == variant_view(vs@[j]),
            out@ == start + untagged_fallbacks(name@, vv.take(i as int)),
            any == any_untagged(vv.take(i as int)),
        decreases vs@.len() - i,
    {
        let v = &vs[i];
        assert(vv.take(i + 1).drop_last() =~= vv.take(i as int));
        if v.flags.contains(crate::flags::VariantFlags::UNTAGGED) && !v.flags.contains(
            crate::flags::VariantFlags::SKIP_DE,
        ) {
            push_untagged_fallback(out, name, v);
            any = true;
            assert(vv.take(i + 1)[i as int] == vv[i as int]);
        } else {
            assert(out@ =~= start + untagged_fallbacks(name@, vv.take(i + 1)));
        }
        i = i + 1;
    }
    assert(vv.take(vs@.len() as int) =~= vv);
    any
}

/// Appends what is returned when no variant matched.
fn push_final_err(out: &mut String, name: &str, vs: &Vec<Variant>) -> (has_other: bool)
    ensures
        final(out)@ == old(out)@ + final_err_text(name@, variants_view(vs@)),
        has_other == other_variant(variants_view(vs@)) is Some,
{
    let ghost vv = variants_view(vs@);
    let ghost start = out@;
    proof {
        lemma_variants_view(vs@);
    }
    assert(vv.take(0) =~= Seq::<VariantView>::empty());
    let mut found: Option<usize> = None;
    let mut i: usize = 0;
    while i < vs.len()
        invariant
            i <= vs@.len(),
            vv.len() == vs@.len(),
            forall|j: int| 0 <= j < vv.len() ==> #[trigger] vv[j] == variant_view(vs@[j]),
            match found {
                Some(k) => k < i && other_variant(vv.take(i as int)) == Some(vv[k as int].ident),
                None => other_variant(vv.take(i as int)) is None,
            },
        decreases vs@.len() - i,
    {
        assert(vv.take(i + 1).drop_last() =~= vv.take(i as int));
        if found.is_none() && vs[i].flags.contains(crate::flags::VariantFlags::OTHER)
            && !vs[i].flags.contains(crate::flags::VariantFlags::SKIP_DE) {
            found = Some(i);
        }
        i = i + 1;
    }
    assert(vv.take(vs@.len() as int) =~= vv);
    match found {
        Some(k) => {
            out.append("Ok(");
            out.append(name);
            out.append("::");
            out.append(vs[k].ident.as_str());
            out.append(")\n");
        },
        None => out.append("Err(::typewire::Error::NoMatchingVariant)\n"),
    }
    assert(out@ =~= start + final_err_text(name@, vv));
    found.is_some()
}


// ---------------------------------------------------------------------------
// Externally tagged enums: `from_js`
// ---------------------------------------------------------------------------

/// Whether some field is read in deserialization.
pub open spec fn any_active(fs: Seq<FieldView>) -> bool
    decreases fs.len(),
{
    fs.len() > 0 && (any_active(fs.drop_last()) || !flag_set(fs.last().flags, 2u8))
}

/// The arm for a variant read by tag, under its index among those
/// variants: its payload comes from the variant's content helper.
pub open spec fn ext_arm(name: Seq<char>, v: VariantView, idx: nat) -> Seq<char> {
    match v.kind {
        VariantKindView::Unit => idx_i32(idx) + " => return Ok("@ + name + "::"@ + v.ident + "),\n"@,
        VariantKindView::Unnamed(ts) => if ts.len() == 1 {
            single_arm(name, v.ident, ts[0], idx)
        } else {
            tuple_arm(name, v.ident, ts, idx)
        },
        VariantKindView::Named(fs) => named_arm(name, v.ident, fs, idx),
    }
}

/// The arm of a variant with one positional field: the content is read
/// by the field's type.
pub open spec fn single_arm(name: Seq<char>, vname: Seq<char>, t: Seq<char>, idx: nat) -> Seq<char> {
    idx_i32(idx) + " => { let __c = "@ + "__tw_"@ + name + "_content_"@ + vname
        + "(&value); let inner = <"@ + t
        + " as ::typewire::Typewire>::from_js(__c)?; return Ok("@ + name + "::"@ + vname
        + "(inner)); }\n"@
}

/// The arm of a variant with several positional fields: the content must
/// be an array, read element by element.
pub open spec fn tuple_arm(name: Seq<char>, vname: Seq<char>, ts: Seq<Seq<char>>, idx: nat) -> Seq<char> {
    idx_i32(idx) + " => { let __c = "@ + "__tw_"@ + name + "_content_"@ + vname
        + "(&value); let __arr: ::js_sys::Array = __c.try_into().map_err(|_| ::typewire::Error::UnexpectedType { expected: \"array\" })?;\n"@
        + elem_bindings("__f"@, "__arr"@, ts) + "return Ok("@ + name + "::"@ + vname + "("@
        + numbered("__f"@, ts.len()) + ")); }\n"@
}

/// The arm of a variant with named fields: the content is destructured
/// (when some field is read) and each field bound from its slot.
pub open spec fn named_arm(name: Seq<char>, vname: Seq<char>, fs: Seq<FieldView>, idx: nat) -> Seq<char> {
    idx_i32(idx) + " => { let __content = "@ + "__tw_"@ + name + "_content_"@ + vname
        + "(&value);\n"@ + (if any_active(fs) {
        "let __arr = __tw_"@ + name + "_destruct_"@ + vname + "(&__content);\n"@
    } else {
        Seq::empty()
    }) + destruct_bindings(fs) + "return Ok("@ + name + "::"@ + vname + " { "@ + field_names(fs)
        + "}); }\n"@
}

/// How an enum's variants are tagged in JavaScript.
#[derive(Clone, Copy, Debug, PartialEq, Eq)]
pub enum TagStyle {
    /// `{ "Variant": payload }`.
    External,
    /// `{ tag: "Variant", ...fields }`.
    Internal,
    /// `{ tag: "Variant", content: payload }`.
    Adjacent,
}

/// The arm reading a variant by tag, under its index among those variants.
pub open spec fn dispatch_arm(style: TagStyle, name: Seq<char>, v: VariantView, idx: nat) -> Seq<char> {
    match style {
        TagStyle::External => ext_arm(name, v, idx),
        TagStyle::Internal => int_arm(name, v, idx),
        TagStyle::Adjacent => adj_arm(name, v, idx),
    }
}

/// The arms of the variants read by tag, numbered in order.
pub open spec fn dispatch_arms(style: TagStyle, name: Seq<char>, vs: Seq<VariantView>) -> Seq<char>
    decreases vs.len(),
{
    if vs.len() == 0 {
        Seq::empty()
    } else {
        dispatch_arms(style, name, vs.drop_last()) + if is_tagged(vs.last().flags) {
            dispatch_arm(style, name, vs.last(), tagged_count(vs.drop_last()))
        } else {
            Seq::empty()
        }
    }
}

/// The string literals of names as alternatives of a pattern.
pub open spec fn alts(ns: Seq<Seq<char>>) -> Seq<char>
    decreases ns.len(),
{
    if ns.len() == 0 {
        Seq::empty()
    } else if ns.len() == 1 {
        lit(ns[0])
    } else {
        alts(ns.drop_last()) + " | "@ + lit(ns.last())
    }
}

/// The arm matching every wire name of a variant read by tag.
pub open spec fn string_arm(name: Seq<char>, v: VariantView, ret: Seq<char>) -> Seq<char> {
    alts(v.all_wire_names) + " => "@ + ret + "Ok("@ + name + "::"@ + v.ident + "),\n"@
}

/// The string arms of the variants read by tag.
pub open spec fn string_arms(name: Seq<char>, vs: Seq<VariantView>, ret: Seq<char>) -> Seq<char>
    decreases vs.len(),
{
    if vs.len() == 0 {
        Seq::empty()
    } else {
        string_arms(name, vs.drop_last(), ret) + if is_tagged(vs.last().flags) {
            string_arm(name, vs.last(), ret)
        } else {
            Seq::empty()
        }
    }
}

/// The body of an externally tagged enum's `from_js`, reading `value`:
/// - with untagged or catch-all variants and only unit variants: the
///   string is matched against every wire name, then the untagged
///   variants are tried, then the catch-all (or `NoMatchingVariant`);
/// - with untagged or catch-all variants: the dispatch index selects the
///   variant, then the same fallbacks;
/// - with only unit variants: the value must be a string matching a wire
///   name, else `UnknownVariant`;
/// - otherwise the dispatch index selects the variant, else
///   `UnknownVariant`.
pub open spec fn ext_from_js_text(e: EnumView) -> Seq<char> {
    let name = e.ident;
    let vs = e.variants;
    let has_fallbacks = any_untagged(vs) || other_variant(vs) is Some;
    let all_unit = flag_set(e.flags, 2u8);
    if has_fallbacks && all_unit {
        "if let Some(s) = value.as_string() { match s.as_str() {\n"@ + string_arms(
            name,
            vs,
            "return "@,
        ) + "_ => {}\n} }\n"@ + untagged_fallbacks(name, vs) + final_err_text(name, vs)
    } else if has_fallbacks {
        "let __idx = __tw_"@ + name + "_dispatch(&value);\nmatch __idx {\n"@ + dispatch_arms(TagStyle::External, name, vs)
            + "_ => {}\n}\n"@ + untagged_fallbacks(name, vs) + final_err_text(name, vs)
    } else if all_unit {
        "let s = value.as_string().ok_or(::typewire::Error::UnexpectedType { expected: \"string\" })?;\nmatch s.as_str() {\n"@
            + string_arms(name, vs, ""@)
            + "other => Err(::typewire::Error::UnknownVariant { variant: other.into() }),\n}\n"@
    } else {
        "match __tw_"@ + name + "_dispatch(&value) {\n"@ + dispatch_arms(TagStyle::External, name, vs)
            + "_ => Err(::typewire::Error::UnknownVariant { variant: value.as_string().unwrap_or_default() }),\n}\n"@
    }
}

/// Tells whether some field is read in deserialization.
fn fields_any_active(fs: &Vec<Field>) -> (r: bool)
    ensures
        r == any_active(fields_view(fs@)),
{
    let ghost fv = fields_view(fs@);
    proof {
        lemma_fields_view(fs@);
    }
    let mut r = false;
    let mut i: usize = 0;
    assert(fv.take(0) =~= Seq::<FieldView>::empty());
    while i < fs.len()
        invariant
            i <= fs@.len(),
            fv.len() == fs@.len(),
            forall|j: int| 0 <= j < fv.len() ==> #[trigger] fv[j] == field_view(fs@[j]),
            r == any_active(fv.take(i as int)),
        decreases fs@.len() - i,
    {
        assert(fv.take(i + 1).drop_last() =~= fv.take(i as int));
        if !fs[i].flags.contains(crate::flags::FieldFlags::SKIP_DE) {
            r = true;
        }
        i = i + 1;
    }
    assert(fv.take(fs@.len() as int) =~= fv);
    r
}

/// Appends the arm of a variant with named fields read by tag.
#[verifier::spinoff_prover]
#[verifier::rlimit(80)]
fn push_named_dispatch_arm(out: &mut String, name: &str, vname: &str, fs: &Vec<Field>, idx: usize)
    ensures
        final(out)@ == old(out)@ + named_arm(name@, vname@, fields_view(fs@), idx as nat),
{
    let ghost start = out@;
    push_i32(out, idx);
    out.append(" => { let __content = ");
    out.append("__tw_");
    out.append(name);
    out.append("_content_");
    out.append(vname);
    out.append("(&value);\n");
    let ghost mid = out@;
    if fields_any_active(fs) {
        out.append("let __arr = __tw_");
        out.append(name);
        out.append("_destruct_");
        out.append(vname);
        out.append("(&__content);\n");
    }
    let ghost mid2 = out@;
    push_destruct_bindings(out, fs);
    out.append("return Ok(");
    out.append(name);
    out.append("::");
    out.append(vname);
    out.append(" { ");
    push_field_names(out, fs);
    out.append("}); }\n");
    assert(out@ =~= start + named_arm(name@, vname@, fields_view(fs@), idx as nat));
}

/// Appends the arm of a variant with several positional fields read by tag.
#[verifier::spinoff_prover]
#[verifier::rlimit(80)]
fn push_tuple_dispatch_arm(out: &mut String, name: &str, vname: &str, ts: &Vec<String>, idx: usize)
    ensures
        final(out)@ == old(out)@ + tuple_arm(name@, vname@, strings_view(ts@), idx as nat),
{
    let ghost start = out@;
    push_i32(out, idx);
    out.append(" => { let __c = ");
    out.append("__tw_");
    out.append(name);
    out.append("_content_");
    out.append(vname);
    out.append("(&value); let __arr: ::js_sys::Array = __c.try_into().map_err(|_| ::typewire::Error::UnexpectedType { expected: \"array\" })?;\n");
    push_elem_bindings(out, "__f", "__arr", ts);
    out.append("return Ok(");
    out.append(name);
    out.append("::");
    out.append(vname);
    out.append("(");
    push_numbered(out, "__f", ts.len());
    out.append(")); }\n");
    assert(out@ =~= start + tuple_arm(name@, vname@, strings_view(ts@), idx as nat));
}

/// Appends the arm of a variant read by tag.
#[verifier::spinoff_prover]
#[verifier::rlimit(80)]
fn push_ext_arm(out: &mut String, name: &str, v: &Variant, idx: usize)
    ensures
        final(out)@ == old(out)@ + ext_arm(name@, variant_view(*v), idx as nat),
{
    let ghost start = out@;
    let ghost vv = variant_view(*v);
    match &v.kind {
        VariantKind::Unit => {
            push_i32(out, idx);
            out.append(" => return Ok(");
            out.append(name);
            out.append("::");
            out.append(v.ident.as_str());
            out.append("),\n");
            assert(out@ =~= start + ext_arm(name@, vv, idx as nat));
        },
        VariantKind::Unnamed(ts) => {
            if ts.len() == 1 {
                push_i32(out, idx);
                out.append(" => { let __c = ");
                out.append("__tw_");
                out.append(name);
                out.append("_content_");
                out.append(v.ident.as_str());
                out.append("(&value); let inner = <");
                out.append(ts[0].as_str());
                out.append(" as ::typewire::Typewire>::from_js(__c)?; return Ok(");
                out.append(name);
                out.append("::");
                out.append(v.ident.as_str());
                out.append("(inner)); }\n");
                assert(out@ =~= start + ext_arm(name@, vv, idx as nat));
            } else {
                push_tuple_dispatch_arm(out, name, v.ident.as_str(), ts, idx);
                assert(out@ =~= start + ext_arm(name@, vv, idx as nat));
            }
        },
        VariantKind::Named(fs) => {
            push_named_dispatch_arm(out, name, v.ident.as_str(), fs, idx);
            assert(out@ =~= start + ext_arm(name@, vv, idx as nat));
        },
    }
}

/// Appends the arm reading a variant by tag.
#[verifier::spinoff_prover]
#[verifier::rlimit(80)]
fn push_dispatch_arm(out: &mut String, style: TagStyle, name: &str, v: &Variant, idx: usize)
    ensures
        final(out)@ == old(out)@ + dispatch_arm(style, name@, variant_view(*v), idx as nat),
{
    match style {
        TagStyle::External => push_ext_arm(out, name, v, idx),
        TagStyle::Internal => push_int_arm(out, name, v, idx),
        TagStyle::Adjacent => push_adj_arm(out, name, v, idx),
    }
}

/// Appends the arms of the variants read by tag.
#[verifier::spinoff_prover]
#[verifier::rlimit(80)]
fn push_dispatch_arms(out: &mut String, style: TagStyle, name: &str, vs: &Vec<Variant>)
    ensures
        final(out)@ == old(out)@ + dispatch_arms(style, name@, variants_view(vs@)),
{
    let ghost vv = variants_view(vs@);
    let ghost start = out@;
    proof {
        lemma_variants_view(vs@);
    }
    assert(vv.take(0) =~= Seq::<VariantView>::empty());
    let mut i: usize = 0;
    let mut idx: usize = 0;
    while i < vs.len()
        invariant
            i <= vs@.len(),
            idx <= i,
            vv.len() == vs@.len(),
            forall|j: int| 0 <= j < vv.len() ==> #[trigger] vv[j] == variant_view(vs@[j]),
            out@ == start + dispatch_arms(style, name@, vv.take(i as int)),
            idx == tagged_count(vv.take(i as int)),
        decreases vs@.len() - i,
    {
        let v = &vs[i];
        assert(vv.take(i + 1).drop_last() =~= vv.take(i as int));
        if !v.flags.contains(crate::flags::VariantFlags::SKIP_DE) && !v.flags.contains(
            crate::flags::VariantFlags::UNTAGGED,
        ) && !v.flags.contains(crate::flags::VariantFlags::OTHER) {
            push_dispatch_arm(out, style, name, v, idx);
            idx = idx + 1;
        } else {
            assert(out@ =~= start + dispatch_arms(style, name@, vv.take(i + 1)));
        }
        i = i + 1;
    }
    assert(vv.take(vs@.len() as int) =~= vv);
}

/// Appends the string literals of names as pattern alternatives.
fn push_alts(out: &mut String, ns: &Vec<String>)
    ensures
        final(out)@ == old(out)@ + alts(strings_view(ns@)),
{
    let ghost nv = strings_view(ns@);
    let ghost start = out@;
    if ns.len() == 0 {
        assert(nv =~= Seq::<Seq<char>>::empty());
        return;
    }
    push_lit(out, ns[0].as_str());
    assert(nv.take(1).len() == 1);
    let mut i: usize = 1;
    while i < ns.len()
        invariant
            1 <= i <= ns@.len(),
            nv == strings_view(ns@),
            out@ == start + alts(nv.take(i as int)),
        decreases ns@.len() - i,
    {
        out.append(" | ");
        push_lit(out, ns[i].as_str());
        assert(nv.take(i + 1).drop_last() =~= nv.take(i as int));
        assert(out@ =~= start + alts(nv.take(i + 1)));
        i = i + 1;
    }
    assert(nv.take(ns@.len() as int) =~= nv);
}

/// Appends the string arms of the variants read by tag.
fn push_string_arms(out: &mut String, name: &str, vs: &Vec<Variant>, ret: &str)
    ensures
        final(out)@ == old(out)@ + string_arms(name@, variants_view(vs@), ret@),
{
    let ghost vv = variants_view(vs@);
    let ghost start = out@;
    proof {
        lemma_variants_view(vs@);
    }
    assert(vv.take(0) =~= Seq::<VariantView>::empty());
    let mut i: usize = 0;
    while i < vs.len()
        invariant
            i <= vs@.len(),
            vv.len() == vs@.len(),
            forall|j: int| 0 <= j < vv.len() ==> #[trigger] vv[j] == variant_view(vs@[j]),
            out@ == start + string_arms(name@, vv.take(i as int), ret@),
        decreases vs@.len() - i,
    {
        let v = &vs[i];
        assert(vv.take(i + 1).drop_last() =~= vv.take(i as int));
        let ghost before = out@;
        if !v.flags.contains(crate::flags::VariantFlags::SKIP_DE) && !v.flags.contains(
            crate::flags::VariantFlags::UNTAGGED,
        ) && !v.flags.contains(crate::flags::VariantFlags::OTHER) {
            push_alts(out, &v.all_wire_names);
            out.append(" => ");
            out.append(ret);
            out.append("Ok(");
            out.append(name);
            out.append("::");
            out.append(v.ident.as_str());
            out.append("),\n");
            assert(out@ =~= before + string_arm(name@, vv[i as int], ret@));
        }
        assert(out@ =~= start + string_arms(name@, vv.take(i + 1), ret@));
        i = i + 1;
    }
    assert(vv.take(vs@.len() as int) =~= vv);
}

/// The body of an externally tagged enum's `from_js` (see
/// [`ext_from_js_text`]).
#[verifier::spinoff_prover]
#[verifier::rlimit(80)]
pub fn ext_tagged_from_js(e: &Enum) -> (r: String)
    ensures
        r@ == ext_from_js_text(enum_view(*e)),
{
    let ghost ev = enum_view(*e);
    let name = e.ident.as_str();
    let mut fallbacks = String::new();
    let any = push_untagged_fallbacks(&mut fallbacks, name, &e.variants);
    let mut final_err = String::new();
    let has_other = push_final_err(&mut final_err, name, &e.variants);
    let has_fallbacks = any || has_other;
    let all_unit = e.flags.contains(crate::flags::EnumFlags::ALL_UNIT);
    let mut out = String::new();
    if has_fallbacks && all_unit {
        out.append("if let Some(s) = value.as_string() { match s.as_str() {\n");
        push_string_arms(&mut out, name, &e.variants, "return ");
        out.append("_ => {}\n} }\n");
        out.append(fallbacks.as_str());
        out.append(final_err.as_str());
    } else if has_fallbacks {
        out.append("let __idx = __tw_");
        out.append(name);
        out.append("_dispatch(&value);\nmatch __idx {\n");
        push_dispatch_arms(&mut out, TagStyle::External, name, &e.variants);
        out.append("_ => {}\n}\n");
        out.append(fallbacks.as_str());
        out.append(final_err.as_str());
    } else if all_unit {
        out.append("let s = value.as_string().ok_or(::typewire::Error::UnexpectedType { expected: \"string\" })?;\nmatch s.as_str() {\n");
        push_string_arms(&mut out, name, &e.variants, "");
        out.append("other => Err(::typewire::Error::UnknownVariant { variant: other.into() }),\n}\n");
    } else {
        out.append("match __tw_");
        out.append(name);
        out.append("_dispatch(&value) {\n");
        push_dispatch_arms(&mut out, TagStyle::External, name, &e.variants);
        out.append("_ => Err(::typewire::Error::UnknownVariant { variant: value.as_string().unwrap_or_default() }),\n}\n");
    }
    assert(out@ =~= ext_from_js_text(ev));
    out
}


// ---------------------------------------------------------------------------
// Externally tagged enums: `patch_js`
// ---------------------------------------------------------------------------

/// The index, among the variants read by tag, of the first one named
/// `ident`.
pub open spec fn tagged_pos(vs: Seq<VariantView>, ident: Seq<char>) -> Option<nat>
    decreases vs.len(),
{
    if vs.len() == 0 {
        None
    } else {
        match tagged_pos(vs.drop_last(), ident) {
            Some(k) => Some(k),
            None => if is_tagged(vs.last().flags) && vs.last().ident == ident {
                Some(tagged_count(vs.drop_last()))
            } else {
                None
            },
        }
    }
}

/// An optional index as a natural number.
pub open spec fn opt_nat(o: Option<usize>) -> Option<nat> {
    match o {
        Some(i) => Some(i as nat),
        None => None,
    }
}

/// The test that the old value holds another variant: its dispatch index
/// differs from the variant's, or always for a variant with no index.
pub open spec fn changed_test(pos: Option<nat>) -> Seq<char> {
    match pos {
        Some(i) => "__old_idx != "@ + idx_i32(i),
        None => "true"@,
    }
}

/// Whether some field has a slot in the destructured content.
pub open spec fn any_slot(fs: Seq<FieldView>) -> bool
    decreases fs.len(),
{
    fs.len() > 0 && (any_slot(fs.drop_last()) || !both_skipped(fs.last().flags))
}

/// The site of a variant's fields: the bindings themselves, old values in
/// `__varr`, written to `target` by `__tw_<Type>_set_<Variant>_<field>`.
pub open spec fn variant_site(name: Seq<char>, vname: Seq<char>, target: Seq<char>) -> PatchSite {
    PatchSite {
        setter: "__tw_"@ + name + "_set_"@ + vname + "_"@,
        access: Seq::empty(),
        arr: "__varr"@,
        target,
    }
}

/// The arm body writing the value whole when the old one holds another
/// variant.
pub open spec fn whole_text(pos: Option<nat>) -> Seq<char> {
    "{ if "@ + changed_test(pos) + " { _set(self.to_js()); } }\n"@
}

/// The arm body for a variant with named fields: another variant is
/// written whole; the same variant is patched field by field from its
/// destructured old fields. An externally tagged variant whose fields all
/// lack a slot is only written whole.
pub open spec fn named_patch(
    style: TagStyle,
    name: Seq<char>,
    vname: Seq<char>,
    fs: Seq<FieldView>,
    pos: Option<nat>,
) -> Seq<char> {
    let head = "{ if "@ + changed_test(pos) + " { _set(self.to_js()); } else { "@;
    match style {
        TagStyle::External => if any_slot(fs) {
            head + "let __content = __tw_"@ + name + "_content_"@ + vname
                + "(old); let __varr = __tw_"@ + name + "_destruct_"@ + vname + "(&__content);\n"@
                + field_patches(variant_site(name, vname, "&__content"@), fs) + "} }\n"@
        } else {
            whole_text(pos)
        },
        TagStyle::Internal => head + "let __varr = __tw_"@ + name + "_destruct_"@ + vname
            + "(old);\n"@ + field_patches(variant_site(name, vname, "old"@), fs) + "} }\n"@,
        TagStyle::Adjacent => head + "let __content = __tw_"@ + name
            + "_content(old); let __varr = __tw_"@ + name + "_destruct_"@ + vname
            + "(&__content);\n"@ + field_patches(variant_site(name, vname, "&__content"@), fs)
            + "} }\n"@,
    }
}

/// The rest of the arm of a variant with one positional field: another
/// variant is written whole; the same variant is patched through its
/// field, from the old content (written back whole, into the old value, or
/// into the old value's content field `key`).
pub open spec fn single_patch(
    style: TagStyle,
    key: Seq<char>,
    name: Seq<char>,
    vname: Seq<char>,
    t: Seq<char>,
    pos: Option<nat>,
) -> Seq<char> {
    let head = "(__inner) => { if "@ + changed_test(pos) + " { _set(self.to_js()); } else { "@;
    match style {
        TagStyle::External => head + "let __content = __tw_"@ + name + "_content_"@ + vname
            + "(old); <"@ + t
            + " as ::typewire::Typewire>::patch_js(__inner, &__content, |v| { _set(self.to_js()); }); } }\n"@,
        TagStyle::Internal => head + "<"@ + t
            + " as ::typewire::Typewire>::patch_js(__inner, old, |v| _set(v)); } }\n"@,
        TagStyle::Adjacent => head + "let __old_content = __tw_"@ + name + "_content(old); <"@
            + t
            + " as ::typewire::Typewire>::patch_js(__inner, &__old_content, |v| { let _ = ::js_sys::Reflect::set(old, &::wasm_bindgen::JsValue::from_str("@
            + lit(key) + "), &v); }); } }\n"@,
    }
}

/// The arm patching the old value for a variant that is serialized; a
/// variant of several positional fields is written whole.
pub open spec fn patch_arm(
    style: TagStyle,
    key: Seq<char>,
    name: Seq<char>,
    v: VariantView,
    pos: Option<nat>,
) -> Seq<char> {
    let path = name + "::"@ + v.ident;
    match v.kind {
        VariantKindView::Unit => path + " => "@ + whole_text(pos),
        VariantKindView::Named(fs) => path + " { "@ + field_names(fs) + ".. } => "@ + named_patch(
            style,
            name,
            v.ident,
            fs,
            pos,
        ),
        VariantKindView::Unnamed(ts) => if ts.len() == 1 {
            path + single_patch(style, key, name, v.ident, ts[0], pos)
        } else {
            path + "(..) => { _set(self.to_js()); }\n"@
        },
    }
}

/// The arms of the serialized variants, each with its index among all
/// the variants read by tag.
pub open spec fn patch_arms(
    style: TagStyle,
    key: Seq<char>,
    name: Seq<char>,
    all: Seq<VariantView>,
    vs: Seq<VariantView>,
) -> Seq<char>
    decreases vs.len(),
{
    if vs.len() == 0 {
        Seq::empty()
    } else {
        patch_arms(style, key, name, all, vs.drop_last()) + if flag_set(vs.last().flags, 1u8) {
            Seq::empty()
        } else {
            patch_arm(style, key, name, vs.last(), tagged_pos(all, vs.last().ident))
        }
    }
}

/// A tagged enum's `patch_js` method: a missing old value is replaced
/// whole; otherwise the old value's variant is read by dispatch and the
/// arm of the current variant patches it.
pub open spec fn tagged_patch_js_text(style: TagStyle, key: Seq<char>, e: EnumView) -> Seq<char> {
    patch_header("old"@, "_set"@)
        + "if old.is_undefined() || old.is_null() { _set(self.to_js()); return; }\nlet __old_idx = __tw_"@
        + e.ident + "_dispatch(old);\nmatch self {\n"@ + patch_arms(
        style,
        key,
        e.ident,
        e.variants,
        e.variants,
    )
        + "#[expect(unreachable_patterns, reason = \"wasm-only variants may be skipped\")]\n_ => { _set(self.to_js()); }\n}\n}\n"@
}

/// An externally tagged enum's `patch_js` method.
pub open spec fn ext_patch_js_text(e: EnumView) -> Seq<char> {
    tagged_patch_js_text(TagStyle::External, Seq::empty(), e)
}

/// An internally tagged enum's `patch_js` method.
pub open spec fn int_patch_js_text(e: EnumView) -> Seq<char> {
    tagged_patch_js_text(TagStyle::Internal, Seq::empty(), e)
}

/// An adjacently tagged enum's `patch_js` method, whose content field is
/// `content_key`.
pub open spec fn adj_patch_js_text(e: EnumView, content_key: Seq<char>) -> Seq<char> {
    tagged_patch_js_text(TagStyle::Adjacent, content_key, e)
}

/// The index among the variants read by tag of the first one named `ident`.
fn find_tagged_pos(vs: &Vec<Variant>, ident: &str) -> (r: Option<usize>)
    ensures
        match r {
            Some(k) => tagged_pos(variants_view(vs@), ident@) == Some(k as nat),
            None => tagged_pos(variants_view(vs@), ident@) is None,
        },
{
    let ghost vv = variants_view(vs@);
    proof {
        lemma_variants_view(vs@);
    }
    assert(vv.take(0) =~= Seq::<VariantView>::empty());
    let mut found: Option<usize> = None;
    let mut count: usize = 0;
    let mut i: usize = 0;
    while i < vs.len()
        invariant
            i <= vs@.len(),
            count <= i,
            vv.len() == vs@.len(),
            forall|j: int| 0 <= j < vv.len() ==> #[trigger] vv[j] == variant_view(vs@[j]),
            count == tagged_count(vv.take(i as int)),
            match found {
                Some(k) => tagged_pos(vv.take(i as int), ident@) == Some(k as nat),
                None => tagged_pos(vv.take(i as int), ident@) is None,
            },
        decreases vs@.len() - i,
    {
        let v = &vs[i];
        assert(vv.take(i + 1).drop_last() =~= vv.take(i as int));
        let tagged = !v.flags.contains(crate::flags::VariantFlags::SKIP_DE) && !v.flags.contains(
            crate::flags::VariantFlags::UNTAGGED,
        ) && !v.flags.contains(crate::flags::VariantFlags::OTHER);
        if tagged {
            if found.is_none() && crate::case::str_eq(v.ident.as_str(), ident) {
                found = Some(count);
            }
            count = count + 1;
        }
        i = i + 1;
    }
    assert(vv.take(vs@.len() as int) =~= vv);
    found
}

/// Appends the test that the old value holds another variant.
fn push_changed_test(out: &mut String, pos: Option<usize>)
    ensures
        final(out)@ == old(out)@ + changed_test(
            opt_nat(pos),
        ),
{
    let ghost start = out@;
    match pos {
        Some(i) => {
            out.append("__old_idx != ");
            push_i32(out, i);
        },
        None => out.append("true"),
    }
    assert(out@ =~= start + changed_test(
        opt_nat(pos),
    ));
}

/// Tells whether some field has a slot in the destructured content.
fn fields_any_slot(fs: &Vec<Field>) -> (r: bool)
    ensures
        r == any_slot(fields_view(fs@)),
{
    let ghost fv = fields_view(fs@);
    proof {
        lemma_fields_view(fs@);
    }
    let mut r = false;
    let mut i: usize = 0;
    assert(fv.take(0) =~= Seq::<FieldView>::empty());
    while i < fs.len()
        invariant
            i <= fs@.len(),
            fv.len() == fs@.len(),
            forall|j: int| 0 <= j < fv.len() ==> #[trigger] fv[j] == field_view(fs@[j]),
            r == any_slot(fv.take(i as int)),
        decreases fs@.len() - i,
    {
        assert(fv.take(i + 1).drop_last() =~= fv.take(i as int));
        if !(fs[i].flags.contains(crate::flags::FieldFlags::SKIP_SER) && fs[i].flags.contains(
            crate::flags::FieldFlags::SKIP_DE,
        )) {
            r = true;
        }
        i = i + 1;
    }
    assert(fv.take(fs@.len() as int) =~= fv);
    r
}

/// Appends the arm body writing the value whole on another variant.
fn push_whole(out: &mut String, pos: Option<usize>)
    ensures
        final(out)@ == old(out)@ + whole_text(opt_nat(pos)),
{
    let ghost start = out@;
    out.append("{ if ");
    push_changed_test(out, pos);
    out.append(" { _set(self.to_js()); } }\n");
    assert(out@ =~= start + whole_text(opt_nat(pos)));
}

/// Appends the part of a named variant's patch after `else { `, for an
/// arm that patches field by field.
#[verifier::spinoff_prover]
#[verifier::rlimit(80)]
fn push_named_patch_fields(
    out: &mut String,
    style: TagStyle,
    name: &str,
    vname: &str,
    fs: &Vec<Field>,
)
    ensures
        final(out)@ == old(out)@ + match style {
            TagStyle::External => "let __content = __tw_"@ + name@ + "_content_"@ + vname@
                + "(old); let __varr = __tw_"@ + name@ + "_destruct_"@ + vname@
                + "(&__content);\n"@ + field_patches(
                variant_site(name@, vname@, "&__content"@),
                fields_view(fs@),
            ),
            TagStyle::Internal => "let __varr = __tw_"@ + name@ + "_destruct_"@ + vname@
                + "(old);\n"@ + field_patches(variant_site(name@, vname@, "old"@), fields_view(fs@)),
            TagStyle::Adjacent => "let __content = __tw_"@ + name@
                + "_content(old); let __varr = __tw_"@ + name@ + "_destruct_"@ + vname@
                + "(&__content);\n"@ + field_patches(
                variant_site(name@, vname@, "&__content"@),
                fields_view(fs@),
            ),
        },
{
    let ghost start = out@;
    let mut setter = String::from_str("__tw_");
    setter.append(name);
    setter.append("_set_");
    setter.append(vname);
    setter.append("_");
    assert(setter@ =~= "__tw_"@ + name@ + "_set_"@ + vname@ + "_"@);
    proof {
        reveal_strlit("");
    }
    assert(""@ =~= Seq::<char>::empty());
    match style {
        TagStyle::External => {
            out.append("let __content = __tw_");
            out.append(name);
            out.append("_content_");
            out.append(vname);
            out.append("(old); let __varr = __tw_");
            out.append(name);
            out.append("_destruct_");
            out.append(vname);
            out.append("(&__content);\n");
            push_field_patches(out, setter.as_str(), "", "__varr", "&__content", fs);
        },
        TagStyle::Internal => {
            out.append("let __varr = __tw_");
            out.append(name);
            out.append("_destruct_");
            out.append(vname);
            out.append("(old);\n");
            push_field_patches(out, setter.as_str(), "", "__varr", "old", fs);
        },
        TagStyle::Adjacent => {
            out.append("let __content = __tw_");
            out.append(name);
            out.append("_content(old); let __varr = __tw_");
            out.append(name);
            out.append("_destruct_");
            out.append(vname);
            out.append("(&__content);\n");
            push_field_patches(out, setter.as_str(), "", "__varr", "&__content", fs);
        },
    }
}

/// Appends the arm body for a variant with named fields.
#[verifier::spinoff_prover]
#[verifier::rlimit(80)]
fn push_named_patch(
    out: &mut String,
    style: TagStyle,
    name: &str,
    vname: &str,
    fs: &Vec<Field>,
    pos: Option<usize>,
)
    ensures
        final(out)@ == old(out)@ + named_patch(style, name@, vname@, fields_view(fs@), opt_nat(pos)),
{
    let ghost start = out@;
    let ghost p = opt_nat(pos);
    if matches!(style, TagStyle::External) && !fields_any_slot(fs) {
        push_whole(out, pos);
        return;
    }
    out.append("{ if ");
    push_changed_test(out, pos);
    out.append(" { _set(self.to_js()); } else { ");
    push_named_patch_fields(out, style, name, vname, fs);
    out.append("} }\n");
    assert(out@ =~= start + named_patch(style, name@, vname@, fields_view(fs@), p));
}

/// Appends the rest of the arm of a variant with one positional field.
#[verifier::spinoff_prover]
#[verifier::rlimit(80)]
fn push_single_patch(
    out: &mut String,
    style: TagStyle,
    key: &str,
    name: &str,
    vname: &str,
    t: &str,
    pos: Option<usize>,
)
    ensures
        final(out)@ == old(out)@ + single_patch(style, key@, name@, vname@, t@, opt_nat(pos)),
{
    let ghost start = out@;
    let ghost p = opt_nat(pos);
    out.append("(__inner) => { if ");
    push_changed_test(out, pos);
    out.append(" { _set(self.to_js()); } else { ");
    match style {
        TagStyle::External => {
            out.append("let __content = __tw_");
            out.append(name);
            out.append("_content_");
            out.append(vname);
            out.append("(old); <");
            out.append(t);
            out.append(" as ::typewire::Typewire>::patch_js(__inner, &__content, |v| { _set(self.to_js()); }); } }\n");
        },
        TagStyle::Internal => {
            out.append("<");
            out.append(t);
            out.append(" as ::typewire::Typewire>::patch_js(__inner, old, |v| _set(v)); } }\n");
        },
        TagStyle::Adjacent => {
            out.append("let __old_content = __tw_");
            out.append(name);
            out.append("_content(old); <");
            out.append(t);
            out.append(" as ::typewire::Typewire>::patch_js(__inner, &__old_content, |v| { let _ = ::js_sys::Reflect::set(old, &::wasm_bindgen::JsValue::from_str(");
            push_lit(out, key);
            out.append("), &v); }); } }\n");
        },
    }
    assert(out@ =~= start + single_patch(style, key@, name@, vname@, t@, p));
}

/// Appends the arm patching the old value for a serialized variant.
#[verifier::spinoff_prover]
#[verifier::rlimit(80)]
fn push_patch_arm(
    out: &mut String,
    style: TagStyle,
    key: &str,
    name: &str,
    v: &Variant,
    pos: Option<usize>,
)
    ensures
        final(out)@ == old(out)@ + patch_arm(style, key@, name@, variant_view(*v), opt_nat(pos)),
{
    let ghost start = out@;
    let ghost vv = variant_view(*v);
    let ghost p = opt_nat(pos);
    out.append(name);
    out.append("::");
    out.append(v.ident.as_str());
    match &v.kind {
        VariantKind::Unit => {
            out.append(" => ");
            push_whole(out, pos);
            assert(out@ =~= start + patch_arm(style, key@, name@, vv, p));
        },
        VariantKind::Named(fs) => {
            out.append(" { ");
            push_field_names(out, fs);
            out.append(".. } => ");
            push_named_patch(out, style, name, v.ident.as_str(), fs, pos);
            assert(out@ =~= start + patch_arm(style, key@, name@, vv, p));
        },
        VariantKind::Unnamed(ts) => {
            if ts.len() == 1 {
                push_single_patch(out, style, key, name, v.ident.as_str(), &ts[0], pos);
            } else {
                out.append("(..) => { _set(self.to_js()); }\n");
            }
            assert(out@ =~= start + patch_arm(style, key@, name@, vv, p));
        },
    }
}

/// Appends a tagged enum's `patch_js` method.
#[verifier::spinoff_prover]
#[verifier::rlimit(80)]
fn push_tagged_patch_js(out: &mut String, style: TagStyle, key: &str, e: &Enum)
    ensures
        final(out)@ == old(out)@ + tagged_patch_js_text(style, key@, enum_view(*e)),
{
    let ghost ev = enum_view(*e);
    let ghost vv = ev.variants;
    let ghost begin = out@;
    proof {
        lemma_variants_view(e.variants@);
    }
    let name = e.ident.as_str();
    push_patch_header(out, "old", "_set");
    out.append("if old.is_undefined() || old.is_null() { _set(self.to_js()); return; }\nlet __old_idx = __tw_");
    out.append(name);
    out.append("_dispatch(old);\nmatch self {\n");
    let ghost start = out@;
    assert(vv.take(0) =~= Seq::<VariantView>::empty());
    let mut i: usize = 0;
    while i < e.variants.len()
        invariant
            i <= e.variants@.len(),
            vv == variants_view(e.variants@),
            vv.len() == e.variants@.len(),
            forall|j: int| 0 <= j < vv.len() ==> #[trigger] vv[j] == variant_view(e.variants@[j]),
            out@ == start + patch_arms(style, key@, name@, vv, vv.take(i as int)),
        decreases e.variants@.len() - i,
    {
        let v = &e.variants[i];
        assert(vv.take(i + 1).drop_last() =~= vv.take(i as int));
        if !v.flags.contains(crate::flags::VariantFlags::SKIP_SER) {
            let pos = find_tagged_pos(&e.variants, v.ident.as_str());
            push_patch_arm(out, style, key, name, v, pos);
        } else {
            assert(out@ =~= start + patch_arms(style, key@, name@, vv, vv.take(i + 1)));
        }
        i = i + 1;
    }
    assert(vv.take(e.variants@.len() as int) =~= vv);
    out.append("#[expect(unreachable_patterns, reason = \"wasm-only variants may be skipped\")]\n_ => { _set(self.to_js()); }\n}\n}\n");
    assert(out@ =~= begin + tagged_patch_js_text(style, key@, ev));
}

/// An externally tagged enum's `patch_js` method (see
/// [`tagged_patch_js_text`]).
pub fn ext_tagged_patch_js(e: &Enum) -> (r: String)
    ensures
        r@ == ext_patch_js_text(enum_view(*e)),
{
    let mut out = String::new();
    proof {
        reveal_strlit("");
    }
    push_tagged_patch_js(&mut out, TagStyle::External, "", e);
    assert(""@ =~= Seq::<char>::empty());
    out
}

/// An internally tagged enum's `patch_js` method (see
/// [`tagged_patch_js_text`]).
pub fn int_tagged_patch_js(e: &Enum) -> (r: String)
    ensures
        r@ == int_patch_js_text(enum_view(*e)),
{
    let mut out = String::new();
    proof {
        reveal_strlit("");
    }
    push_tagged_patch_js(&mut out, TagStyle::Internal, "", e);
    assert(""@ =~= Seq::<char>::empty());
    out
}

/// An adjacently tagged enum's `patch_js` method, whose content field is
/// `content_key` (see [`tagged_patch_js_text`]).
pub fn adj_tagged_patch_js(e: &Enum, content_key: &str) -> (r: String)
    ensures
        r@ == adj_patch_js_text(enum_view(*e), content_key@),
{
    let mut out = String::new();
    push_tagged_patch_js(&mut out, TagStyle::Adjacent, content_key, e);
    out
}

// ---------------------------------------------------------------------------
// Internally and adjacently tagged enums: `from_js`
// ---------------------------------------------------------------------------

/// The arm of an internally tagged variant: the fields are in the tagged
/// object itself. A variant of several positional fields cannot be
/// internally tagged and has no arm.
pub open spec fn int_arm(name: Seq<char>, v: VariantView, idx: nat) -> Seq<char> {
    match v.kind {
        VariantKindView::Unit => idx_i32(idx) + " => return Ok("@ + name + "::"@ + v.ident + "),\n"@,
        VariantKindView::Unnamed(ts) => if ts.len() == 1 {
            int_single_arm(name, v.ident, ts[0], idx)
        } else {
            Seq::empty()
        },
        VariantKindView::Named(fs) => int_named_arm(name, v.ident, fs, idx),
    }
}

/// The internally tagged arm of a newtype variant: the whole value is
/// its field.
pub open spec fn int_single_arm(name: Seq<char>, vname: Seq<char>, t: Seq<char>, idx: nat) -> Seq<char> {
    idx_i32(idx) + " => { let inner = <"@ + t
        + " as ::typewire::Typewire>::from_js(value)?; return Ok("@ + name + "::"@ + vname
        + "(inner)); }\n"@
}

/// The internally tagged arm of a variant with named fields, destructured
/// from the value itself.
pub open spec fn int_named_arm(name: Seq<char>, vname: Seq<char>, fs: Seq<FieldView>, idx: nat) -> Seq<char> {
    idx_i32(idx) + " => {\n"@ + (if any_active(fs) {
        "let __arr = __tw_"@ + name + "_destruct_"@ + vname + "(&value);\n"@
    } else {
        Seq::empty()
    }) + destruct_bindings(fs) + "return Ok("@ + name + "::"@ + vname + " { "@ + field_names(fs)
        + "}); }\n"@
}

/// The arm of an adjacently tagged variant: the payload is the content
/// field, read by the type's content helper; the arm's value is the
/// result.
pub open spec fn adj_arm(name: Seq<char>, v: VariantView, idx: nat) -> Seq<char> {
    match v.kind {
        VariantKindView::Unit => idx_i32(idx) + " => Ok("@ + name + "::"@ + v.ident + "),\n"@,
        VariantKindView::Unnamed(ts) => if ts.len() == 1 {
            adj_single_arm(name, v.ident, ts[0], idx)
        } else {
            adj_tuple_arm(name, v.ident, ts, idx)
        },
        VariantKindView::Named(fs) => adj_named_arm(name, v.ident, fs, idx),
    }
}

/// The adjacently tagged arm of a newtype variant.
pub open spec fn adj_single_arm(name: Seq<char>, vname: Seq<char>, t: Seq<char>, idx: nat) -> Seq<char> {
    idx_i32(idx) + " => { let __c = __tw_"@ + name + "_content(&value); let inner = <"@ + t
        + " as ::typewire::Typewire>::from_js(__c)?; Ok("@ + name + "::"@ + vname + "(inner)) }\n"@
}

/// The adjacently tagged arm of a variant with several positional fields.
pub open spec fn adj_tuple_arm(name: Seq<char>, vname: Seq<char>, ts: Seq<Seq<char>>, idx: nat) -> Seq<char> {
    idx_i32(idx) + " => { let __c = __tw_"@ + name
        + "_content(&value); let __arr: ::js_sys::Array = __c.try_into().map_err(|_| ::typewire::Error::UnexpectedType { expected: \"array\" })?;\n"@
        + elem_bindings("__f"@, "__arr"@, ts) + "Ok("@ + name + "::"@ + vname + "("@ + numbered(
        "__f"@,
        ts.len(),
    ) + ")) }\n"@
}

/// The adjacently tagged arm of a variant with named fields, destructured
/// from the content.
pub open spec fn adj_named_arm(name: Seq<char>, vname: Seq<char>, fs: Seq<FieldView>, idx: nat) -> Seq<char> {
    idx_i32(idx) + " => {\n"@ + (if any_active(fs) {
        "let __content = __tw_"@ + name + "_content(&value);\nlet __arr = __tw_"@ + name
            + "_destruct_"@ + vname + "(&__content);\n"@
    } else {
        Seq::empty()
    }) + destruct_bindings(fs) + "Ok("@ + name + "::"@ + vname + " { "@ + field_names(fs)
        + "}) }\n"@
}

/// The tag field's string read by reflection.
pub open spec fn tag_read(tag: Seq<char>) -> Seq<char> {
    "::js_sys::Reflect::get(&value, &::wasm_bindgen::JsValue::from_str("@ + lit(tag)
        + ")).ok().and_then(|v| v.as_string())"@
}

/// The body of a `from_js` of an enum with only unit variants whose tag
/// is the field `tag`: the tag string is matched against every wire name;
/// with fallbacks, a missing or unknown tag goes on to the untagged
/// variants and the catch-all, else it fails with `MissingField` or
/// `UnknownVariant`.
pub open spec fn unit_tag_from_js_text(e: EnumView, tag: Seq<char>) -> Seq<char> {
    let name = e.ident;
    let vs = e.variants;
    if any_untagged(vs) || other_variant(vs) is Some {
        "let __tag_val = "@ + tag_read(tag)
            + ";\nif let Some(ref tag_val) = __tag_val { match tag_val.as_str() {\n"@ + string_arms(
            name,
            vs,
            "return "@,
        ) + "_ => {}\n} }\n"@ + untagged_fallbacks(name, vs) + final_err_text(name, vs)
    } else {
        "let tag_val = "@ + tag_read(tag) + ".ok_or(::typewire::Error::MissingField { field: "@ + lit(
            tag,
        ) + " })?;\nmatch tag_val.as_str() {\n"@ + string_arms(name, vs, ""@)
            + "other => Err(::typewire::Error::UnknownVariant { variant: other.into() }),\n}\n"@
    }
}

/// The error for a tag that selected no variant: `UnknownVariant` with
/// the tag string, or `MissingField` with the tag's name.
pub open spec fn tag_error(tag: Seq<char>) -> Seq<char> {
    "{ let __tag_str = "@ + tag_read(tag)
        + ";\nmatch __tag_str { Some(t) => Err(::typewire::Error::UnknownVariant { variant: t }), None => Err(::typewire::Error::MissingField { field: "@
        + lit(tag) + " }), } }\n"@
}

/// The body of an internally tagged enum's `from_js` (tag field `tag`):
/// only unit variants are matched by tag string; otherwise the dispatch
/// index selects the variant, then the untagged variants and the
/// catch-all are tried, or the tag is reported.
pub open spec fn int_from_js_text(e: EnumView, tag: Seq<char>) -> Seq<char> {
    let name = e.ident;
    let vs = e.variants;
    if flag_set(e.flags, 2u8) {
        unit_tag_from_js_text(e, tag)
    } else if any_untagged(vs) || other_variant(vs) is Some {
        "match __tw_"@ + name + "_dispatch(&value) {\n"@ + dispatch_arms(TagStyle::Internal, name, vs)
            + "_ => {}\n}\n"@ + untagged_fallbacks(name, vs) + final_err_text(name, vs)
    } else {
        "match __tw_"@ + name + "_dispatch(&value) {\n"@ + dispatch_arms(TagStyle::Internal, name, vs)
            + "_ => {}\n}\n"@ + tag_error(tag)
    }
}

/// The body of an adjacently tagged enum's `from_js` (tag field `tag`):
/// only unit variants are matched by tag string; otherwise the dispatch
/// index selects the variant, then the untagged variants and the
/// catch-all are tried, or the tag is reported.
pub open spec fn adj_from_js_text(e: EnumView, tag: Seq<char>) -> Seq<char> {
    let name = e.ident;
    let vs = e.variants;
    if flag_set(e.flags, 2u8) {
        unit_tag_from_js_text(e, tag)
    } else if any_untagged(vs) || other_variant(vs) is Some {
        "let __idx = __tw_"@ + name + "_dispatch(&value);\nmatch __idx {\n"@ + dispatch_arms(
            TagStyle::Adjacent,
            name,
            vs,
        ) + "_ => {}\n}\n"@ + untagged_fallbacks(name, vs) + final_err_text(name, vs)
    } else {
        "match __tw_"@ + name + "_dispatch(&value) {\n"@ + dispatch_arms(TagStyle::Adjacent, name, vs)
            + "_ => "@ + tag_error(tag) + "}\n"@
    }
}

/// Appends the internally tagged arm of a variant with named fields.
#[verifier::spinoff_prover]
#[verifier::rlimit(80)]
fn push_int_named_arm(out: &mut String, name: &str, vname: &str, fs: &Vec<Field>, idx: usize)
    ensures
        final(out)@ == old(out)@ + int_named_arm(name@, vname@, fields_view(fs@), idx as nat),
{
    let ghost start = out@;
    push_i32(out, idx);
    out.append(" => {\n");
    if fields_any_active(fs) {
        out.append("let __arr = __tw_");
        out.append(name);
        out.append("_destruct_");
        out.append(vname);
        out.append("(&value);\n");
    }
    push_destruct_bindings(out, fs);
    out.append("return Ok(");
    out.append(name);
    out.append("::");
    out.append(vname);
    out.append(" { ");
    push_field_names(out, fs);
    out.append("}); }\n");
    assert(out@ =~= start + int_named_arm(name@, vname@, fields_view(fs@), idx as nat));
}

/// Appends the arm of an internally tagged variant.
#[verifier::spinoff_prover]
#[verifier::rlimit(80)]
fn push_int_arm(out: &mut String, name: &str, v: &Variant, idx: usize)
    ensures
        final(out)@ == old(out)@ + int_arm(name@, variant_view(*v), idx as nat),
{
    let ghost start = out@;
    let ghost vv = variant_view(*v);
    match &v.kind {
        VariantKind::Unit => {
            push_i32(out, idx);
            out.append(" => return Ok(");
            out.append(name);
            out.append("::");
            out.append(v.ident.as_str());
            out.append("),\n");
            assert(out@ =~= start + int_arm(name@, vv, idx as nat));
        },
        VariantKind::Unnamed(ts) => {
            if ts.len() == 1 {
                push_i32(out, idx);
                out.append(" => { let inner = <");
                out.append(ts[0].as_str());
                out.append(" as ::typewire::Typewire>::from_js(value)?; return Ok(");
                out.append(name);
                out.append("::");
                out.append(v.ident.as_str());
                out.append("(inner)); }\n");
                assert(out@ =~= start + int_single_arm(name@, vv.ident, strings_view(ts@)[0], idx as nat));
            }
            assert(out@ =~= start + int_arm(name@, vv, idx as nat));
        },
        VariantKind::Named(fs) => {
            push_int_named_arm(out, name, v.ident.as_str(), fs, idx);
            assert(out@ =~= start + int_arm(name@, vv, idx as nat));
        },
    }
}

/// Appends the adjacently tagged arm of a variant with several positional
/// fields.
#[verifier::spinoff_prover]
#[verifier::rlimit(80)]
fn push_adj_tuple_arm(out: &mut String, name: &str, vname: &str, ts: &Vec<String>, idx: usize)
    ensures
        final(out)@ == old(out)@ + adj_tuple_arm(name@, vname@, strings_view(ts@), idx as nat),
{
    let ghost start = out@;
    push_i32(out, idx);
    out.append(" => { let __c = __tw_");
    out.append(name);
    out.append("_content(&value); let __arr: ::js_sys::Array = __c.try_into().map_err(|_| ::typewire::Error::UnexpectedType { expected: \"array\" })?;\n");
    push_elem_bindings(out, "__f", "__arr", ts);
    out.append("Ok(");
    out.append(name);
    out.append("::");
    out.append(vname);
    out.append("(");
    push_numbered(out, "__f", ts.len());
    out.append(")) }\n");
    assert(out@ =~= start + adj_tuple_arm(name@, vname@, strings_view(ts@), idx as nat));
}

/// Appends the adjacently tagged arm of a variant with named fields.
#[verifier::spinoff_prover]
#[verifier::rlimit(80)]
fn push_adj_named_arm(out: &mut String, name: &str, vname: &str, fs: &Vec<Field>, idx: usize)
    ensures
        final(out)@ == old(out)@ + adj_named_arm(name@, vname@, fields_view(fs@), idx as nat),
{
    let ghost start = out@;
    push_i32(out, idx);
    out.append(" => {\n");
    if fields_any_active(fs) {
        out.append("let __content = __tw_");
        out.append(name);
        out.append("_content(&value);\nlet __arr = __tw_");
        out.append(name);
        out.append("_destruct_");
        out.append(vname);
        out.append("(&__content);\n");
    }
    push_destruct_bindings(out, fs);
    out.append("Ok(");
    out.append(name);
    out.append("::");
    out.append(vname);
    out.append(" { ");
    push_field_names(out, fs);
    out.append("}) }\n");
    assert(out@ =~= start + adj_named_arm(name@, vname@, fields_view(fs@), idx as nat));
}

/// Appends the arm of an adjacently tagged variant.
#[verifier::spinoff_prover]
#[verifier::rlimit(80)]
fn push_adj_arm(out: &mut String, name: &str, v: &Variant, idx: usize)
    ensures
        final(out)@ == old(out)@ + adj_arm(name@, variant_view(*v), idx as nat),
{
    let ghost start = out@;
    let ghost vv = variant_view(*v);
    match &v.kind {
        VariantKind::Unit => {
            push_i32(out, idx);
            out.append(" => Ok(");
            out.append(name);
            out.append("::");
            out.append(v.ident.as_str());
            out.append("),\n");
            assert(out@ =~= start + adj_arm(name@, vv, idx as nat));
        },
        VariantKind::Unnamed(ts) => {
            if ts.len() == 1 {
                push_i32(out, idx);
                out.append(" => { let __c = __tw_");
                out.append(name);
                out.append("_content(&value); let inner = <");
                out.append(ts[0].as_str());
                out.append(" as ::typewire::Typewire>::from_js(__c)?; Ok(");
                out.append(name);
                out.append("::");
                out.append(v.ident.as_str());
                out.append("(inner)) }\n");
                assert(out@ =~= start + adj_single_arm(name@, vv.ident, strings_view(ts@)[0], idx as nat));
            } else {
                push_adj_tuple_arm(out, name, v.ident.as_str(), ts, idx);
            }
            assert(out@ =~= start + adj_arm(name@, vv, idx as nat));
        },
        VariantKind::Named(fs) => {
            push_adj_named_arm(out, name, v.ident.as_str(), fs, idx);
            assert(out@ =~= start + adj_arm(name@, vv, idx as nat));
        },
    }
}

/// Appends the tag field's string read by reflection.
fn push_tag_read(out: &mut String, tag: &str)
    ensures
        final(out)@ == old(out)@ + tag_read(tag@),
{
    let ghost start = out@;
    out.append("::js_sys::Reflect::get(&value, &::wasm_bindgen::JsValue::from_str(");
    push_lit(out, tag);
    out.append(")).ok().and_then(|v| v.as_string())");
    assert(out@ =~= start + tag_read(tag@));
}

/// Appends the error for a tag that selected no variant.
fn push_tag_error(out: &mut String, tag: &str)
    ensures
        final(out)@ == old(out)@ + tag_error(tag@),
{
    let ghost start = out@;
    out.append("{ let __tag_str = ");
    push_tag_read(out, tag);
    out.append(";\nmatch __tag_str { Some(t) => Err(::typewire::Error::UnknownVariant { variant: t }), None => Err(::typewire::Error::MissingField { field: ");
    push_lit(out, tag);
    out.append(" }), } }\n");
    assert(out@ =~= start + tag_error(tag@));
}

/// Appends the `from_js` body of an enum with only unit variants whose
/// tag is the field `tag`.
#[verifier::spinoff_prover]
#[verifier::rlimit(80)]
fn push_unit_tag_from_js(out: &mut String, e: &Enum, tag: &str)
    ensures
        final(out)@ == old(out)@ + unit_tag_from_js_text(enum_view(*e), tag@),
{
    let ghost start = out@;
    let ghost ev = enum_view(*e);
    let name = e.ident.as_str();
    let mut fallbacks = String::new();
    let any = push_untagged_fallbacks(&mut fallbacks, name, &e.variants);
    let mut final_err = String::new();
    let has_other = push_final_err(&mut final_err, name, &e.variants);
    if any || has_other {
        out.append("let __tag_val = ");
        push_tag_read(out, tag);
        out.append(";\nif let Some(ref tag_val) = __tag_val { match tag_val.as_str() {\n");
        push_string_arms(out, name, &e.variants, "return ");
        out.append("_ => {}\n} }\n");
        out.append(fallbacks.as_str());
        out.append(final_err.as_str());
    } else {
        out.append("let tag_val = ");
        push_tag_read(out, tag);
        out.append(".ok_or(::typewire::Error::MissingField { field: ");
        push_lit(out, tag);
        out.append(" })?;\nmatch tag_val.as_str() {\n");
        push_string_arms(out, name, &e.variants, "");
        out.append("other => Err(::typewire::Error::UnknownVariant { variant: other.into() }),\n}\n");
    }
    assert(out@ =~= start + unit_tag_from_js_text(ev, tag@));
}

/// The body of an internally tagged enum's `from_js` (see
/// [`int_from_js_text`]).
#[verifier::spinoff_prover]
#[verifier::rlimit(80)]
pub fn int_tagged_from_js(e: &Enum, tag: &str) -> (r: String)
    ensures
        r@ == int_from_js_text(enum_view(*e), tag@),
{
    let ghost ev = enum_view(*e);
    let mut out = String::new();
    if e.flags.contains(crate::flags::EnumFlags::ALL_UNIT) {
        push_unit_tag_from_js(&mut out, e, tag);
        return out;
    }
    let name = e.ident.as_str();
    let mut fallbacks = String::new();
    let any = push_untagged_fallbacks(&mut fallbacks, name, &e.variants);
    let mut final_err = String::new();
    let has_other = push_final_err(&mut final_err, name, &e.variants);
    out.append("match __tw_");
    out.append(name);
    out.append("_dispatch(&value) {\n");
    push_dispatch_arms(&mut out, TagStyle::Internal, name, &e.variants);
    out.append("_ => {}\n}\n");
    if any || has_other {
        out.append(fallbacks.as_str());
        out.append(final_err.as_str());
    } else {
        push_tag_error(&mut out, tag);
    }
    assert(out@ =~= int_from_js_text(ev, tag@));
    out
}

/// The body of an adjacently tagged enum's `from_js` (see
/// [`adj_from_js_text`]).
#[verifier::spinoff_prover]
#[verifier::rlimit(80)]
pub fn adj_tagged_from_js(e: &Enum, tag: &str) -> (r: String)
    ensures
        r@ == adj_from_js_text(enum_view(*e), tag@),
{
    let ghost ev = enum_view(*e);
    let mut out = String::new();
    if e.flags.contains(crate::flags::EnumFlags::ALL_UNIT) {
        push_unit_tag_from_js(&mut out, e, tag);
        return out;
    }
    let name = e.ident.as_str();
    let mut fallbacks = String::new();
    let any = push_untagged_fallbacks(&mut fallbacks, name, &e.variants);
    let mut final_err = String::new();
    let has_other = push_final_err(&mut final_err, name, &e.variants);
    if any || has_other {
        out.append("let __idx = __tw_");
        out.append(name);
        out.append("_dispatch(&value);\nmatch __idx {\n");
        push_dispatch_arms(&mut out, TagStyle::Adjacent, name, &e.variants);
        out.append("_ => {}\n}\n");
        out.append(fallbacks.as_str());
        out.append(final_err.as_str());
    } else {
        out.append("match __tw_");
        out.append(name);
        out.append("_dispatch(&value) {\n");
        push_dispatch_arms(&mut out, TagStyle::Adjacent, name, &e.variants);
        out.append("_ => ");
        push_tag_error(&mut out, tag);
        out.append("}\n");
    }
    assert(out@ =~= adj_from_js_text(ev, tag@));
    out
}


// ---------------------------------------------------------------------------
// JavaScript constructors of enum variants
// ---------------------------------------------------------------------------

/// The parameter list `p0,p1,...` of `n` parameters.
pub open spec fn js_params(n: nat) -> Seq<char>
    decreases n,
{
    if n == 0 {
        Seq::empty()
    } else if n == 1 {
        "p0"@
    } else {
        js_params((n - 1) as nat) + ",p"@ + decimal((n - 1) as nat)
    }
}

/// The Rust parameter list of `n` JavaScript values `p0`, `p1`, ...
pub open spec fn extern_params(n: nat) -> Seq<char>
    decreases n,
{
    if n == 0 {
        Seq::empty()
    } else if n == 1 {
        "p0: ::wasm_bindgen::JsValue"@
    } else {
        extern_params((n - 1) as nat) + ", p"@ + decimal((n - 1) as nat)
            + ": ::wasm_bindgen::JsValue"@
    }
}

/// The number of fields that are serialized.
pub open spec fn ser_count(fs: Seq<FieldView>) -> nat
    decreases fs.len(),
{
    if fs.len() == 0 {
        0
    } else {
        ser_count(fs.drop_last()) + if flag_set(fs.last().flags, 1u8) {
            0nat
        } else {
            1nat
        }
    }
}

/// The statement putting serialized field `f`, the parameter `p<i>`, into
/// the object `o`: merged for a flattened field, left out when it is
/// `undefined` for a field with `skip_serializing_if`, else set under its
/// wire name.
pub open spec fn js_assign(f: FieldView, i: nat) -> Seq<char> {
    let p = "p"@ + decimal(i);
    if flag_set(f.flags, 4u8) {
        "Object.assign(o,"@ + p + ");"@
    } else if f.skip_serializing_if is Some {
        "if("@ + p + "!==undefined)o[\""@ + f.wire_name + "\"]="@ + p + ";"@
    } else {
        "o[\""@ + f.wire_name + "\"]="@ + p + ";"@
    }
}

/// The statements putting the serialized fields into `o`, numbered in
/// order.
pub open spec fn js_assigns(fs: Seq<FieldView>) -> Seq<char>
    decreases fs.len(),
{
    if fs.len() == 0 {
        Seq::empty()
    } else {
        js_assigns(fs.drop_last()) + if flag_set(fs.last().flags, 1u8) {
            Seq::empty()
        } else {
            js_assign(fs.last(), ser_count(fs.drop_last()))
        }
    }
}

/// The JavaScript constructor of a serialized variant (none where the
/// variant needs none) and, in the second place, the Rust declaration of
/// it:
/// - internally tagged: an object holding the tag, and the named fields;
///   a newtype variant has no constructor;
/// - adjacently tagged: an object with the tag and the content (the named
///   fields' object, or the one content value);
/// - externally tagged: an object with the content under the wire name; a
///   unit variant is a plain string and has no constructor;
/// - untagged: the named fields' object, when there is a serialized field.
pub open spec fn variant_construct(t: TaggingView, tn: Seq<char>, v: VariantView) -> (Seq<char>, Seq<char>) {
    let f = "__tw_"@ + tn + "_construct_"@ + v.ident;
    let tv = v.wire_name;
    let unit_decl = "fn "@ + f + "() -> ::js_sys::Object;\n"@;
    let c_decl = "fn "@ + f + "(c: ::wasm_bindgen::JsValue) -> ::js_sys::Object;\n"@;
    match v.kind {
        VariantKindView::Unit => match t {
            TaggingView::Internal { tag } => (
                "export function "@ + f + "(){return{\""@ + tag + "\":\""@ + tv + "\"}}\n"@,
                unit_decl,
            ),
            TaggingView::Adjacent { tag, content } => (
                "export function "@ + f + "(){return{\""@ + tag + "\":\""@ + tv + "\"}}\n"@,
                unit_decl,
            ),
            _ => (Seq::empty(), Seq::empty()),
        },
        VariantKindView::Named(fs) => {
            let n = ser_count(fs);
            let decl = "fn "@ + f + "("@ + extern_params(n) + ") -> ::js_sys::Object;\n"@;
            let head = "export function "@ + f + "("@ + js_params(n) + "){const o="@;
            match t {
                TaggingView::Internal { tag } => (
                    head + "{\""@ + tag + "\":\""@ + tv + "\"};"@ + js_assigns(fs) + "return o}\n"@,
                    decl,
                ),
                TaggingView::Adjacent { tag, content } => (
                    head + "{};"@ + js_assigns(fs) + "return{\""@ + tag + "\":\""@ + tv + "\",\""@
                        + content + "\":o}}\n"@,
                    decl,
                ),
                TaggingView::External => (
                    head + "{};"@ + js_assigns(fs) + "return{\""@ + tv + "\":o}}\n"@,
                    decl,
                ),
                TaggingView::Untagged => if n == 0 {
                    (Seq::empty(), Seq::empty())
                } else {
                    (head + "{};"@ + js_assigns(fs) + "return o}\n"@, decl)
                },
            }
        },
        VariantKindView::Unnamed(ts) => match t {
            TaggingView::Adjacent { tag, content } => (
                "export function "@ + f + "(c){return{\""@ + tag + "\":\""@ + tv + "\",\""@ + content
                    + "\":c}}\n"@,
                c_decl,
            ),
            TaggingView::External => (
                "export function "@ + f + "(c){return{\""@ + tv + "\":c}}\n"@,
                c_decl,
            ),
            _ => (Seq::empty(), Seq::empty()),
        },
    }
}

/// The constructors and declarations of the serialized variants, in order.
pub open spec fn variant_constructs(t: TaggingView, tn: Seq<char>, vs: Seq<VariantView>) -> (Seq<char>, Seq<char>)
    decreases vs.len(),
{
    if vs.len() == 0 {
        (Seq::empty(), Seq::empty())
    } else {
        let r = variant_constructs(t, tn, vs.drop_last());
        if flag_set(vs.last().flags, 1u8) {
            r
        } else {
            let c = variant_construct(t, tn, vs.last());
            (r.0 + c.0, r.1 + c.1)
        }
    }
}

/// Appends the parameter list `p0,p1,...` and its Rust declaration.
fn push_params(js: &mut String, decls: &mut String, n: usize)
    ensures
        final(js)@ == old(js)@ + js_params(n as nat),
        final(decls)@ == old(decls)@ + extern_params(n as nat),
{
    let ghost js0 = js@;
    let ghost d0 = decls@;
    if n == 0 {
        return;
    }
    js.append("p0");
    decls.append("p0: ::wasm_bindgen::JsValue");
    let mut i: usize = 1;
    while i < n
        invariant
            1 <= i <= n,
            js@ == js0 + js_params(i as nat),
            decls@ == d0 + extern_params(i as nat),
        decreases n - i,
    {
        js.append(",p");
        push_decimal(js, i);
        decls.append(", p");
        push_decimal(decls, i);
        decls.append(": ::wasm_bindgen::JsValue");
        assert(js@ =~= js0 + js_params((i + 1) as nat));
        assert(decls@ =~= d0 + extern_params((i + 1) as nat));
        i = i + 1;
    }
}

/// Appends the statement putting serialized field `f`, parameter `p<n>`,
/// into `o`.
fn push_js_assign(js: &mut String, f: &Field, n: usize)
    ensures
        final(js)@ == old(js)@ + js_assign(field_view(*f), n as nat),
{
    let ghost before = js@;
    if f.flags.contains(crate::flags::FieldFlags::FLATTEN) {
        js.append("Object.assign(o,");
        js.append("p");
        push_decimal(js, n);
        js.append(");");
    } else if f.skip_serializing_if.is_some() {
        js.append("if(");
        js.append("p");
        push_decimal(js, n);
        js.append("!==undefined)o[\"");
        js.append(f.wire_name.as_str());
        js.append("\"]=");
        js.append("p");
        push_decimal(js, n);
        js.append(";");
    } else {
        js.append("o[\"");
        js.append(f.wire_name.as_str());
        js.append("\"]=");
        js.append("p");
        push_decimal(js, n);
        js.append(";");
    }
    assert(js@ =~= before + js_assign(field_view(*f), n as nat));
}

/// Appends the statements putting the serialized fields into `o`; gives
/// the number of serialized fields.
fn push_js_assigns(js: &mut String, fields: &Vec<Field>) -> (n: usize)
    ensures
        final(js)@ == old(js)@ + js_assigns(fields_view(fields@)),
        n == ser_count(fields_view(fields@)),
{
    let ghost fv = fields_view(fields@);
    let ghost start = js@;
    proof {
        lemma_fields_view(fields@);
    }
    assert(fv.take(0) =~= Seq::<FieldView>::empty());
    let mut i: usize = 0;
    let mut n: usize = 0;
    while i < fields.len()
        invariant
            i <= fields@.len(),
            n <= i,
            fv.len() == fields@.len(),
            forall|j: int| 0 <= j < fv.len() ==> #[trigger] fv[j] == field_view(fields@[j]),
            js@ == start + js_assigns(fv.take(i as int)),
            n == ser_count(fv.take(i as int)),
        decreases fields@.len() - i,
    {
        let f = &fields[i];
        assert(fv.take(i + 1).drop_last() =~= fv.take(i as int));
        if !f.flags.contains(crate::flags::FieldFlags::SKIP_SER) {
            push_js_assign(js, f, n);
            n = n + 1;
        }
        assert(js@ =~= start + js_assigns(fv.take(i + 1)));
        i = i + 1;
    }
    assert(fv.take(fields@.len() as int) =~= fv);
    n
}

/// Appends the constructor of a variant with named fields and its
/// declaration.
#[verifier::spinoff_prover]
#[verifier::rlimit(80)]
fn push_named_construct(js: &mut String, decls: &mut String, tagging: &Tagging, tn: &str, v: &Variant, fs: &Vec<Field>)
    requires
        variant_view(*v).kind == VariantKindView::Named(fields_view(fs@)),
    ensures
        final(js)@ == old(js)@ + variant_construct(tagging_view(*tagging), tn@, variant_view(*v)).0,
        final(decls)@ == old(decls)@ + variant_construct(tagging_view(*tagging), tn@, variant_view(*v)).1,
{
    let ghost js0 = js@;
    let ghost d0 = decls@;
    let ghost vv = variant_view(*v);
    let mut f = String::from_str("__tw_");
    f.append(tn);
    f.append("_construct_");
    f.append(v.ident.as_str());
    assert(f@ =~= "__tw_"@ + tn@ + "_construct_"@ + vv.ident);
    let mut body = String::new();
    let n = push_js_assigns(&mut body, fs);
    if matches!(tagging, Tagging::Untagged) && n == 0 {
        assert(variant_construct(tagging_view(*tagging), tn@, vv) == (Seq::<char>::empty(), Seq::<char>::empty()));
        return;
    }
    js.append("export function ");
    js.append(f.as_str());
    js.append("(");
    decls.append("fn ");
    decls.append(f.as_str());
    decls.append("(");
    push_params(js, decls, n);
    js.append("){const o=");
    decls.append(") -> ::js_sys::Object;\n");
    match tagging {
        Tagging::Internal { tag } => {
            js.append("{\"");
            js.append(tag.as_str());
            js.append("\":\"");
            js.append(v.wire_name.as_str());
            js.append("\"};");
            js.append(body.as_str());
            js.append("return o}\n");
        },
        Tagging::Adjacent { tag, content } => {
            js.append("{};");
            js.append(body.as_str());
            js.append("return{\"");
            js.append(tag.as_str());
            js.append("\":\"");
            js.append(v.wire_name.as_str());
            js.append("\",\"");
            js.append(content.as_str());
            js.append("\":o}}\n");
        },
        Tagging::External => {
            js.append("{};");
            js.append(body.as_str());
            js.append("return{\"");
            js.append(v.wire_name.as_str());
            js.append("\":o}}\n");
        },
        Tagging::Untagged => {
            js.append("{};");
            js.append(body.as_str());
            js.append("return o}\n");
        },
    }
    assert(js@ =~= js0 + variant_construct(tagging_view(*tagging), tn@, vv).0);
    assert(decls@ =~= d0 + variant_construct(tagging_view(*tagging), tn@, vv).1);
}

/// Appends the constructor of a serialized variant and its declaration.
#[verifier::spinoff_prover]
#[verifier::rlimit(80)]
fn push_variant_construct(js: &mut String, decls: &mut String, tagging: &Tagging, tn: &str, v: &Variant)
    ensures
        final(js)@ == old(js)@ + variant_construct(tagging_view(*tagging), tn@, variant_view(*v)).0,
        final(decls)@ == old(decls)@ + variant_construct(tagging_view(*tagging), tn@, variant_view(*v)).1,
{
    let ghost js0 = js@;
    let ghost d0 = decls@;
    let ghost vv = variant_view(*v);
    let ghost t = tagging_view(*tagging);
    match &v.kind {
        VariantKind::Named(fs) => {
            push_named_construct(js, decls, tagging, tn, v, fs);
            return;
        },
        _ => {},
    }
    let mut f = String::from_str("__tw_");
    f.append(tn);
    f.append("_construct_");
    f.append(v.ident.as_str());
    assert(f@ =~= "__tw_"@ + tn@ + "_construct_"@ + vv.ident);
    match (&v.kind, tagging) {
        (VariantKind::Unit, Tagging::Internal { tag }) | (VariantKind::Unit, Tagging::Adjacent { tag, .. }) => {
            js.append("export function ");
            js.append(f.as_str());
            js.append("(){return{\"");
            js.append(tag.as_str());
            js.append("\":\"");
            js.append(v.wire_name.as_str());
            js.append("\"}}\n");
            decls.append("fn ");
            decls.append(f.as_str());
            decls.append("() -> ::js_sys::Object;\n");
        },
        (VariantKind::Unnamed(_), Tagging::Adjacent { tag, content }) => {
            js.append("export function ");
            js.append(f.as_str());
            js.append("(c){return{\"");
            js.append(tag.as_str());
            js.append("\":\"");
            js.append(v.wire_name.as_str());
            js.append("\",\"");
            js.append(content.as_str());
            js.append("\":c}}\n");
            decls.append("fn ");
            decls.append(f.as_str());
            decls.append("(c: ::wasm_bindgen::JsValue) -> ::js_sys::Object;\n");
        },
        (VariantKind::Unnamed(_), Tagging::External) => {
            js.append("export function ");
            js.append(f.as_str());
            js.append("(c){return{\"");
            js.append(v.wire_name.as_str());
            js.append("\":c}}\n");
            decls.append("fn ");
            decls.append(f.as_str());
            decls.append("(c: ::wasm_bindgen::JsValue) -> ::js_sys::Object;\n");
        },
        _ => {},
    }
    assert(js@ =~= js0 + variant_construct(t, tn@, vv).0);
    assert(decls@ =~= d0 + variant_construct(t, tn@, vv).1);
}

/// Appends the JavaScript constructors of an enum's serialized variants to
/// `js` and their Rust declarations to `decls` (see
/// [`variant_construct`]).
pub fn js_enum_variant_constructs(js: &mut String, decls: &mut String, ty_name: &str, variants: &Vec<Variant>, tagging: &Tagging)
    ensures
        final(js)@ == old(js)@ + variant_constructs(tagging_view(*tagging), ty_name@, variants_view(variants@)).0,
        final(decls)@ == old(decls)@ + variant_constructs(tagging_view(*tagging), ty_name@, variants_view(variants@)).1,
{
    let ghost vv = variants_view(variants@);
    let ghost t = tagging_view(*tagging);
    let ghost js0 = js@;
    let ghost d0 = decls@;
    proof {
        lemma_variants_view(variants@);
    }
    assert(vv.take(0) =~= Seq::<VariantView>::empty());
    let mut i: usize = 0;
    while i < variants.len()
        invariant
            i <= variants@.len(),
            vv.len() == variants@.len(),
            t == tagging_view(*tagging),
            forall|j: int| 0 <= j < vv.len() ==> #[trigger] vv[j] == variant_view(variants@[j]),
            js@ == js0 + variant_constructs(t, ty_name@, vv.take(i as int)).0,
            decls@ == d0 + variant_constructs(t, ty_name@, vv.take(i as int)).1,
        decreases variants@.len() - i,
    {
        let v = &variants[i];
        assert(vv.take(i + 1).drop_last() =~= vv.take(i as int));
        if !v.flags.contains(crate::flags::VariantFlags::SKIP_SER) {
            push_variant_construct(js, decls, tagging, ty_name, v);
        }
        assert(js@ =~= js0 + variant_constructs(t, ty_name@, vv.take(i + 1)).0);
        assert(decls@ =~= d0 + variant_constructs(t, ty_name@, vv.take(i + 1)).1);
        i = i + 1;
    }
    assert(vv.take(variants@.len() as int) =~= vv);
}


// ---------------------------------------------------------------------------
// Laws of the generated code
// ---------------------------------------------------------------------------

/// A field skipped in deserialization is bound to its default, whether it
/// is read from a destructured object (at any slot) or by key.
pub proof fn lemma_skip_de_takes_default(f: FieldView, idx: nat)
    requires
        flag_set(f.flags, 2u8),
    ensures
        destruct_binding(f, idx) == "let "@ + f.ident + " = "@ + default_text(f.default) + ";\n"@,
        obj_binding(f) == "let "@ + f.ident + " = "@ + default_text(f.default) + ";\n"@,
{
}

/// Fields read from a destructured object read distinct slots, in field
/// order: a field with a slot reads one below the slot of any field after
/// it, and below the number of slots.
pub proof fn lemma_slots_in_order(fs: Seq<FieldView>, i: int, j: int)
    requires
        0 <= i < j <= fs.len(),
        !both_skipped(fs[i].flags),
    ensures
        slots(fs.take(i)) < slots(fs.take(j)),
        slots(fs.take(i)) < slots(fs),
{
    lemma_slots_grow(fs, i, j);
    lemma_slots_grow(fs, i, fs.len() as int);
    assert(fs.take(fs.len() as int) =~= fs);
}

proof fn lemma_slots_grow(fs: Seq<FieldView>, i: int, j: int)
    requires
        0 <= i < j <= fs.len(),
        !both_skipped(fs[i].flags),
    ensures
        slots(fs.take(i)) < slots(fs.take(j)),
    decreases j - i,
{
    if j == i + 1 {
        assert(fs.take(j).drop_last() =~= fs.take(i));
    } else {
        lemma_slots_grow(fs, i, j - 1);
        assert(fs.take(j).drop_last() =~= fs.take(j - 1));
    }
}

/// The catch-all variant catches what no other variant matched: when the
/// first variant marked `other` (and read) is at `k`, every enum body that
/// ends in the fallback returns it.
pub proof fn lemma_other_catches_rest(name: Seq<char>, vs: Seq<VariantView>, k: int)
    requires
        0 <= k < vs.len(),
        is_other(vs[k].flags),
        forall|j: int| 0 <= j < k ==> !is_other(#[trigger] vs[j].flags),
    ensures
        final_err_text(name, vs) == "Ok("@ + name + "::"@ + vs[k].ident + ")\n"@,
{
    lemma_other_variant(vs, k);
}

proof fn lemma_other_variant(vs: Seq<VariantView>, k: int)
    requires
        0 <= k < vs.len(),
        is_other(vs[k].flags),
        forall|j: int| 0 <= j < k ==> !is_other(#[trigger] vs[j].flags),
    ensures
        other_variant(vs) == Some(vs[k].ident),
    decreases vs.len(),
{
    if k == vs.len() - 1 {
        lemma_no_other_variant(vs.drop_last());
    } else {
        let init = vs.drop_last();
        assert forall|j: int| 0 <= j < k implies !is_other(#[trigger] init[j].flags) by {
            assert(init[j] == vs[j]);
        }
        lemma_other_variant(init, k);
    }
}

proof fn lemma_no_other_variant(vs: Seq<VariantView>)
    requires
        forall|j: int| 0 <= j < vs.len() ==> !is_other(#[trigger] vs[j].flags),
    ensures
        other_variant(vs) is None,
    decreases vs.len(),
{
    if vs.len() > 0 {
        let init = vs.drop_last();
        assert forall|j: int| 0 <= j < init.len() implies !is_other(#[trigger] init[j].flags) by {
            assert(init[j] == vs[j]);
        }
        lemma_no_other_variant(init);
        assert(!is_other(vs[vs.len() - 1].flags));
    }
}

/// `patch_js` and `from_js` agree on the variants' dispatch indices: for
/// a variant read by tag, among variants with distinct names, the index
/// that `patch_js` compares the old value's index with is the one under
/// which `from_js` reads that variant.
pub proof fn lemma_patch_index_matches_dispatch(vs: Seq<VariantView>, k: int)
    requires
        0 <= k < vs.len(),
        is_tagged(vs[k].flags),
        forall|i: int, j: int| 0 <= i < j < vs.len() ==> #[trigger] vs[i].ident != #[trigger] vs[j].ident,
    ensures
        tagged_pos(vs, vs[k].ident) == Some(tagged_count(vs.take(k))),
    decreases vs.len(),
{
    let id = vs[k].ident;
    if k == vs.len() - 1 {
        lemma_tagged_pos_absent(vs.drop_last(), id);
        assert(vs.take(k) =~= vs.drop_last());
    } else {
        let init = vs.drop_last();
        assert forall|i: int, j: int| 0 <= i < j < init.len() implies #[trigger] init[i].ident
            != #[trigger] init[j].ident by {
            assert(init[i] == vs[i] && init[j] == vs[j]);
        }
        assert(init[k] == vs[k]);
        lemma_patch_index_matches_dispatch(init, k);
        assert(init.take(k) =~= vs.take(k));
    }
}

proof fn lemma_tagged_pos_absent(vs: Seq<VariantView>, id: Seq<char>)
    requires
        forall|j: int| 0 <= j < vs.len() ==> #[trigger] vs[j].ident != id,
    ensures
        tagged_pos(vs, id) is None,
    decreases vs.len(),
{
    if vs.len() > 0 {
        let init = vs.drop_last();
        assert forall|j: int| 0 <= j < init.len() implies #[trigger] init[j].ident != id by {
            assert(init[j] == vs[j]);
        }
        lemma_tagged_pos_absent(init, id);
        assert(vs[vs.len() - 1].ident != id);
    }
}


// ---------------------------------------------------------------------------
// JavaScript helpers of a struct with named fields
// ---------------------------------------------------------------------------

/// How the destructure helper reads a field: the whole object for a
/// flattened field, else the value under its wire name, then under each
/// alias in order while there is none.
pub open spec fn destruct_item(f: FieldView) -> Seq<char> {
    if flag_set(f.flags, 4u8) {
        "v"@
    } else {
        "v[\""@ + f.wire_name + "\"]"@ + alias_chain(f.aliases)
    }
}

/// The fallbacks `??v["<alias>"]` of the aliases, in order.
pub open spec fn alias_chain(aliases: Seq<Seq<char>>) -> Seq<char>
    decreases aliases.len(),
{
    if aliases.len() == 0 {
        Seq::empty()
    } else {
        alias_chain(aliases.drop_last()) + "??v[\""@ + aliases.last() + "\"]"@
    }
}

/// The elements of the destructured array: one for each field with a
/// slot, in field order.
pub open spec fn destruct_items(fs: Seq<FieldView>) -> Seq<Seq<char>>
    decreases fs.len(),
{
    if fs.len() == 0 {
        Seq::empty()
    } else if both_skipped(fs.last().flags) {
        destruct_items(fs.drop_last())
    } else {
        destruct_items(fs.drop_last()).push(destruct_item(fs.last()))
    }
}

/// The setters of the fields with a slot that are not flattened, named by
/// `prefix` and the field's name: each writes its field's wire name.
pub open spec fn js_setters(prefix: Seq<char>, fs: Seq<FieldView>) -> (Seq<char>, Seq<char>)
    decreases fs.len(),
{
    if fs.len() == 0 {
        (Seq::empty(), Seq::empty())
    } else {
        let r = js_setters(prefix, fs.drop_last());
        let p = js_setter(prefix, fs.last());
        (r.0 + p.0, r.1 + p.1)
    }
}

/// The setter of one field, named by `prefix` and the field's name, and
/// its declaration; none for a field with no slot or a flattened one.
pub open spec fn js_setter(prefix: Seq<char>, f: FieldView) -> (Seq<char>, Seq<char>) {
    if both_skipped(f.flags) || flag_set(f.flags, 4u8) {
        (Seq::empty(), Seq::empty())
    } else {
        let name = prefix + f.ident;
        (
            "export function "@ + name + "(o,v){o[\""@ + f.wire_name + "\"]=v}\n"@,
            "fn "@ + name + "(o: &::wasm_bindgen::JsValue, v: ::wasm_bindgen::JsValue);\n"@,
        )
    }
}

/// The keys an object of the struct may hold: the wire names of the
/// fields that are read and not flattened.
pub open spec fn known_keys(fs: Seq<FieldView>) -> Seq<Seq<char>>
    decreases fs.len(),
{
    if fs.len() == 0 {
        Seq::empty()
    } else if !flag_set(fs.last().flags, 2u8) && !flag_set(fs.last().flags, 4u8) {
        known_keys(fs.drop_last()).push(fs.last().wire_name)
    } else {
        known_keys(fs.drop_last())
    }
}

/// The tests `k!=="<key>"` of the keys.
pub open spec fn key_tests(ks: Seq<Seq<char>>) -> Seq<Seq<char>> {
    Seq::new(ks.len(), |i: int| "k!==\""@ + ks[i] + "\""@)
}

/// The JavaScript helpers of a struct with named fields and their Rust
/// declarations: the destructure helper, the constructor (when a field is
/// serialized), the setters, and, under `deny_unknown_fields`, the check
/// that gives the first key that is no field's.
pub open spec fn struct_js_parts(st: StructView, fs: Seq<FieldView>) -> (Seq<char>, Seq<char>) {
    let d = destruct_js(st.ident, fs);
    let c = construct_js(st.ident, fs);
    let setters = js_setters("__tw_"@ + st.ident + "_set_"@, fs);
    let k = check_keys_js(st, fs);
    (d.0 + c.0 + setters.0 + k.0, d.1 + c.1 + setters.1 + k.1)
}

/// The destructure helper and its declaration.
pub open spec fn destruct_js(tn: Seq<char>, fs: Seq<FieldView>) -> (Seq<char>, Seq<char>) {
    (
        "export function __tw_"@ + tn + "_destruct(v){return["@ + crate::typescript::join(
            destruct_items(fs),
            ","@,
        ) + "]}\n"@,
        "fn __tw_"@ + tn + "_destruct(v: &::wasm_bindgen::JsValue) -> ::js_sys::Array;\n"@,
    )
}

/// The constructor from the serialized fields and its declaration; none
/// when no field is serialized.
pub open spec fn construct_js(tn: Seq<char>, fs: Seq<FieldView>) -> (Seq<char>, Seq<char>) {
    let n = ser_count(fs);
    if n == 0 {
        (Seq::empty(), Seq::empty())
    } else {
        (
            "export function __tw_"@ + tn + "_construct("@ + js_params(n) + "){const o={};"@
                + js_assigns(fs) + "return o}\n"@,
            "fn __tw_"@ + tn + "_construct("@ + extern_params(n) + ") -> ::js_sys::Object;\n"@,
        )
    }
}

/// Under `deny_unknown_fields`, the check giving the first key of an
/// object that is no known key, and its declaration.
pub open spec fn check_keys_js(st: StructView, fs: Seq<FieldView>) -> (Seq<char>, Seq<char>) {
    let tn = st.ident;
    let ks = known_keys(fs);
    if flag_set(st.flags, 4u8) {
        (
            "export function __tw_"@ + tn + "_check_keys(v){for(const k of Object.keys(v)){"@ + (if ks.len()
                == 0 {
                Seq::empty()
            } else {
                "if("@ + crate::typescript::join(key_tests(ks), "&&"@) + ")return k"@
            }) + "}return null}\n"@,
            "fn __tw_"@ + tn + "_check_keys(v: &::wasm_bindgen::JsValue) -> ::wasm_bindgen::JsValue;\n"@,
        )
    } else {
        (Seq::empty(), Seq::empty())
    }
}

/// The `wasm_bindgen` block binding JavaScript source `js` with the Rust
/// declarations `decls`, compiled for `wasm32` only.
pub open spec fn bindings_block(js: Seq<char>, decls: Seq<char>) -> Seq<char> {
    "#[cfg(target_arch = \"wasm32\")]\n#[::wasm_bindgen::prelude::wasm_bindgen(inline_js = "@ + lit(js)
        + ")]\nunsafe extern \"C\" {\n"@ + decls + "}\n"@
}

/// The JavaScript bindings of a struct: none unless it has named fields
/// of which one has a slot.
pub open spec fn struct_js_bindings_text(st: StructView) -> Seq<char> {
    match st.shape {
        StructShapeView::Named(fs) => if any_slot(fs) {
            let parts = struct_js_parts(st, fs);
            bindings_block(parts.0, parts.1)
        } else {
            Seq::empty()
        },
        _ => Seq::empty(),
    }
}

/// Appends how the destructure helper reads a field.
fn destruct_item_of(f: &Field) -> (r: String)
    ensures
        r@ == destruct_item(field_view(*f)),
{
    let ghost fv = field_view(*f);
    if f.flags.contains(crate::flags::FieldFlags::FLATTEN) {
        return String::from_str("v");
    }
    let mut out = String::from_str("v[\"");
    out.append(f.wire_name.as_str());
    out.append("\"]");
    let ghost start = out@;
    let ghost av = fv.aliases;
    assert(av == strings_view(f.aliases@));
    assert(av.take(0) =~= Seq::<Seq<char>>::empty());
    let mut i: usize = 0;
    while i < f.aliases.len()
        invariant
            i <= f.aliases@.len(),
            av == strings_view(f.aliases@),
            out@ == start + alias_chain(av.take(i as int)),
        decreases f.aliases@.len() - i,
    {
        out.append("??v[\"");
        out.append(f.aliases[i].as_str());
        out.append("\"]");
        assert(av.take(i + 1).drop_last() =~= av.take(i as int));
        assert(out@ =~= start + alias_chain(av.take(i + 1)));
        i = i + 1;
    }
    assert(av.take(f.aliases@.len() as int) =~= av);
    assert(out@ =~= destruct_item(fv));
    out
}

/// The elements of the destructured array.
fn destruct_items_of(fields: &Vec<Field>) -> (r: Vec<String>)
    ensures
        strings_view(r@) == destruct_items(fields_view(fields@)),
{
    let ghost fv = fields_view(fields@);
    proof {
        lemma_fields_view(fields@);
    }
    assert(fv.take(0) =~= Seq::<FieldView>::empty());
    let mut out: Vec<String> = Vec::new();
    let mut i: usize = 0;
    while i < fields.len()
        invariant
            i <= fields@.len(),
            fv.len() == fields@.len(),
            forall|j: int| 0 <= j < fv.len() ==> #[trigger] fv[j] == field_view(fields@[j]),
            strings_view(out@) == destruct_items(fv.take(i as int)),
        decreases fields@.len() - i,
    {
        let f = &fields[i];
        assert(fv.take(i + 1).drop_last() =~= fv.take(i as int));
        if !(f.flags.contains(crate::flags::FieldFlags::SKIP_SER) && f.flags.contains(
            crate::flags::FieldFlags::SKIP_DE,
        )) {
            let item = destruct_item_of(f);
            let ghost before = out@;
            out.push(item);
            assert(strings_view(out@) =~= strings_view(before).push(item@));
        }
        i = i + 1;
    }
    assert(fv.take(fields@.len() as int) =~= fv);
    out
}

/// Appends the setter of one field and its declaration.
fn push_js_setter(js: &mut String, decls: &mut String, prefix: &str, f: &Field)
    ensures
        final(js)@ == old(js)@ + js_setter(prefix@, field_view(*f)).0,
        final(decls)@ == old(decls)@ + js_setter(prefix@, field_view(*f)).1,
{
    let ghost js1 = js@;
    let ghost d1 = decls@;
    if !(f.flags.contains(crate::flags::FieldFlags::SKIP_SER) && f.flags.contains(
        crate::flags::FieldFlags::SKIP_DE,
    )) && !f.flags.contains(crate::flags::FieldFlags::FLATTEN) {
        js.append("export function ");
        js.append(prefix);
        js.append(f.ident.as_str());
        js.append("(o,v){o[\"");
        js.append(f.wire_name.as_str());
        js.append("\"]=v}\n");
        decls.append("fn ");
        decls.append(prefix);
        decls.append(f.ident.as_str());
        decls.append("(o: &::wasm_bindgen::JsValue, v: ::wasm_bindgen::JsValue);\n");
    }
    assert(js@ =~= js1 + js_setter(prefix@, field_view(*f)).0);
    assert(decls@ =~= d1 + js_setter(prefix@, field_view(*f)).1);
}

/// Appends the setters and their declarations.
fn push_js_setters(js: &mut String, decls: &mut String, prefix: &str, fields: &Vec<Field>)
    ensures
        final(js)@ == old(js)@ + js_setters(prefix@, fields_view(fields@)).0,
        final(decls)@ == old(decls)@ + js_setters(prefix@, fields_view(fields@)).1,
{
    let ghost fv = fields_view(fields@);
    let ghost js0 = js@;
    let ghost d0 = decls@;
    proof {
        lemma_fields_view(fields@);
    }
    assert(fv.take(0) =~= Seq::<FieldView>::empty());
    let mut i: usize = 0;
    while i < fields.len()
        invariant
            i <= fields@.len(),
            fv.len() == fields@.len(),
            forall|j: int| 0 <= j < fv.len() ==> #[trigger] fv[j] == field_view(fields@[j]),
            js@ == js0 + js_setters(prefix@, fv.take(i as int)).0,
            decls@ == d0 + js_setters(prefix@, fv.take(i as int)).1,
        decreases fields@.len() - i,
    {
        assert(fv.take(i + 1).drop_last() =~= fv.take(i as int));
        push_js_setter(js, decls, prefix, &fields[i]);
        assert(js@ =~= js0 + js_setters(prefix@, fv.take(i + 1)).0);
        assert(decls@ =~= d0 + js_setters(prefix@, fv.take(i + 1)).1);
        i = i + 1;
    }
    assert(fv.take(fields@.len() as int) =~= fv);
}

/// The tests of the keys an object of the struct may hold.
fn key_tests_of(fields: &Vec<Field>) -> (r: Vec<String>)
    ensures
        strings_view(r@) == key_tests(known_keys(fields_view(fields@))),
{
    let ghost fv = fields_view(fields@);
    proof {
        lemma_fields_view(fields@);
    }
    assert(fv.take(0) =~= Seq::<FieldView>::empty());
    assert(strings_view(Seq::<String>::empty()) =~= key_tests(known_keys(fv.take(0))));
    let mut out: Vec<String> = Vec::new();
    let mut i: usize = 0;
    while i < fields.len()
        invariant
            i <= fields@.len(),
            fv.len() == fields@.len(),
            forall|j: int| 0 <= j < fv.len() ==> #[trigger] fv[j] == field_view(fields@[j]),
            strings_view(out@) == key_tests(known_keys(fv.take(i as int))),
        decreases fields@.len() - i,
    {
        let f = &fields[i];
        assert(fv.take(i + 1).drop_last() =~= fv.take(i as int));
        if !f.flags.contains(crate::flags::FieldFlags::SKIP_DE) && !f.flags.contains(
            crate::flags::FieldFlags::FLATTEN,
        ) {
            let mut t = String::from_str("k!==\"");
            t.append(f.wire_name.as_str());
            t.append("\"");
            let ghost before = out@;
            assert(t@ =~= "k!==\""@ + fv[i as int].wire_name + "\""@);
            assert(known_keys(fv.take(i + 1)) == known_keys(fv.take(i as int)).push(fv[i as int].wire_name));
            out.push(t);
            assert(strings_view(out@) =~= strings_view(before).push(t@));
            assert(key_tests(known_keys(fv.take(i + 1))) =~= key_tests(known_keys(fv.take(i as int))).push(t@));
        } else {
            assert(strings_view(out@) =~= key_tests(known_keys(fv.take(i + 1))));
        }
        i = i + 1;
    }
    assert(fv.take(fields@.len() as int) =~= fv);
    out
}

/// Appends the destructure helper and its declaration.
fn push_destruct_js(js: &mut String, decls: &mut String, tn: &str, fields: &Vec<Field>)
    ensures
        final(js)@ == old(js)@ + destruct_js(tn@, fields_view(fields@)).0,
        final(decls)@ == old(decls)@ + destruct_js(tn@, fields_view(fields@)).1,
{
    let ghost js0 = js@;
    let ghost d0 = decls@;
    let items = destruct_items_of(fields);
    let joined = crate::typescript::join_strings(&items, ",");
    js.append("export function __tw_");
    js.append(tn);
    js.append("_destruct(v){return[");
    js.append(joined.as_str());
    js.append("]}\n");
    decls.append("fn __tw_");
    decls.append(tn);
    decls.append("_destruct(v: &::wasm_bindgen::JsValue) -> ::js_sys::Array;\n");
    assert(js@ =~= js0 + destruct_js(tn@, fields_view(fields@)).0);
    assert(decls@ =~= d0 + destruct_js(tn@, fields_view(fields@)).1);
}

/// Appends the constructor and its declaration.
fn push_construct_js(js: &mut String, decls: &mut String, tn: &str, fields: &Vec<Field>)
    ensures
        final(js)@ == old(js)@ + construct_js(tn@, fields_view(fields@)).0,
        final(decls)@ == old(decls)@ + construct_js(tn@, fields_view(fields@)).1,
{
    let ghost js0 = js@;
    let ghost d0 = decls@;
    let mut body = String::new();
    let n = push_js_assigns(&mut body, fields);
    if n > 0 {
        js.append("export function __tw_");
        js.append(tn);
        js.append("_construct(");
        decls.append("fn __tw_");
        decls.append(tn);
        decls.append("_construct(");
        push_params(js, decls, n);
        js.append("){const o={};");
        js.append(body.as_str());
        js.append("return o}\n");
        decls.append(") -> ::js_sys::Object;\n");
    }
    assert(js@ =~= js0 + construct_js(tn@, fields_view(fields@)).0);
    assert(decls@ =~= d0 + construct_js(tn@, fields_view(fields@)).1);
}

/// Appends the check of the keys and its declaration.
#[verifier::spinoff_prover]
#[verifier::rlimit(80)]
fn push_check_keys_js(js: &mut String, decls: &mut String, s: &Struct, fields: &Vec<Field>)
    ensures
        final(js)@ == old(js)@ + check_keys_js(struct_view(*s), fields_view(fields@)).0,
        final(decls)@ == old(decls)@ + check_keys_js(struct_view(*s), fields_view(fields@)).1,
{
    let ghost js0 = js@;
    let ghost d0 = decls@;
    let tn = s.ident.as_str();
    if s.flags.contains(crate::flags::StructFlags::DENY_UNKNOWN_FIELDS) {
        js.append("export function __tw_");
        js.append(tn);
        js.append("_check_keys(v){for(const k of Object.keys(v)){");
        let tests = key_tests_of(fields);
        if tests.len() > 0 {
            let conds = crate::typescript::join_strings(&tests, "&&");
            js.append("if(");
            js.append(conds.as_str());
            js.append(")return k");
        }
        js.append("}return null}\n");
        decls.append("fn __tw_");
        decls.append(tn);
        decls.append("_check_keys(v: &::wasm_bindgen::JsValue) -> ::wasm_bindgen::JsValue;\n");
    }
    assert(js@ =~= js0 + check_keys_js(struct_view(*s), fields_view(fields@)).0);
    assert(decls@ =~= d0 + check_keys_js(struct_view(*s), fields_view(fields@)).1);
}

/// Appends the JavaScript helpers of a struct with named fields and their
/// declarations.
#[verifier::spinoff_prover]
#[verifier::rlimit(80)]
fn push_struct_js_parts(js: &mut String, decls: &mut String, s: &Struct, fields: &Vec<Field>)
    requires
        struct_view(*s).shape == StructShapeView::Named(fields_view(fields@)),
    ensures
        final(js)@ == old(js)@ + struct_js_parts(struct_view(*s), fields_view(fields@)).0,
        final(decls)@ == old(decls)@ + struct_js_parts(struct_view(*s), fields_view(fields@)).1,
{
    let ghost js0 = js@;
    let ghost d0 = decls@;
    let tn = s.ident.as_str();
    push_destruct_js(js, decls, tn, fields);
    push_construct_js(js, decls, tn, fields);
    let mut prefix = String::from_str("__tw_");
    prefix.append(tn);
    prefix.append("_set_");
    assert(prefix@ =~= "__tw_"@ + tn@ + "_set_"@);
    push_js_setters(js, decls, prefix.as_str(), fields);
    push_check_keys_js(js, decls, s, fields);
    assert(js@ =~= js0 + struct_js_parts(struct_view(*s), fields_view(fields@)).0);
    assert(decls@ =~= d0 + struct_js_parts(struct_view(*s), fields_view(fields@)).1);
}

/// Tells whether some field has a slot in the destructured object.
fn struct_any_slot(fs: &Vec<Field>) -> (r: bool)
    ensures
        r == any_slot(fields_view(fs@)),
{
    fields_any_slot(fs)
}

/// The JavaScript bindings of a struct (see [`struct_js_bindings_text`]).
pub fn struct_js_bindings(s: &Struct) -> (r: String)
    ensures
        r@ == struct_js_bindings_text(struct_view(*s)),
{
    let ghost sv = struct_view(*s);
    match &s.shape {
        StructShape::Named(fields) => {
            if !struct_any_slot(fields) {
                return String::new();
            }
            let mut js = String::new();
            let mut decls = String::new();
            push_struct_js_parts(&mut js, &mut decls, s, fields);
            let mut out = String::new();
            out.append("#[cfg(target_arch = \"wasm32\")]\n#[::wasm_bindgen::prelude::wasm_bindgen(inline_js = ");
            push_lit(&mut out, js.as_str());
            out.append(")]\nunsafe extern \"C\" {\n");
            out.append(decls.as_str());
            out.append("}\n");
            assert(out@ =~= struct_js_bindings_text(sv));
            out
        },
        _ => String::new(),
    }
}

/// The destructure helper reads, at each slot, the field that `from_js`
/// and `patch_js` read from that slot: the array has one element per
/// slot, and the element at a field's slot reads that field (under its
/// wire name, then its aliases, or the whole object when it is flattened).
pub proof fn lemma_destruct_slots_match(fs: Seq<FieldView>, i: int)
    requires
        0 <= i < fs.len(),
        !both_skipped(fs[i].flags),
    ensures
        destruct_items(fs).len() == slots(fs),
        destruct_items(fs)[slots(fs.take(i)) as int] == destruct_item(fs[i]),
    decreases fs.len(),
{
    lemma_destruct_items_len(fs);
    if i == fs.len() - 1 {
        assert(fs.take(i) =~= fs.drop_last());
        lemma_destruct_items_len(fs.drop_last());
    } else {
        let init = fs.drop_last();
        assert(init[i] == fs[i]);
        lemma_destruct_slots_match(init, i);
        assert(init.take(i) =~= fs.take(i));
        lemma_slots_in_order(init, i, init.len() as int);
        assert(init.take(init.len() as int) =~= init);
    }
}

proof fn lemma_destruct_items_len(fs: Seq<FieldView>)
    ensures
        destruct_items(fs).len() == slots(fs),
    decreases fs.len(),
{
    if fs.len() > 0 {
        lemma_destruct_items_len(fs.drop_last());
    }
}


// ---------------------------------------------------------------------------
// JavaScript helpers of an enum
// ---------------------------------------------------------------------------

/// The `case` labels of a variant's wire names.
pub open spec fn case_labels(ns: Seq<Seq<char>>) -> Seq<char>
    decreases ns.len(),
{
    if ns.len() == 0 {
        Seq::empty()
    } else {
        case_labels(ns.drop_last()) + "case\""@ + ns.last() + "\":"@
    }
}

/// The cases of the variants read by tag: each wire name of a variant
/// returns its index among those variants.
pub open spec fn dispatch_cases(vs: Seq<VariantView>) -> Seq<char>
    decreases vs.len(),
{
    if vs.len() == 0 {
        Seq::empty()
    } else if is_tagged(vs.last().flags) {
        dispatch_cases(vs.drop_last()) + dispatch_case(vs.last(), tagged_count(vs.drop_last()))
    } else {
        dispatch_cases(vs.drop_last())
    }
}

/// The case of a variant read by tag: each of its wire names returns
/// its index.
pub open spec fn dispatch_case(v: VariantView, idx: nat) -> Seq<char> {
    case_labels(v.all_wire_names) + "return "@ + decimal(idx) + ";"@
}

/// The key check of a variant read by tag: an object with one of its
/// wire names as a key holds it.
pub open spec fn in_check(v: VariantView, idx: nat) -> Seq<char> {
    "if("@ + crate::typescript::join(in_tests(v.all_wire_names), "||"@) + ")return "@ + decimal(idx)
        + ";"@
}

/// The tests `"<name>"in v` of a variant's wire names.
pub open spec fn in_tests(ns: Seq<Seq<char>>) -> Seq<Seq<char>> {
    Seq::new(ns.len(), |i: int| "\""@ + ns[i] + "\"in v"@)
}

/// The checks of an externally tagged object: the first variant read by
/// tag one of whose wire names is a key gives its index.
pub open spec fn in_checks(vs: Seq<VariantView>) -> Seq<char>
    decreases vs.len(),
{
    if vs.len() == 0 {
        Seq::empty()
    } else if is_tagged(vs.last().flags) {
        in_checks(vs.drop_last()) + in_check(vs.last(), tagged_count(vs.drop_last()))
    } else {
        in_checks(vs.drop_last())
    }
}

/// The dispatch helper, which gives the index of the variant a value
/// holds (`-1` for none), and its declaration: by the tag field for
/// internal and adjacent tagging; by the string or the key for external
/// tagging.
pub open spec fn dispatch_js(t: TaggingView, tn: Seq<char>, vs: Seq<VariantView>) -> (Seq<char>, Seq<char>) {
    let name = "__tw_"@ + tn + "_dispatch"@;
    let decl = "fn "@ + name + "(v: &::wasm_bindgen::JsValue) -> i32;\n"@;
    match t {
        TaggingView::Internal { tag } => (
            "export function "@ + name + "(v){switch(v[\""@ + tag + "\"]){"@ + dispatch_cases(vs)
                + "default:return -1}}\n"@,
            decl,
        ),
        TaggingView::Adjacent { tag, content } => (
            "export function "@ + name + "(v){switch(v[\""@ + tag + "\"]){"@ + dispatch_cases(vs)
                + "default:return -1}}\n"@,
            decl,
        ),
        TaggingView::External => (
            "export function "@ + name + "(v){if(typeof v===\"string\"){switch(v){"@ + dispatch_cases(
                vs,
            ) + "default:return -1}}"@ + in_checks(vs) + "return -1}\n"@,
            decl,
        ),
        TaggingView::Untagged => (Seq::empty(), decl),
    }
}

/// The accesses `v["<name>"]` of a variant's wire names.
pub open spec fn accesses(ns: Seq<Seq<char>>) -> Seq<Seq<char>> {
    Seq::new(ns.len(), |i: int| "v[\""@ + ns[i] + "\"]"@)
}

/// The content helpers of externally tagged variants with a payload: the
/// value under the first of the variant's wire names that holds one.
pub open spec fn ext_contents(tn: Seq<char>, vs: Seq<VariantView>) -> (Seq<char>, Seq<char>)
    decreases vs.len(),
{
    if vs.len() == 0 {
        (Seq::empty(), Seq::empty())
    } else {
        let r = ext_contents(tn, vs.drop_last());
        let c = ext_content(tn, vs.last());
        (r.0 + c.0, r.1 + c.1)
    }
}

/// The content helper of an externally tagged variant read by tag with a
/// payload, and its declaration; none for another variant.
pub open spec fn ext_content(tn: Seq<char>, v: VariantView) -> (Seq<char>, Seq<char>) {
    if is_tagged(v.flags) && !(v.kind is Unit) {
        let name = "__tw_"@ + tn + "_content_"@ + v.ident;
        (
            "export function "@ + name + "(v){return "@ + crate::typescript::join(
                accesses(v.all_wire_names),
                "??"@,
            ) + "}\n"@,
            "fn "@ + name + "(v: &::wasm_bindgen::JsValue) -> ::wasm_bindgen::JsValue;\n"@,
        )
    } else {
        (Seq::empty(), Seq::empty())
    }
}

/// The content helpers and their declarations: one reading the content
/// field for adjacent tagging, one per variant with a payload for
/// external tagging, none otherwise.
pub open spec fn content_js(t: TaggingView, tn: Seq<char>, vs: Seq<VariantView>) -> (Seq<char>, Seq<char>) {
    match t {
        TaggingView::Adjacent { tag, content } => (
            "export function __tw_"@ + tn + "_content(v){return v[\""@ + content + "\"]}\n"@,
            "fn __tw_"@ + tn + "_content(v: &::wasm_bindgen::JsValue) -> ::wasm_bindgen::JsValue;\n"@,
        ),
        TaggingView::External => ext_contents(tn, vs),
        _ => (Seq::empty(), Seq::empty()),
    }
}

/// Whether a variant gets destructure helpers: it is read by tag (or,
/// in an untagged enum, read at all).
pub open spec fn destructed(untagged: bool, flags: u8) -> bool {
    if untagged {
        !flag_set(flags, 2u8)
    } else {
        is_tagged(flags)
    }
}

/// The destructure helper and setters of one variant with named fields
/// of which one has a slot.
pub open spec fn variant_destruct(tn: Seq<char>, v: VariantView) -> (Seq<char>, Seq<char>) {
    match v.kind {
        VariantKindView::Named(fs) => if any_slot(fs) {
            let name = "__tw_"@ + tn + "_destruct_"@ + v.ident;
            let setters = js_setters("__tw_"@ + tn + "_set_"@ + v.ident + "_"@, fs);
            (
                "export function "@ + name + "(v){return["@ + crate::typescript::join(
                    destruct_items(fs),
                    ","@,
                ) + "]}\n"@ + setters.0,
                "fn "@ + name + "(v: &::wasm_bindgen::JsValue) -> ::js_sys::Array;\n"@ + setters.1,
            )
        } else {
            (Seq::empty(), Seq::empty())
        },
        _ => (Seq::empty(), Seq::empty()),
    }
}

/// The destructure helpers and setters of the variants that get them.
pub open spec fn variant_destructs(tn: Seq<char>, vs: Seq<VariantView>, untagged: bool) -> (Seq<char>, Seq<char>)
    decreases vs.len(),
{
    if vs.len() == 0 {
        (Seq::empty(), Seq::empty())
    } else {
        let r = variant_destructs(tn, vs.drop_last(), untagged);
        if destructed(untagged, vs.last().flags) {
            let d = variant_destruct(tn, vs.last());
            (r.0 + d.0, r.1 + d.1)
        } else {
            r
        }
    }
}

/// The JavaScript helpers of an enum and their declarations: none for an
/// enum of unit variants; for an untagged enum, the constructors and the
/// destructure helpers; otherwise the dispatch and content helpers too.
pub open spec fn enum_js_parts(e: EnumView) -> (Seq<char>, Seq<char>) {
    let t = e.tagging;
    let tn = e.ident;
    let vs = e.variants;
    let c = variant_constructs(t, tn, vs);
    if t is Untagged {
        let d = variant_destructs(tn, vs, true);
        (c.0 + d.0, c.1 + d.1)
    } else {
        let x = dispatch_js(t, tn, vs);
        let y = content_js(t, tn, vs);
        let d = variant_destructs(tn, vs, false);
        (x.0 + y.0 + c.0 + d.0, x.1 + y.1 + c.1 + d.1)
    }
}

/// The JavaScript bindings of an enum: none for an enum of unit variants
/// or with no helper.
pub open spec fn enum_js_bindings_text(e: EnumView) -> Seq<char> {
    if flag_set(e.flags, 2u8) {
        Seq::empty()
    } else {
        let p = enum_js_parts(e);
        if p.0.len() == 0 {
            Seq::empty()
        } else {
            bindings_block(p.0, p.1)
        }
    }
}

/// Appends the `case` labels of wire names.
fn push_case_labels(js: &mut String, ns: &Vec<String>)
    ensures
        final(js)@ == old(js)@ + case_labels(strings_view(ns@)),
{
    let ghost nv = strings_view(ns@);
    let ghost start = js@;
    assert(nv.take(0) =~= Seq::<Seq<char>>::empty());
    let mut i: usize = 0;
    while i < ns.len()
        invariant
            i <= ns@.len(),
            nv == strings_view(ns@),
            js@ == start + case_labels(nv.take(i as int)),
        decreases ns@.len() - i,
    {
        js.append("case\"");
        js.append(ns[i].as_str());
        js.append("\":");
        assert(nv.take(i + 1).drop_last() =~= nv.take(i as int));
        assert(js@ =~= start + case_labels(nv.take(i + 1)));
        i = i + 1;
    }
    assert(nv.take(ns@.len() as int) =~= nv);
}

/// Strings each made of `before`, a name and `after`.
fn wrapped(ns: &Vec<String>, before: &str, after: &str) -> (r: Vec<String>)
    ensures
        strings_view(r@) == Seq::new(ns@.len(), |i: int| before@ + ns@[i]@ + after@),
{
    let mut out: Vec<String> = Vec::new();
    let mut i: usize = 0;
    while i < ns.len()
        invariant
            i <= ns@.len(),
            strings_view(out@) == Seq::new(i as nat, |j: int| before@ + ns@[j]@ + after@),
        decreases ns@.len() - i,
    {
        let mut t = String::from_str(before);
        t.append(ns[i].as_str());
        t.append(after);
        let ghost prev = out@;
        assert(t@ =~= before@ + ns@[i as int]@ + after@);
        out.push(t);
        assert(strings_view(out@) =~= strings_view(prev).push(t@));
        assert(strings_view(out@) =~= Seq::new((i + 1) as nat, |j: int| before@ + ns@[j]@ + after@));
        i = i + 1;
    }
    out
}

/// Appends the case (or, with `checks`, the key check) of a variant read
/// by tag.
fn push_dispatch_case(js: &mut String, v: &Variant, idx: usize, checks: bool)
    ensures
        final(js)@ == old(js)@ + if checks {
            in_check(variant_view(*v), idx as nat)
        } else {
            dispatch_case(variant_view(*v), idx as nat)
        },
{
    let ghost start = js@;
    let ghost vv = variant_view(*v);
    if checks {
        let tests = wrapped(&v.all_wire_names, "\"", "\"in v");
        assert(strings_view(tests@) =~= in_tests(vv.all_wire_names));
        let joined = crate::typescript::join_strings(&tests, "||");
        js.append("if(");
        js.append(joined.as_str());
        js.append(")return ");
    } else {
        push_case_labels(js, &v.all_wire_names);
        js.append("return ");
    }
    push_decimal(js, idx);
    js.append(";");
    assert(js@ =~= start + if checks {
        in_check(vv, idx as nat)
    } else {
        dispatch_case(vv, idx as nat)
    });
}

/// Appends the cases (and, with `checks`, the key checks) of the variants
/// read by tag.
fn push_dispatch_cases(js: &mut String, vs: &Vec<Variant>, checks: bool)
    ensures
        final(js)@ == old(js)@ + if checks {
            in_checks(variants_view(vs@))
        } else {
            dispatch_cases(variants_view(vs@))
        },
{
    let ghost vv = variants_view(vs@);
    let ghost start = js@;
    proof {
        lemma_variants_view(vs@);
    }
    assert(vv.take(0) =~= Seq::<VariantView>::empty());
    let mut i: usize = 0;
    let mut idx: usize = 0;
    while i < vs.len()
        invariant
            i <= vs@.len(),
            idx <= i,
            vv.len() == vs@.len(),
            forall|j: int| 0 <= j < vv.len() ==> #[trigger] vv[j] == variant_view(vs@[j]),
            idx == tagged_count(vv.take(i as int)),
            js@ == start + if checks {
                in_checks(vv.take(i as int))
            } else {
                dispatch_cases(vv.take(i as int))
            },
        decreases vs@.len() - i,
    {
        let v = &vs[i];
        assert(vv.take(i + 1).drop_last() =~= vv.take(i as int));
        if !v.flags.contains(crate::flags::VariantFlags::SKIP_DE) && !v.flags.contains(
            crate::flags::VariantFlags::UNTAGGED,
        ) && !v.flags.contains(crate::flags::VariantFlags::OTHER) {
            push_dispatch_case(js, v, idx, checks);
            idx = idx + 1;
        }
        i = i + 1;
    }
    assert(vv.take(vs@.len() as int) =~= vv);
}

/// Appends the dispatch helper and its declaration.
#[verifier::spinoff_prover]
#[verifier::rlimit(80)]
fn push_dispatch_js(js: &mut String, decls: &mut String, tagging: &Tagging, tn: &str, vs: &Vec<Variant>)
    ensures
        final(js)@ == old(js)@ + dispatch_js(tagging_view(*tagging), tn@, variants_view(vs@)).0,
        final(decls)@ == old(decls)@ + dispatch_js(tagging_view(*tagging), tn@, variants_view(vs@)).1,
{
    let ghost js0 = js@;
    let ghost d0 = decls@;
    let mut name = String::from_str("__tw_");
    name.append(tn);
    name.append("_dispatch");
    assert(name@ =~= "__tw_"@ + tn@ + "_dispatch"@);
    match tagging {
        Tagging::Internal { tag } | Tagging::Adjacent { tag, .. } => {
            js.append("export function ");
            js.append(name.as_str());
            js.append("(v){switch(v[\"");
            js.append(tag.as_str());
            js.append("\"]){");
            push_dispatch_cases(js, vs, false);
            js.append("default:return -1}}\n");
        },
        Tagging::External => {
            js.append("export function ");
            js.append(name.as_str());
            js.append("(v){if(typeof v===\"string\"){switch(v){");
            push_dispatch_cases(js, vs, false);
            js.append("default:return -1}}");
            push_dispatch_cases(js, vs, true);
            js.append("return -1}\n");
        },
        Tagging::Untagged => {},
    }
    decls.append("fn ");
    decls.append(name.as_str());
    decls.append("(v: &::wasm_bindgen::JsValue) -> i32;\n");
    assert(js@ =~= js0 + dispatch_js(tagging_view(*tagging), tn@, variants_view(vs@)).0);
    assert(decls@ =~= d0 + dispatch_js(tagging_view(*tagging), tn@, variants_view(vs@)).1);
}

/// Appends the content helper of one externally tagged variant.
fn push_ext_content(js: &mut String, decls: &mut String, tn: &str, v: &Variant)
    ensures
        final(js)@ == old(js)@ + ext_content(tn@, variant_view(*v)).0,
        final(decls)@ == old(decls)@ + ext_content(tn@, variant_view(*v)).1,
{
    let ghost js0 = js@;
    let ghost d0 = decls@;
    let ghost vv = variant_view(*v);
    let is_unit = match &v.kind {
        VariantKind::Unit => true,
        _ => false,
    };
    if !v.flags.contains(crate::flags::VariantFlags::SKIP_DE) && !v.flags.contains(
        crate::flags::VariantFlags::UNTAGGED,
    ) && !v.flags.contains(crate::flags::VariantFlags::OTHER) && !is_unit {
        let acc = wrapped(&v.all_wire_names, "v[\"", "\"]");
        assert(strings_view(acc@) =~= accesses(vv.all_wire_names));
        let joined = crate::typescript::join_strings(&acc, "??");
        js.append("export function ");
        js.append("__tw_");
        js.append(tn);
        js.append("_content_");
        js.append(v.ident.as_str());
        js.append("(v){return ");
        js.append(joined.as_str());
        js.append("}\n");
        decls.append("fn ");
        decls.append("__tw_");
        decls.append(tn);
        decls.append("_content_");
        decls.append(v.ident.as_str());
        decls.append("(v: &::wasm_bindgen::JsValue) -> ::wasm_bindgen::JsValue;\n");
    }
    assert(js@ =~= js0 + ext_content(tn@, vv).0);
    assert(decls@ =~= d0 + ext_content(tn@, vv).1);
}

/// Appends the content helpers of externally tagged variants.
fn push_ext_contents(js: &mut String, decls: &mut String, tn: &str, vs: &Vec<Variant>)
    ensures
        final(js)@ == old(js)@ + ext_contents(tn@, variants_view(vs@)).0,
        final(decls)@ == old(decls)@ + ext_contents(tn@, variants_view(vs@)).1,
{
    let ghost vv = variants_view(vs@);
    let ghost js0 = js@;
    let ghost d0 = decls@;
    proof {
        lemma_variants_view(vs@);
    }
    assert(vv.take(0) =~= Seq::<VariantView>::empty());
    let mut i: usize = 0;
    while i < vs.len()
        invariant
            i <= vs@.len(),
            vv.len() == vs@.len(),
            forall|j: int| 0 <= j < vv.len() ==> #[trigger] vv[j] == variant_view(vs@[j]),
            js@ == js0 + ext_contents(tn@, vv.take(i as int)).0,
            decls@ == d0 + ext_contents(tn@, vv.take(i as int)).1,
        decreases vs@.len() - i,
    {
        assert(vv.take(i + 1).drop_last() =~= vv.take(i as int));
        push_ext_content(js, decls, tn, &vs[i]);
        assert(js@ =~= js0 + ext_contents(tn@, vv.take(i + 1)).0);
        assert(decls@ =~= d0 + ext_contents(tn@, vv.take(i + 1)).1);
        i = i + 1;
    }
    assert(vv.take(vs@.len() as int) =~= vv);
}

/// Appends the content helpers and their declarations.
fn push_content_js(js: &mut String, decls: &mut String, tagging: &Tagging, tn: &str, vs: &Vec<Variant>)
    ensures
        final(js)@ == old(js)@ + content_js(tagging_view(*tagging), tn@, variants_view(vs@)).0,
        final(decls)@ == old(decls)@ + content_js(tagging_view(*tagging), tn@, variants_view(vs@)).1,
{
    let ghost js0 = js@;
    let ghost d0 = decls@;
    match tagging {
        Tagging::Adjacent { content, .. } => {
            js.append("export function __tw_");
            js.append(tn);
            js.append("_content(v){return v[\"");
            js.append(content.as_str());
            js.append("\"]}\n");
            decls.append("fn __tw_");
            decls.append(tn);
            decls.append("_content(v: &::wasm_bindgen::JsValue) -> ::wasm_bindgen::JsValue;\n");
        },
        Tagging::External => push_ext_contents(js, decls, tn, vs),
        _ => {},
    }
    assert(js@ =~= js0 + content_js(tagging_view(*tagging), tn@, variants_view(vs@)).0);
    assert(decls@ =~= d0 + content_js(tagging_view(*tagging), tn@, variants_view(vs@)).1);
}

/// Appends the destructure helper and setters of one variant.
fn push_variant_destruct(js: &mut String, decls: &mut String, tn: &str, v: &Variant)
    ensures
        final(js)@ == old(js)@ + variant_destruct(tn@, variant_view(*v)).0,
        final(decls)@ == old(decls)@ + variant_destruct(tn@, variant_view(*v)).1,
{
    let ghost js0 = js@;
    let ghost d0 = decls@;
    match &v.kind {
        VariantKind::Named(fs) => {
            if fields_any_slot(fs) {
                let items = destruct_items_of(fs);
                let joined = crate::typescript::join_strings(&items, ",");
                js.append("export function ");
                js.append("__tw_");
                js.append(tn);
                js.append("_destruct_");
                js.append(v.ident.as_str());
                js.append("(v){return[");
                js.append(joined.as_str());
                js.append("]}\n");
                decls.append("fn ");
                decls.append("__tw_");
                decls.append(tn);
                decls.append("_destruct_");
                decls.append(v.ident.as_str());
                decls.append("(v: &::wasm_bindgen::JsValue) -> ::js_sys::Array;\n");
                let mut prefix = String::from_str("__tw_");
                prefix.append(tn);
                prefix.append("_set_");
                prefix.append(v.ident.as_str());
                prefix.append("_");
                assert(prefix@ =~= "__tw_"@ + tn@ + "_set_"@ + v.ident@ + "_"@);
                push_js_setters(js, decls, prefix.as_str(), fs);
            }
        },
        _ => {},
    }
    assert(js@ =~= js0 + variant_destruct(tn@, variant_view(*v)).0);
    assert(decls@ =~= d0 + variant_destruct(tn@, variant_view(*v)).1);
}

/// Appends the destructure helpers and setters of the variants.
fn push_variant_destructs(js: &mut String, decls: &mut String, tn: &str, vs: &Vec<Variant>, untagged: bool)
    ensures
        final(js)@ == old(js)@ + variant_destructs(tn@, variants_view(vs@), untagged).0,
        final(decls)@ == old(decls)@ + variant_destructs(tn@, variants_view(vs@), untagged).1,
{
    let ghost vv = variants_view(vs@);
    let ghost js0 = js@;
    let ghost d0 = decls@;
    proof {
        lemma_variants_view(vs@);
    }
    assert(vv.take(0) =~= Seq::<VariantView>::empty());
    let mut i: usize = 0;
    while i < vs.len()
        invariant
            i <= vs@.len(),
            vv.len() == vs@.len(),
            forall|j: int| 0 <= j < vv.len() ==> #[trigger] vv[j] == variant_view(vs@[j]),
            js@ == js0 + variant_destructs(tn@, vv.take(i as int), untagged).0,
            decls@ == d0 + variant_destructs(tn@, vv.take(i as int), untagged).1,
        decreases vs@.len() - i,
    {
        let v = &vs[i];
        assert(vv.take(i + 1).drop_last() =~= vv.take(i as int));
        let chosen = if untagged {
            !v.flags.contains(crate::flags::VariantFlags::SKIP_DE)
        } else {
            !v.flags.contains(crate::flags::VariantFlags::SKIP_DE) && !v.flags.contains(
                crate::flags::VariantFlags::UNTAGGED,
            ) && !v.flags.contains(crate::flags::VariantFlags::OTHER)
        };
        if chosen {
            push_variant_destruct(js, decls, tn, v);
        }
        assert(js@ =~= js0 + variant_destructs(tn@, vv.take(i + 1), untagged).0);
        assert(decls@ =~= d0 + variant_destructs(tn@, vv.take(i + 1), untagged).1);
        i = i + 1;
    }
    assert(vv.take(vs@.len() as int) =~= vv);
}

/// The JavaScript bindings of an enum (see [`enum_js_bindings_text`]).
pub fn enum_js_bindings(e: &Enum) -> (r: String)
    ensures
        r@ == enum_js_bindings_text(enum_view(*e)),
{
    let ghost ev = enum_view(*e);
    if e.flags.contains(crate::flags::EnumFlags::ALL_UNIT) {
        return String::new();
    }
    let tn = e.ident.as_str();
    let mut js = String::new();
    let mut decls = String::new();
    match &e.tagging {
        Tagging::Untagged => {
            js_enum_variant_constructs(&mut js, &mut decls, tn, &e.variants, &e.tagging);
            push_variant_destructs(&mut js, &mut decls, tn, &e.variants, true);
        },
        _ => {
            push_dispatch_js(&mut js, &mut decls, &e.tagging, tn, &e.variants);
            push_content_js(&mut js, &mut decls, &e.tagging, tn, &e.variants);
            js_enum_variant_constructs(&mut js, &mut decls, tn, &e.variants, &e.tagging);
            push_variant_destructs(&mut js, &mut decls, tn, &e.variants, false);
        },
    }
    assert(js@ =~= enum_js_parts(ev).0);
    assert(decls@ =~= enum_js_parts(ev).1);
    if js.unicode_len() == 0 {
        return String::new();
    }
    let mut out = String::new();
    out.append("#[cfg(target_arch = \"wasm32\")]\n#[::wasm_bindgen::prelude::wasm_bindgen(inline_js = ");
    push_lit(&mut out, js.as_str());
    out.append(")]\nunsafe extern \"C\" {\n");
    out.append(decls.as_str());
    out.append("}\n");
    assert(out@ =~= enum_js_bindings_text(ev));
    out
}


// ---------------------------------------------------------------------------
// The `wasm_bindgen` impls of a derived type
// ---------------------------------------------------------------------------

/// The JavaScript bindings of a derived type: those of its own struct or
/// enum (a `from` proxy type has the bindings of its own shape); a
/// transparent or `into` type delegates to other types and has none.
pub open spec fn js_bindings_text(d: ItemView) -> Seq<char> {
    match d {
        ItemView::Struct(st) => struct_js_bindings_text(st),
        ItemView::Enum(e) => enum_js_bindings_text(e),
        ItemView::FromProxy(_, TypeShapeView::Struct(st)) => struct_js_bindings_text(st),
        ItemView::FromProxy(_, TypeShapeView::Enum(e)) => enum_js_bindings_text(e),
        _ => Seq::empty(),
    }
}

/// The name and the generics of an item.
pub open spec fn item_name(d: ItemView) -> (Seq<char>, GenericsView) {
    match d {
        ItemView::Struct(st) => (st.ident, st.generics),
        ItemView::Transparent(t) => (t.ident, t.generics),
        ItemView::Enum(e) => (e.ident, e.generics),
        ItemView::IntoProxy(p, _) => (p.ident, p.generics),
        ItemView::FromProxy(p, _) => (p.ident, p.generics),
    }
}

/// An impl of a `wasm_bindgen` trait for the type, compiled for `wasm32`
/// only.
pub open spec fn impl_block(tr: Seq<char>, ident: Seq<char>, g: GenericsView, body: Seq<char>) -> Seq<char> {
    "#[cfg(target_arch = \"wasm32\")]\nimpl"@ + g.impl_generics + " "@ + tr + " for "@ + ident
        + g.ty_generics + where_text(g.where_clause) + " {\n"@ + body + "}\n"@
}

/// A `where` clause after a space, or nothing.
pub open spec fn where_text(w: Seq<char>) -> Seq<char> {
    if w.len() == 0 {
        Seq::empty()
    } else {
        " "@ + w
    }
}

/// The body of `WasmDescribe`: described as a JavaScript value.
pub open spec fn describe_body() -> Seq<char> {
    "fn describe() { <::wasm_bindgen::JsValue as ::wasm_bindgen::describe::WasmDescribe>::describe() }\n"@
}

/// The body of `IntoWasmAbi`: passed as its JavaScript value.
pub open spec fn into_abi_body() -> Seq<char> {
    "type Abi = <::wasm_bindgen::JsValue as ::wasm_bindgen::convert::IntoWasmAbi>::Abi;\n#[inline]\nfn into_abi(self) -> Self::Abi { ::wasm_bindgen::convert::IntoWasmAbi::into_abi(::typewire::Typewire::to_js(&self)) }\n"@
}

/// The body of `FromWasmAbi`: read from the JavaScript value, throwing on
/// an error.
pub open spec fn from_abi_body() -> Seq<char> {
    "type Abi = <::wasm_bindgen::JsValue as ::wasm_bindgen::convert::FromWasmAbi>::Abi;\n#[inline]\nunsafe fn from_abi(js: Self::Abi) -> Self { use ::wasm_bindgen::UnwrapThrowExt as _; let value = unsafe { <::wasm_bindgen::JsValue as ::wasm_bindgen::convert::FromWasmAbi>::from_abi(js) }; ::typewire::Typewire::from_js(value).unwrap_throw() }\n"@
}

/// The body of `RefFromWasmAbi`: a boxed value read from JavaScript.
pub open spec fn ref_from_abi_body() -> Seq<char> {
    "type Abi = <::wasm_bindgen::JsValue as ::wasm_bindgen::convert::RefFromWasmAbi>::Abi;\ntype Anchor = ::std::boxed::Box<Self>;\n#[inline]\nunsafe fn ref_from_abi(js: Self::Abi) -> Self::Anchor { use ::wasm_bindgen::UnwrapThrowExt as _; let value = unsafe { <::wasm_bindgen::JsValue as ::wasm_bindgen::convert::FromWasmAbi>::from_abi(js) }; ::std::boxed::Box::new(::typewire::Typewire::from_js(value).unwrap_throw()) }\n"@
}

/// The body of `LongRefFromWasmAbi`: a value read from JavaScript.
pub open spec fn long_ref_from_abi_body() -> Seq<char> {
    "type Abi = <::wasm_bindgen::JsValue as ::wasm_bindgen::convert::LongRefFromWasmAbi>::Abi;\ntype Anchor = Self;\n#[inline]\nunsafe fn long_ref_from_abi(js: Self::Abi) -> Self::Anchor { use ::wasm_bindgen::UnwrapThrowExt as _; let value = unsafe { <::wasm_bindgen::JsValue as ::wasm_bindgen::convert::FromWasmAbi>::from_abi(js) }; ::typewire::Typewire::from_js(value).unwrap_throw() }\n"@
}

/// The body of `RefMutFromWasmAbi`: a boxed value read from JavaScript.
pub open spec fn ref_mut_from_abi_body() -> Seq<char> {
    "type Abi = <::wasm_bindgen::JsValue as ::wasm_bindgen::convert::RefFromWasmAbi>::Abi;\ntype Anchor = ::std::boxed::Box<Self>;\n#[inline]\nunsafe fn ref_mut_from_abi(js: Self::Abi) -> Self::Anchor { use ::wasm_bindgen::UnwrapThrowExt as _; let value = unsafe { <::wasm_bindgen::JsValue as ::wasm_bindgen::convert::FromWasmAbi>::from_abi(js) }; ::std::boxed::Box::new(::typewire::Typewire::from_js(value).unwrap_throw()) }\n"@
}

/// The body of `OptionIntoWasmAbi`: `None` as JavaScript's.
pub open spec fn option_into_abi_body() -> Seq<char> {
    "#[inline]\nfn none() -> Self::Abi { <::wasm_bindgen::JsValue as ::wasm_bindgen::convert::OptionIntoWasmAbi>::none() }\n"@
}

/// The body of `OptionFromWasmAbi`: `None` as JavaScript's.
pub open spec fn option_from_abi_body() -> Seq<char> {
    "#[inline]\nfn is_none(abi: &Self::Abi) -> bool { <::wasm_bindgen::JsValue as ::wasm_bindgen::convert::OptionFromWasmAbi>::is_none(abi) }\n"@
}

/// The body of `TryFromJsValue`: read from the value, an error becoming
/// its message as a JavaScript string.
pub open spec fn try_from_js_value_body() -> Seq<char> {
    "fn try_from_js_value(value: ::wasm_bindgen::JsValue) -> ::core::result::Result<Self, ::wasm_bindgen::JsValue> { ::typewire::Typewire::from_js(value).map_err(|e| ::wasm_bindgen::JsValue::from_str(&::std::string::ToString::to_string(&e))) }\nfn try_from_js_value_ref(value: &::wasm_bindgen::JsValue) -> ::core::option::Option<Self> { ::typewire::Typewire::from_js(value.clone()).ok() }\n"@
}

/// The impls that let a derived type cross the `wasm_bindgen` boundary as
/// its JavaScript value, then its JavaScript bindings.
pub open spec fn extra_impls_text(d: ItemView) -> Seq<char> {
    let ident = item_name(d).0;
    let gt = item_name(d).1;
    impl_block("::wasm_bindgen::describe::WasmDescribe"@, ident, gt, describe_body())
        + impl_block("::wasm_bindgen::convert::IntoWasmAbi"@, ident, gt, into_abi_body())
        + impl_block("::wasm_bindgen::convert::FromWasmAbi"@, ident, gt, from_abi_body())
        + impl_block("::wasm_bindgen::convert::RefFromWasmAbi"@, ident, gt, ref_from_abi_body())
        + impl_block("::wasm_bindgen::convert::LongRefFromWasmAbi"@, ident, gt, long_ref_from_abi_body())
        + impl_block("::wasm_bindgen::convert::RefMutFromWasmAbi"@, ident, gt, ref_mut_from_abi_body())
        + impl_block("::wasm_bindgen::convert::OptionIntoWasmAbi"@, ident, gt, option_into_abi_body())
        + impl_block("::wasm_bindgen::convert::OptionFromWasmAbi"@, ident, gt, option_from_abi_body())
        + impl_block("::wasm_bindgen::convert::TryFromJsValue"@, ident, gt, try_from_js_value_body())
        + js_bindings_text(d)
}

/// The JavaScript bindings of a derived type (see [`js_bindings_text`]).
pub fn js_bindings_for_schema(d: &Item) -> (r: String)
    ensures
        r@ == js_bindings_text(item_view(*d)),
{
    match d {
        Item::Struct(st) => struct_js_bindings(st),
        Item::Enum(e) => enum_js_bindings(e),
        Item::FromProxy(_, TypeShape::Struct(st)) => struct_js_bindings(st),
        Item::FromProxy(_, TypeShape::Enum(e)) => enum_js_bindings(e),
        _ => String::new(),
    }
}

/// Appends an impl of a `wasm_bindgen` trait for the type.
fn push_impl_block(out: &mut String, tr: &str, ident: &str, g: &crate::item::Generics, body: &str)
    ensures
        final(out)@ == old(out)@ + impl_block(tr@, ident@, generics_view(*g), body@),
{
    let ghost start = out@;
    out.append("#[cfg(target_arch = \"wasm32\")]\nimpl");
    let ig = g.impl_generics();
    out.append(ig.as_str());
    out.append(" ");
    out.append(tr);
    out.append(" for ");
    out.append(ident);
    let tg = g.ty_generics();
    out.append(tg.as_str());
    if g.where_clause.unicode_len() > 0 {
        out.append(" ");
        out.append(g.where_clause.as_str());
    }
    out.append(" {\n");
    out.append(body);
    out.append("}\n");
    assert(out@ =~= start + impl_block(tr@, ident@, generics_view(*g), body@));
}

/// The name and the generics of an item.
pub(crate) fn item_name_of(d: &Item) -> (r: (&str, &crate::item::Generics))
    ensures
        r.0@ == item_name(item_view(*d)).0,
        generics_view(*r.1) == item_name(item_view(*d)).1,
{
    match d {
        Item::Struct(st) => (st.ident.as_str(), &st.generics),
        Item::Transparent(t) => (t.ident.as_str(), &t.generics),
        Item::Enum(e) => (e.ident.as_str(), &e.generics),
        Item::IntoProxy(p, _) => (p.ident.as_str(), &p.generics),
        Item::FromProxy(p, _) => (p.ident.as_str(), &p.generics),
    }
}

/// The impls that let a derived type cross the `wasm_bindgen` boundary,
/// then its JavaScript bindings (see [`extra_impls_text`]).
#[verifier::spinoff_prover]
#[verifier::rlimit(80)]
pub fn extra_impls(d: &Item) -> (r: String)
    ensures
        r@ == extra_impls_text(item_view(*d)),
{
    let ghost dv = item_view(*d);
    let (ident, g) = item_name_of(d);
    let mut out = String::new();
    push_impl_block(&mut out, "::wasm_bindgen::describe::WasmDescribe", ident, g, "fn describe() { <::wasm_bindgen::JsValue as ::wasm_bindgen::describe::WasmDescribe>::describe() }\n");
    push_impl_block(&mut out, "::wasm_bindgen::convert::IntoWasmAbi", ident, g, "type Abi = <::wasm_bindgen::JsValue as ::wasm_bindgen::convert::IntoWasmAbi>::Abi;\n#[inline]\nfn into_abi(self) -> Self::Abi { ::wasm_bindgen::convert::IntoWasmAbi::into_abi(::typewire::Typewire::to_js(&self)) }\n");
    push_impl_block(&mut out, "::wasm_bindgen::convert::FromWasmAbi", ident, g, "type Abi = <::wasm_bindgen::JsValue as ::wasm_bindgen::convert::FromWasmAbi>::Abi;\n#[inline]\nunsafe fn from_abi(js: Self::Abi) -> Self { use ::wasm_bindgen::UnwrapThrowExt as _; let value = unsafe { <::wasm_bindgen::JsValue as ::wasm_bindgen::convert::FromWasmAbi>::from_abi(js) }; ::typewire::Typewire::from_js(value).unwrap_throw() }\n");
    push_impl_block(&mut out, "::wasm_bindgen::convert::RefFromWasmAbi", ident, g, "type Abi = <::wasm_bindgen::JsValue as ::wasm_bindgen::convert::RefFromWasmAbi>::Abi;\ntype Anchor = ::std::boxed::Box<Self>;\n#[inline]\nunsafe fn ref_from_abi(js: Self::Abi) -> Self::Anchor { use ::wasm_bindgen::UnwrapThrowExt as _; let value = unsafe { <::wasm_bindgen::JsValue as ::wasm_bindgen::convert::FromWasmAbi>::from_abi(js) }; ::std::boxed::Box::new(::typewire::Typewire::from_js(value).unwrap_throw()) }\n");
    push_impl_block(&mut out, "::wasm_bindgen::convert::LongRefFromWasmAbi", ident, g, "type Abi = <::wasm_bindgen::JsValue as ::wasm_bindgen::convert::LongRefFromWasmAbi>::Abi;\ntype Anchor = Self;\n#[inline]\nunsafe fn long_ref_from_abi(js: Self::Abi) -> Self::Anchor { use ::wasm_bindgen::UnwrapThrowExt as _; let value = unsafe { <::wasm_bindgen::JsValue as ::wasm_bindgen::convert::FromWasmAbi>::from_abi(js) }; ::typewire::Typewire::from_js(value).unwrap_throw() }\n");
    push_impl_block(&mut out, "::wasm_bindgen::convert::RefMutFromWasmAbi", ident, g, "type Abi = <::wasm_bindgen::JsValue as ::wasm_bindgen::convert::RefFromWasmAbi>::Abi;\ntype Anchor = ::std::boxed::Box<Self>;\n#[inline]\nunsafe fn ref_mut_from_abi(js: Self::Abi) -> Self::Anchor { use ::wasm_bindgen::UnwrapThrowExt as _; let value = unsafe { <::wasm_bindgen::JsValue as ::wasm_bindgen::convert::FromWasmAbi>::from_abi(js) }; ::std::boxed::Box::new(::typewire::Typewire::from_js(value).unwrap_throw()) }\n");
    push_impl_block(&mut out, "::wasm_bindgen::convert::OptionIntoWasmAbi", ident, g, "#[inline]\nfn none() -> Self::Abi { <::wasm_bindgen::JsValue as ::wasm_bindgen::convert::OptionIntoWasmAbi>::none() }\n");
    push_impl_block(&mut out, "::wasm_bindgen::convert::OptionFromWasmAbi", ident, g, "#[inline]\nfn is_none(abi: &Self::Abi) -> bool { <::wasm_bindgen::JsValue as ::wasm_bindgen::convert::OptionFromWasmAbi>::is_none(abi) }\n");
    push_impl_block(&mut out, "::wasm_bindgen::convert::TryFromJsValue", ident, g, "fn try_from_js_value(value: ::wasm_bindgen::JsValue) -> ::core::result::Result<Self, ::wasm_bindgen::JsValue> { ::typewire::Typewire::from_js(value).map_err(|e| ::wasm_bindgen::JsValue::from_str(&::std::string::ToString::to_string(&e))) }\nfn try_from_js_value_ref(value: &::wasm_bindgen::JsValue) -> ::core::option::Option<Self> { ::typewire::Typewire::from_js(value.clone()).ok() }\n");
    let bindings = js_bindings_for_schema(d);
    out.append(bindings.as_str());
    assert(out@ =~= extra_impls_text(dv));
    out
}


// ---------------------------------------------------------------------------
// `to_js`
// ---------------------------------------------------------------------------

/// The argument passing a serialized field, at `prefix` followed by its
/// name, to a constructor: `undefined` when its `skip_serializing_if`
/// predicate holds, else its JavaScript value.
pub open spec fn to_js_arg(prefix: Seq<char>, f: FieldView) -> Seq<char> {
    let acc = prefix + f.ident;
    match f.skip_serializing_if {
        Some(p) => "if "@ + p + "("@ + acc + ") { ::wasm_bindgen::JsValue::UNDEFINED } else { "@
            + to_js_text(acc, f.flags) + " }"@,
        None => to_js_text(acc, f.flags),
    }
}

/// The arguments of the serialized fields, separated by `, `.
pub open spec fn to_js_args(prefix: Seq<char>, fs: Seq<FieldView>) -> Seq<char>
    decreases fs.len(),
{
    if fs.len() == 0 {
        Seq::empty()
    } else if flag_set(fs.last().flags, 1u8) {
        to_js_args(prefix, fs.drop_last())
    } else if ser_count(fs.drop_last()) == 0 {
        to_js_args(prefix, fs.drop_last()) + to_js_arg(prefix, fs.last())
    } else {
        to_js_args(prefix, fs.drop_last()) + ", "@ + to_js_arg(prefix, fs.last())
    }
}

/// The names of the serialized fields, each followed by `, `.
pub open spec fn ser_binds(fs: Seq<FieldView>) -> Seq<char>
    decreases fs.len(),
{
    if fs.len() == 0 {
        Seq::empty()
    } else if flag_set(fs.last().flags, 1u8) {
        ser_binds(fs.drop_last())
    } else {
        ser_binds(fs.drop_last()) + fs.last().ident + ", "@
    }
}

/// The pushes of `n` numbered values `<var><i>` onto `arr`, each by its
/// conversion.
pub open spec fn pushes(var: Seq<char>, n: nat) -> Seq<char>
    decreases n,
{
    if n == 0 {
        Seq::empty()
    } else {
        pushes(var, (n - 1) as nat) + "arr.push(&::typewire::Typewire::to_js("@ + var + decimal(
            (n - 1) as nat,
        ) + "));\n"@
    }
}

/// The body of a struct's `to_js`: the constructor helper called with the
/// serialized fields; an array of the positional fields; `null` for a
/// unit struct.
pub open spec fn struct_to_js_text(st: StructView) -> Seq<char> {
    match st.shape {
        StructShapeView::Named(fs) => "__tw_"@ + st.ident + "_construct("@ + to_js_args("&self."@, fs)
            + ").into()\n"@,
        StructShapeView::Tuple(ts) => "let arr = ::js_sys::Array::new();\n"@ + pushes("&self."@, ts.len())
            + "arr.into()\n"@,
        StructShapeView::Unit => "::wasm_bindgen::JsValue::NULL\n"@,
    }
}

/// The `to_js` arm of a serialized variant, by tagging: through the
/// variant's constructor helper, except an externally tagged unit variant
/// (its wire name as a string), an internally tagged newtype variant (its
/// field's value with the tag set in it) and untagged unit, newtype and
/// tuple variants (`null`, the field's value, an array).
pub open spec fn to_js_arm(t: TaggingView, tn: Seq<char>, v: VariantView) -> Seq<char> {
    let path = tn + "::"@ + v.ident;
    let cons = "__tw_"@ + tn + "_construct_"@ + v.ident;
    match v.kind {
        VariantKindView::Unit => match t {
            TaggingView::External => path + " => ::wasm_bindgen::JsValue::from_str("@ + lit(v.wire_name)
                + "),\n"@,
            TaggingView::Untagged => path + " => ::wasm_bindgen::JsValue::NULL,\n"@,
            _ => path + " => "@ + cons + "().into(),\n"@,
        },
        VariantKindView::Named(fs) => path + " { "@ + ser_binds(fs) + ".. } => "@ + cons + "("@
            + to_js_args(Seq::empty(), fs) + ").into(),\n"@,
        VariantKindView::Unnamed(ts) => {
            let n = ts.len();
            match t {
                TaggingView::Internal { tag } => if n == 1 {
                    path
                        + "(__inner) => { let obj_val = ::typewire::Typewire::to_js(__inner); let _ = ::js_sys::Reflect::set(&obj_val, &::wasm_bindgen::JsValue::from_str("@
                        + lit(tag) + "), &::wasm_bindgen::JsValue::from_str("@ + lit(v.wire_name)
                        + ")); obj_val }\n"@
                } else {
                    Seq::empty()
                },
                TaggingView::Untagged => if n == 1 {
                    path + "(__inner) => ::typewire::Typewire::to_js(__inner),\n"@
                } else {
                    path + "("@ + numbered("__f"@, n)
                        + ") => { let arr = ::js_sys::Array::new(); "@ + pushes("__f"@, n)
                        + "arr.into() }\n"@
                },
                _ => path + "("@ + numbered("__f"@, n) + ") => "@ + cons + "("@ + (if n == 1 {
                    "::typewire::Typewire::to_js(__f0)"@
                } else {
                    "{ let arr = ::js_sys::Array::new(); "@ + pushes("__f"@, n) + "arr.into() }"@
                }) + ").into(),\n"@,
            }
        },
    }
}

/// The `to_js` arms of the serialized variants.
pub open spec fn to_js_arms(t: TaggingView, tn: Seq<char>, vs: Seq<VariantView>) -> Seq<char>
    decreases vs.len(),
{
    if vs.len() == 0 {
        Seq::empty()
    } else if flag_set(vs.last().flags, 1u8) {
        to_js_arms(t, tn, vs.drop_last())
    } else {
        to_js_arms(t, tn, vs.drop_last()) + to_js_arm(t, tn, vs.last())
    }
}

/// The body of an enum's `to_js`: a match of `self` on the serialized
/// variants, a variant skipped in serialization giving `undefined`.
pub open spec fn enum_to_js_text(e: EnumView) -> Seq<char> {
    "match self {\n"@ + to_js_arms(e.tagging, e.ident, e.variants)
        + "#[cfg_attr(not(target_arch = \"wasm32\"), expect(unreachable_patterns, reason = \"wasm-only variants may be skipped\"))]\n_ => ::wasm_bindgen::JsValue::UNDEFINED,\n}\n"@
}

/// Appends the argument of one serialized field.
fn push_to_js_arg(out: &mut String, prefix: &str, f: &Field)
    ensures
        final(out)@ == old(out)@ + to_js_arg(prefix@, field_view(*f)),
{
    let ghost start = out@;
    let mut acc = String::from_str(prefix);
    acc.append(f.ident.as_str());
    match &f.skip_serializing_if {
        Some(p) => {
            out.append("if ");
            out.append(p.as_str());
            out.append("(");
            out.append(acc.as_str());
            out.append(") { ::wasm_bindgen::JsValue::UNDEFINED } else { ");
            push_to_js(out, acc.as_str(), f);
            out.append(" }");
        },
        None => push_to_js(out, acc.as_str(), f),
    }
    assert(out@ =~= start + to_js_arg(prefix@, field_view(*f)));
}

/// Appends the arguments of the serialized fields.
fn push_to_js_args(out: &mut String, prefix: &str, fields: &Vec<Field>)
    ensures
        final(out)@ == old(out)@ + to_js_args(prefix@, fields_view(fields@)),
{
    let ghost fv = fields_view(fields@);
    let ghost start = out@;
    proof {
        lemma_fields_view(fields@);
    }
    assert(fv.take(0) =~= Seq::<FieldView>::empty());
    let mut i: usize = 0;
    let mut n: usize = 0;
    while i < fields.len()
        invariant
            i <= fields@.len(),
            n <= i,
            fv.len() == fields@.len(),
            forall|j: int| 0 <= j < fv.len() ==> #[trigger] fv[j] == field_view(fields@[j]),
            out@ == start + to_js_args(prefix@, fv.take(i as int)),
            n == ser_count(fv.take(i as int)),
        decreases fields@.len() - i,
    {
        let f = &fields[i];
        assert(fv.take(i + 1).drop_last() =~= fv.take(i as int));
        if !f.flags.contains(crate::flags::FieldFlags::SKIP_SER) {
            if n > 0 {
                out.append(", ");
            }
            push_to_js_arg(out, prefix, f);
            n = n + 1;
        }
        assert(out@ =~= start + to_js_args(prefix@, fv.take(i + 1)));
        i = i + 1;
    }
    assert(fv.take(fields@.len() as int) =~= fv);
}

/// Appends the names of the serialized fields.
fn push_ser_binds(out: &mut String, fields: &Vec<Field>)
    ensures
        final(out)@ == old(out)@ + ser_binds(fields_view(fields@)),
{
    let ghost fv = fields_view(fields@);
    let ghost start = out@;
    proof {
        lemma_fields_view(fields@);
    }
    assert(fv.take(0) =~= Seq::<FieldView>::empty());
    let mut i: usize = 0;
    while i < fields.len()
        invariant
            i <= fields@.len(),
            fv.len() == fields@.len(),
            forall|j: int| 0 <= j < fv.len() ==> #[trigger] fv[j] == field_view(fields@[j]),
            out@ == start + ser_binds(fv.take(i as int)),
        decreases fields@.len() - i,
    {
        let f = &fields[i];
        assert(fv.take(i + 1).drop_last() =~= fv.take(i as int));
        if !f.flags.contains(crate::flags::FieldFlags::SKIP_SER) {
            out.append(f.ident.as_str());
            out.append(", ");
        }
        assert(out@ =~= start + ser_binds(fv.take(i + 1)));
        i = i + 1;
    }
    assert(fv.take(fields@.len() as int) =~= fv);
}

/// Appends the pushes of `n` numbered values onto `arr`.
fn push_pushes(out: &mut String, var: &str, n: usize)
    ensures
        final(out)@ == old(out)@ + pushes(var@, n as nat),
{
    let ghost start = out@;
    let mut i: usize = 0;
    while i < n
        invariant
            i <= n,
            out@ == start + pushes(var@, i as nat),
        decreases n - i,
    {
        out.append("arr.push(&::typewire::Typewire::to_js(");
        out.append(var);
        push_decimal(out, i);
        out.append("));\n");
        assert(out@ =~= start + pushes(var@, (i + 1) as nat));
        i = i + 1;
    }
}

/// The body of a struct's `to_js` (see [`struct_to_js_text`]).
pub fn struct_to_js_body(s: &Struct) -> (r: String)
    ensures
        r@ == struct_to_js_text(struct_view(*s)),
{
    let mut out = String::new();
    match &s.shape {
        StructShape::Named(fields) => {
            out.append("__tw_");
            out.append(s.ident.as_str());
            out.append("_construct(");
            push_to_js_args(&mut out, "&self.", fields);
            out.append(").into()\n");
        },
        StructShape::Tuple(ts) => {
            out.append("let arr = ::js_sys::Array::new();\n");
            push_pushes(&mut out, "&self.", ts.len());
            out.append("arr.into()\n");
        },
        StructShape::Unit => out.append("::wasm_bindgen::JsValue::NULL\n"),
    }
    assert(out@ =~= struct_to_js_text(struct_view(*s)));
    out
}

/// Appends the `to_js` arm of a serialized variant with positional fields.
#[verifier::spinoff_prover]
#[verifier::rlimit(80)]
fn push_unnamed_to_js_arm(out: &mut String, tagging: &Tagging, tn: &str, v: &Variant, n: usize)
    requires
        variant_view(*v).kind is Unnamed,
        variant_view(*v).kind->Unnamed_0.len() == n,
    ensures
        final(out)@ == old(out)@ + to_js_arm(tagging_view(*tagging), tn@, variant_view(*v)),
{
    let ghost start = out@;
    let ghost vv = variant_view(*v);
    let ghost t = tagging_view(*tagging);
    match tagging {
        Tagging::Internal { tag } => {
            if n == 1 {
                out.append(tn);
                out.append("::");
                out.append(v.ident.as_str());
                out.append("(__inner) => { let obj_val = ::typewire::Typewire::to_js(__inner); let _ = ::js_sys::Reflect::set(&obj_val, &::wasm_bindgen::JsValue::from_str(");
                push_lit(out, tag.as_str());
                out.append("), &::wasm_bindgen::JsValue::from_str(");
                push_lit(out, v.wire_name.as_str());
                out.append(")); obj_val }\n");
            }
        },
        Tagging::Untagged => {
            out.append(tn);
            out.append("::");
            out.append(v.ident.as_str());
            if n == 1 {
                out.append("(__inner) => ::typewire::Typewire::to_js(__inner),\n");
            } else {
                out.append("(");
                push_numbered(out, "__f", n);
                out.append(") => { let arr = ::js_sys::Array::new(); ");
                push_pushes(out, "__f", n);
                out.append("arr.into() }\n");
            }
        },
        _ => {
            out.append(tn);
            out.append("::");
            out.append(v.ident.as_str());
            out.append("(");
            push_numbered(out, "__f", n);
            out.append(") => ");
            out.append("__tw_");
            out.append(tn);
            out.append("_construct_");
            out.append(v.ident.as_str());
            out.append("(");
            if n == 1 {
                out.append("::typewire::Typewire::to_js(__f0)");
            } else {
                out.append("{ let arr = ::js_sys::Array::new(); ");
                push_pushes(out, "__f", n);
                out.append("arr.into() }");
            }
            out.append(").into(),\n");
        },
    }
    assert(out@ =~= start + to_js_arm(t, tn@, vv));
}

/// Appends the `to_js` arm of a serialized variant.
#[verifier::spinoff_prover]
#[verifier::rlimit(80)]
fn push_to_js_arm(out: &mut String, tagging: &Tagging, tn: &str, v: &Variant)
    ensures
        final(out)@ == old(out)@ + to_js_arm(tagging_view(*tagging), tn@, variant_view(*v)),
{
    let ghost start = out@;
    let ghost vv = variant_view(*v);
    let ghost t = tagging_view(*tagging);
    match &v.kind {
        VariantKind::Unit => {
            out.append(tn);
            out.append("::");
            out.append(v.ident.as_str());
            match tagging {
                Tagging::External => {
                    out.append(" => ::wasm_bindgen::JsValue::from_str(");
                    push_lit(out, v.wire_name.as_str());
                    out.append("),\n");
                },
                Tagging::Untagged => out.append(" => ::wasm_bindgen::JsValue::NULL,\n"),
                _ => {
                    out.append(" => ");
                    out.append("__tw_");
                    out.append(tn);
                    out.append("_construct_");
                    out.append(v.ident.as_str());
                    out.append("().into(),\n");
                },
            }
            assert(out@ =~= start + to_js_arm(t, tn@, vv));
        },
        VariantKind::Named(fs) => {
            out.append(tn);
            out.append("::");
            out.append(v.ident.as_str());
            out.append(" { ");
            push_ser_binds(out, fs);
            out.append(".. } => ");
            out.append("__tw_");
            out.append(tn);
            out.append("_construct_");
            out.append(v.ident.as_str());
            out.append("(");
            proof {
                reveal_strlit("");
            }
            push_to_js_args(out, "", fs);
            out.append(").into(),\n");
            assert(""@ =~= Seq::<char>::empty());
            assert(out@ =~= start + to_js_arm(t, tn@, vv));
        },
        VariantKind::Unnamed(ts) => {
            push_unnamed_to_js_arm(out, tagging, tn, v, ts.len());
        },
    }
}

/// The body of an enum's `to_js` (see [`enum_to_js_text`]).
pub fn enum_to_js_body(e: &Enum) -> (r: String)
    ensures
        r@ == enum_to_js_text(enum_view(*e)),
{
    let ghost ev = enum_view(*e);
    let ghost vv = ev.variants;
    let ghost t = ev.tagging;
    proof {
        lemma_variants_view(e.variants@);
    }
    let tn = e.ident.as_str();
    let mut out = String::from_str("match self {\n");
    let ghost start = out@;
    assert(vv.take(0) =~= Seq::<VariantView>::empty());
    let mut i: usize = 0;
    while i < e.variants.len()
        invariant
            i <= e.variants@.len(),
            vv == variants_view(e.variants@),
            t == tagging_view(e.tagging),
            vv.len() == e.variants@.len(),
            forall|j: int| 0 <= j < vv.len() ==> #[trigger] vv[j] == variant_view(e.variants@[j]),
            out@ == start + to_js_arms(t, tn@, vv.take(i as int)),
        decreases e.variants@.len() - i,
    {
        let v = &e.variants[i];
        assert(vv.take(i + 1).drop_last() =~= vv.take(i as int));
        if !v.flags.contains(crate::flags::VariantFlags::SKIP_SER) {
            push_to_js_arm(&mut out, &e.tagging, tn, v);
        }
        assert(out@ =~= start + to_js_arms(t, tn@, vv.take(i + 1)));
        i = i + 1;
    }
    assert(vv.take(e.variants@.len() as int) =~= vv);
    out.append("#[cfg_attr(not(target_arch = \"wasm32\"), expect(unreachable_patterns, reason = \"wasm-only variants may be skipped\"))]\n_ => ::wasm_bindgen::JsValue::UNDEFINED,\n}\n");
    assert(out@ =~= enum_to_js_text(ev));
    out
}


// ---------------------------------------------------------------------------
// Untagged enums, and the dispatch on tagging
// ---------------------------------------------------------------------------

/// The try of a variant with named fields of an untagged enum: its
/// fields destructured from the value.
pub open spec fn untagged_destruct_text(name: Seq<char>, vname: Seq<char>, fs: Seq<FieldView>) -> Seq<char> {
    "if let Ok(v) = (|| -> ::core::result::Result<"@ + name + ", ::typewire::Error> {\n"@ + (if any_slot(
        fs,
    ) {
        "let __arr = __tw_"@ + name + "_destruct_"@ + vname + "(&value);\n"@
    } else {
        Seq::empty()
    }) + destruct_bindings(fs) + "Ok("@ + name + "::"@ + vname + " { "@ + field_names(fs)
        + "})\n})() { return Ok(v); }\n"@
}

/// The tries of the variants of an untagged enum that are read, in order:
/// a variant with named fields is destructured; any other is tried as an
/// untagged variant of a tagged enum is.
pub open spec fn untagged_attempts(name: Seq<char>, vs: Seq<VariantView>) -> Seq<char>
    decreases vs.len(),
{
    if vs.len() == 0 {
        Seq::empty()
    } else if flag_set(vs.last().flags, 2u8) {
        untagged_attempts(name, vs.drop_last())
    } else {
        untagged_attempts(name, vs.drop_last()) + match vs.last().kind {
            VariantKindView::Named(fs) => untagged_destruct_text(name, vs.last().ident, fs),
            _ => untagged_fallback(name, vs.last()),
        }
    }
}

/// The body of an untagged enum's `from_js`: each variant is tried in
/// order, else `NoMatchingVariant`.
pub open spec fn untagged_from_js_text(e: EnumView) -> Seq<char> {
    untagged_attempts(e.ident, e.variants) + "Err(::typewire::Error::NoMatchingVariant)\n"@
}

/// The body of an enum's `from_js`, by its tagging.
pub open spec fn enum_from_js_text(e: EnumView) -> Seq<char> {
    match e.tagging {
        TaggingView::Untagged => untagged_from_js_text(e),
        TaggingView::Internal { tag } => int_from_js_text(e, tag),
        TaggingView::Adjacent { tag, content } => adj_from_js_text(e, tag),
        TaggingView::External => ext_from_js_text(e),
    }
}

/// An enum's `patch_js` method: an atomic enum is replaced whole when it
/// differs; an enum of unit variants or an untagged one is written when
/// its JavaScript value differs; a tagged enum is patched variant by
/// variant.
pub open spec fn enum_patch_js_text(e: EnumView) -> Seq<char> {
    if flag_set(e.flags, 1u8) {
        patch_header("old"@, "set"@) + "::typewire::patch_js_atomic(self, old, set);\n}\n"@
    } else if flag_set(e.flags, 2u8) || e.tagging is Untagged {
        patch_header("old"@, "set"@) + "let new = self.to_js();\nif old != &new { set(new); }\n}\n"@
    } else {
        match e.tagging {
            TaggingView::Internal { tag } => int_patch_js_text(e),
            TaggingView::Adjacent { tag, content } => adj_patch_js_text(e, content),
            _ => ext_patch_js_text(e),
        }
    }
}

/// Appends the try of a variant with named fields of an untagged enum.
#[verifier::spinoff_prover]
#[verifier::rlimit(80)]
fn push_untagged_destruct(out: &mut String, name: &str, vname: &str, fs: &Vec<Field>)
    ensures
        final(out)@ == old(out)@ + untagged_destruct_text(name@, vname@, fields_view(fs@)),
{
    let ghost start = out@;
    out.append("if let Ok(v) = (|| -> ::core::result::Result<");
    out.append(name);
    out.append(", ::typewire::Error> {\n");
    if fields_any_slot(fs) {
        out.append("let __arr = __tw_");
        out.append(name);
        out.append("_destruct_");
        out.append(vname);
        out.append("(&value);\n");
    }
    push_destruct_bindings(out, fs);
    out.append("Ok(");
    out.append(name);
    out.append("::");
    out.append(vname);
    out.append(" { ");
    push_field_names(out, fs);
    out.append("})\n})() { return Ok(v); }\n");
    assert(out@ =~= start + untagged_destruct_text(name@, vname@, fields_view(fs@)));
}

/// Appends the try of one variant of an untagged enum.
fn push_untagged_attempt(out: &mut String, name: &str, v: &Variant)
    ensures
        final(out)@ == old(out)@ + match variant_view(*v).kind {
            VariantKindView::Named(fs) => untagged_destruct_text(name@, variant_view(*v).ident, fs),
            _ => untagged_fallback(name@, variant_view(*v)),
        },
{
    match &v.kind {
        VariantKind::Named(fs) => push_untagged_destruct(out, name, v.ident.as_str(), fs),
        _ => push_untagged_fallback(out, name, v),
    }
}

/// The body of an untagged enum's `from_js` (see
/// [`untagged_from_js_text`]).
pub fn untagged_from_js(e: &Enum) -> (r: String)
    ensures
        r@ == untagged_from_js_text(enum_view(*e)),
{
    let ghost ev = enum_view(*e);
    let ghost vv = ev.variants;
    proof {
        lemma_variants_view(e.variants@);
    }
    let name = e.ident.as_str();
    let mut out = String::new();
    assert(vv.take(0) =~= Seq::<VariantView>::empty());
    let mut i: usize = 0;
    while i < e.variants.len()
        invariant
            i <= e.variants@.len(),
            vv == variants_view(e.variants@),
            vv.len() == e.variants@.len(),
            forall|j: int| 0 <= j < vv.len() ==> #[trigger] vv[j] == variant_view(e.variants@[j]),
            out@ == untagged_attempts(name@, vv.take(i as int)),
        decreases e.variants@.len() - i,
    {
        let v = &e.variants[i];
        assert(vv.take(i + 1).drop_last() =~= vv.take(i as int));
        if !v.flags.contains(crate::flags::VariantFlags::SKIP_DE) {
            push_untagged_attempt(&mut out, name, v);
        }
        assert(out@ =~= untagged_attempts(name@, vv.take(i + 1)));
        i = i + 1;
    }
    assert(vv.take(e.variants@.len() as int) =~= vv);
    out.append("Err(::typewire::Error::NoMatchingVariant)\n");
    out
}

/// The body of an enum's `from_js` (see [`enum_from_js_text`]).
pub fn enum_from_js_body(e: &Enum) -> (r: String)
    ensures
        r@ == enum_from_js_text(enum_view(*e)),
{
    match &e.tagging {
        Tagging::Untagged => untagged_from_js(e),
        Tagging::Internal { tag } => int_tagged_from_js(e, tag.as_str()),
        Tagging::Adjacent { tag, .. } => adj_tagged_from_js(e, tag.as_str()),
        Tagging::External => ext_tagged_from_js(e),
    }
}

/// An enum's `patch_js` method (see [`enum_patch_js_text`]).
pub fn enum_patch_js_fn(e: &Enum) -> (r: String)
    ensures
        r@ == enum_patch_js_text(enum_view(*e)),
{
    let ghost ev = enum_view(*e);
    let is_untagged = match &e.tagging {
        Tagging::Untagged => true,
        _ => false,
    };
    if e.flags.contains(crate::flags::EnumFlags::ATOMIC) {
        let mut out = String::new();
        push_patch_header(&mut out, "old", "set");
        out.append("::typewire::patch_js_atomic(self, old, set);\n}\n");
        assert(out@ =~= enum_patch_js_text(ev));
        return out;
    }
    if e.flags.contains(crate::flags::EnumFlags::ALL_UNIT) || is_untagged {
        let mut out = String::new();
        push_patch_header(&mut out, "old", "set");
        out.append("let new = self.to_js();\nif old != &new { set(new); }\n}\n");
        assert(out@ =~= enum_patch_js_text(ev));
        return out;
    }
    match &e.tagging {
        Tagging::Internal { .. } => int_tagged_patch_js(e),
        Tagging::Adjacent { content, .. } => adj_tagged_patch_js(e, content.as_str()),
        _ => ext_tagged_patch_js(e),
    }
}

// ---------------------------------------------------------------------------
// The methods of a type
// ---------------------------------------------------------------------------

/// A `to_js` method around a body.
pub open spec fn to_js_fn(body: Seq<char>) -> Seq<char> {
    "fn to_js(&self) -> ::wasm_bindgen::JsValue {\nuse ::wasm_bindgen::JsCast as _;\n"@ + body + "}\n"@
}

/// A `from_js` method around a body; an error gets the type's name as
/// context.
pub open spec fn from_js_fn(name: Seq<char>, body: Seq<char>) -> Seq<char> {
    "fn from_js(value: ::wasm_bindgen::JsValue) -> ::core::result::Result<Self, ::typewire::Error> {\nuse ::wasm_bindgen::JsCast as _;\nlet __parse = move || -> ::core::result::Result<Self, ::typewire::Error> {\n"@
        + body + "};\n__parse().map_err(|e| e.in_context("@ + lit(name) + "))\n}\n"@
}

/// The access of a transparent type's field, and how the type is built
/// from a value of it.
pub open spec fn transparent_access(t: TransparentView) -> (Seq<char>, Seq<char>) {
    match t.field_ident {
        Some(id) => ("self."@ + id, "Self { "@ + id + ": val }"@),
        None => ("self.0"@, "Self(val)"@),
    }
}

/// The methods of a transparent type: each delegates to its field's type
/// (an atomic one is patched whole).
pub open spec fn transparent_methods(t: TransparentView) -> Seq<Seq<char>> {
    let ty = t.field_ty;
    let acc = transparent_access(t).0;
    let patch = if t.atomic {
        patch_header("old"@, "set"@) + "typewire::patch_js_atomic(self, old, set);\n}\n"@
    } else {
        patch_header("old"@, "set"@) + "<"@ + ty + " as ::typewire::Typewire>::patch_js(&"@ + acc
            + ", old, set);\n}\n"@
    };
    seq![
        "fn to_js(&self) -> ::wasm_bindgen::JsValue {\n<"@ + ty + " as ::typewire::Typewire>::to_js(&"@ + acc + ")\n}\n"@,
        "fn from_js(value: ::wasm_bindgen::JsValue) -> ::core::result::Result<Self, ::typewire::Error> {\nlet val = <"@
            + ty + " as ::typewire::Typewire>::from_js(value)?;\nOk("@ + transparent_access(t).1 + ")\n}\n"@,
        patch,
    ]
}

impl WasmCodegen {
    /// The `to_js`, `from_js` and `patch_js` methods of a struct.
    pub fn expand_struct(s: &Struct) -> (r: Vec<String>)
        ensures
            strings_view(r@) == seq![
                to_js_fn(struct_to_js_text(struct_view(*s))),
                from_js_fn(s.ident@, struct_from_js_text(struct_view(*s))),
                struct_patch_js_text(struct_view(*s)),
            ],
    {
        let to_js = wrap_to_js(struct_to_js_body(s).as_str());
        let from_js = wrap_from_js(s.ident.as_str(), struct_from_js_body(s).as_str());
        let patch = struct_patch_js_fn(s);
        let r = vec![to_js, from_js, patch];
        assert(strings_view(r@) =~= seq![
            to_js_fn(struct_to_js_text(struct_view(*s))),
            from_js_fn(s.ident@, struct_from_js_text(struct_view(*s))),
            struct_patch_js_text(struct_view(*s)),
        ]);
        r
    }

    /// The `to_js`, `from_js` and `patch_js` methods of an enum.
    pub fn expand_enum(e: &Enum) -> (r: Vec<String>)
        ensures
            strings_view(r@) == seq![
                to_js_fn(enum_to_js_text(enum_view(*e))),
                from_js_fn(e.ident@, enum_from_js_text(enum_view(*e))),
                enum_patch_js_text(enum_view(*e)),
            ],
    {
        let to_js = wrap_to_js(enum_to_js_body(e).as_str());
        let from_js = wrap_from_js(e.ident.as_str(), enum_from_js_body(e).as_str());
        let patch = enum_patch_js_fn(e);
        let r = vec![to_js, from_js, patch];
        assert(strings_view(r@) =~= seq![
            to_js_fn(enum_to_js_text(enum_view(*e))),
            from_js_fn(e.ident@, enum_from_js_text(enum_view(*e))),
            enum_patch_js_text(enum_view(*e)),
        ]);
        r
    }

    /// The `to_js`, `from_js` and `patch_js` methods of a transparent type
    /// (see [`transparent_methods`]).
    pub fn expand_transparent(t: &Transparent) -> (r: Vec<String>)
        ensures
            strings_view(r@) == transparent_methods(transparent_view(*t)),
    {
        let ghost tv = transparent_view(*t);
        let mut acc = String::new();
        let mut construct = String::new();
        match &t.field_ident {
            Some(id) => {
                acc.append("self.");
                acc.append(id.as_str());
                construct.append("Self { ");
                construct.append(id.as_str());
                construct.append(": val }");
            },
            None => {
                acc.append("self.0");
                construct.append("Self(val)");
            },
        }
        assert(acc@ =~= transparent_access(tv).0);
        assert(construct@ =~= transparent_access(tv).1);
        let mut ty = String::new();
        ty.append(t.field_ty.as_str());
        let mut to_js = String::from_str("fn to_js(&self) -> ::wasm_bindgen::JsValue {\n<");
        to_js.append(ty.as_str());
        to_js.append(" as ::typewire::Typewire>::to_js(&");
        to_js.append(acc.as_str());
        to_js.append(")\n}\n");
        let mut from_js = String::from_str("fn from_js(value: ::wasm_bindgen::JsValue) -> ::core::result::Result<Self, ::typewire::Error> {\nlet val = <");
        from_js.append(ty.as_str());
        from_js.append(" as ::typewire::Typewire>::from_js(value)?;\nOk(");
        from_js.append(construct.as_str());
        from_js.append(")\n}\n");
        let mut patch = String::new();
        push_patch_header(&mut patch, "old", "set");
        if t.atomic {
            patch.append("typewire::patch_js_atomic(self, old, set);\n}\n");
        } else {
            patch.append("<");
            patch.append(ty.as_str());
            patch.append(" as ::typewire::Typewire>::patch_js(&");
            patch.append(acc.as_str());
            patch.append(", old, set);\n}\n");
        }
        let r = vec![to_js, from_js, patch];
        assert(strings_view(r@) =~= transparent_methods(tv));
        r
    }
}

/// A `to_js` method around a body.
fn wrap_to_js(body: &str) -> (r: String)
    ensures
        r@ == to_js_fn(body@),
{
    let mut out = String::from_str("fn to_js(&self) -> ::wasm_bindgen::JsValue {\nuse ::wasm_bindgen::JsCast as _;\n");
    out.append(body);
    out.append("}\n");
    assert(out@ =~= to_js_fn(body@));
    out
}

/// A `from_js` method around a body.
fn wrap_from_js(name: &str, body: &str) -> (r: String)
    ensures
        r@ == from_js_fn(name@, body@),
{
    let mut out = String::from_str("fn from_js(value: ::wasm_bindgen::JsValue) -> ::core::result::Result<Self, ::typewire::Error> {\nuse ::wasm_bindgen::JsCast as _;\nlet __parse = move || -> ::core::result::Result<Self, ::typewire::Error> {\n");
    out.append(body);
    out.append("};\n__parse().map_err(|e| e.in_context(");
    push_lit(&mut out, name);
    out.append("))\n}\n");
    assert(out@ =~= from_js_fn(name@, body@));
    out
}


// ---------------------------------------------------------------------------
// Proxy types
// ---------------------------------------------------------------------------

/// The body of an `into` type's `from_js`: through its `from` or
/// `try_from` proxy (a failed conversion becomes a `Custom` error with
/// its message), or from its own shape.
pub open spec fn into_proxy_from_js_text(b: FromBodyView) -> Seq<char> {
    match b {
        FromBodyView::Proxy(proxy) => "let proxy = <"@ + proxy
            + " as ::typewire::Typewire>::from_js(value)?;\nOk(<Self as ::core::convert::From<"@ + proxy
            + ">>::from(proxy))\n"@,
        FromBodyView::TryProxy(proxy) => "let proxy = <"@ + proxy
            + " as ::typewire::Typewire>::from_js(value)?;\n<Self as ::core::convert::TryFrom<"@ + proxy
            + ">>::try_from(proxy).map_err(|e| ::typewire::Error::Custom(::std::string::ToString::to_string(&e)))\n"@,
        FromBodyView::Own(TypeShapeView::Struct(st)) => struct_from_js_text(st),
        FromBodyView::Own(TypeShapeView::Enum(e)) => enum_from_js_text(e),
    }
}

/// The methods of a type serialized through its `into` type: converted
/// into that type for `to_js` and `patch_js`.
pub open spec fn into_proxy_methods(into_ty: Seq<char>, b: FromBodyView) -> Seq<Seq<char>> {
    let ty = into_ty;
    seq![
        "fn to_js(&self) -> ::wasm_bindgen::JsValue {\nlet proxy: "@ + ty
            + " = ::core::convert::Into::into(self.clone());\n<"@ + ty
            + " as ::typewire::Typewire>::to_js(&proxy)\n}\n"@,
        "fn from_js(value: ::wasm_bindgen::JsValue) -> ::core::result::Result<Self, ::typewire::Error> {\n"@
            + into_proxy_from_js_text(b) + "}\n"@,
        patch_header("old"@, "set"@) + "let proxy: "@ + ty
            + " = ::core::convert::Into::into(self.clone());\n<"@ + ty
            + " as ::typewire::Typewire>::patch_js(&proxy, old, set);\n}\n"@,
    ]
}

/// The methods of a type deserialized from its `from` (or `try_from`)
/// proxy type: `from_js` reads the proxy and converts it; `to_js` and
/// `patch_js` are those of the type's own shape.
pub open spec fn from_proxy_methods(
    ident: Seq<char>,
    generics: GenericsView,
    proxy: Seq<char>,
    is_try: bool,
    shape: TypeShapeView,
) -> Seq<Seq<char>> {
    let pt = proxy;
    let this = ident + generics.ty_generics;
    let read = "let proxy = <"@ + pt + " as ::typewire::Typewire>::from_js(value)?;\n"@;
    let body = if is_try {
        read + "<"@ + this + " as ::core::convert::TryFrom<"@ + pt
            + ">>::try_from(proxy).map_err(|e| ::typewire::Error::Custom(::std::string::ToString::to_string(&e)))\n"@
    } else {
        read + "Ok(<"@ + this + " as ::core::convert::From<"@ + pt + ">>::from(proxy))\n"@
    };
    let (to_js, patch) = match shape {
        TypeShapeView::Struct(st) => (struct_to_js_text(st), struct_patch_js_text(st)),
        TypeShapeView::Enum(e) => (enum_to_js_text(e), enum_patch_js_text(e)),
    };
    seq![
        to_js_fn(to_js),
        "fn from_js(value: ::wasm_bindgen::JsValue) -> ::core::result::Result<Self, ::typewire::Error> {\n"@
            + body + "}\n"@,
        patch,
    ]
}

impl WasmCodegen {
    /// The methods of a type serialized through its `into` type (see
    /// [`into_proxy_methods`]).
    pub fn expand_into_proxy(p: &IntoProxy, from_body: &FromBody) -> (r: Vec<String>)
        ensures
            strings_view(r@) == into_proxy_methods(p.into_ty@, from_body_view(*from_body)),
    {
        let ghost b = from_body_view(*from_body);
        let mut ty = String::new();
        ty.append(p.into_ty.as_str());
        let body = match from_body {
            FromBody::Proxy(proxy) => {
                let mut out = String::from_str("let proxy = <");
                out.append(proxy.as_str());
                out.append(" as ::typewire::Typewire>::from_js(value)?;\nOk(<Self as ::core::convert::From<");
                out.append(proxy.as_str());
                out.append(">>::from(proxy))\n");
                out
            },
            FromBody::TryProxy(proxy) => {
                let mut out = String::from_str("let proxy = <");
                out.append(proxy.as_str());
                out.append(" as ::typewire::Typewire>::from_js(value)?;\n<Self as ::core::convert::TryFrom<");
                out.append(proxy.as_str());
                out.append(">>::try_from(proxy).map_err(|e| ::typewire::Error::Custom(::std::string::ToString::to_string(&e)))\n");
                out
            },
            FromBody::Own(TypeShape::Struct(st)) => struct_from_js_body(st),
            FromBody::Own(TypeShape::Enum(e)) => enum_from_js_body(e),
        };
        assert(body@ =~= into_proxy_from_js_text(b));
        let mut to_js = String::from_str("fn to_js(&self) -> ::wasm_bindgen::JsValue {\nlet proxy: ");
        to_js.append(ty.as_str());
        to_js.append(" = ::core::convert::Into::into(self.clone());\n<");
        to_js.append(ty.as_str());
        to_js.append(" as ::typewire::Typewire>::to_js(&proxy)\n}\n");
        let mut from_js = String::from_str("fn from_js(value: ::wasm_bindgen::JsValue) -> ::core::result::Result<Self, ::typewire::Error> {\n");
        from_js.append(body.as_str());
        from_js.append("}\n");
        let mut patch = String::new();
        push_patch_header(&mut patch, "old", "set");
        patch.append("let proxy: ");
        patch.append(ty.as_str());
        patch.append(" = ::core::convert::Into::into(self.clone());\n<");
        patch.append(ty.as_str());
        patch.append(" as ::typewire::Typewire>::patch_js(&proxy, old, set);\n}\n");
        let r = vec![to_js, from_js, patch];
        assert(strings_view(r@) =~= into_proxy_methods(p.into_ty@, b));
        r
    }

    /// The methods of a type deserialized from its proxy type (see
    /// [`from_proxy_methods`]).
    pub fn expand_from_proxy(p: &FromProxy, own_shape: &TypeShape) -> (r: Vec<String>)
        ensures
            strings_view(r@) == from_proxy_methods(
                p.ident@,
                generics_view(p.generics),
                p.proxy@,
                p.is_try,
                type_shape_view(*own_shape),
            ),
    {
        let ghost sh = type_shape_view(*own_shape);
        let mut pt = String::new();
        pt.append(p.proxy.as_str());
        let mut this = String::from_str(p.ident.as_str());
        let tg = p.generics.ty_generics();
        this.append(tg.as_str());
        let mut body = String::from_str("let proxy = <");
        body.append(pt.as_str());
        body.append(" as ::typewire::Typewire>::from_js(value)?;\n");
        if p.is_try {
            body.append("<");
            body.append(this.as_str());
            body.append(" as ::core::convert::TryFrom<");
            body.append(pt.as_str());
            body.append(">>::try_from(proxy).map_err(|e| ::typewire::Error::Custom(::std::string::ToString::to_string(&e)))\n");
        } else {
            body.append("Ok(<");
            body.append(this.as_str());
            body.append(" as ::core::convert::From<");
            body.append(pt.as_str());
            body.append(">>::from(proxy))\n");
        }
        let (to_js_body, patch) = match own_shape {
            TypeShape::Struct(st) => (struct_to_js_body(st), struct_patch_js_fn(st)),
            TypeShape::Enum(e) => (enum_to_js_body(e), enum_patch_js_fn(e)),
        };
        let to_js = wrap_to_js(to_js_body.as_str());
        let mut from_js = String::from_str("fn from_js(value: ::wasm_bindgen::JsValue) -> ::core::result::Result<Self, ::typewire::Error> {\n");
        from_js.append(body.as_str());
        from_js.append("}\n");
        let r = vec![to_js, from_js, patch];
        assert(strings_view(r@) =~= from_proxy_methods(
            p.ident@,
            generics_view(p.generics),
            p.proxy@,
            p.is_try,
            sh,
        ));
        r
    }
}

} // verus!

verus! {

/// A field read with `serde_bytes` (flag 32), and neither base64 (8) nor
/// display (16), goes to JavaScript as a `Uint8Array` of its bytes: its
/// conversion is `::js_sys::Uint8Array::from((acc).as_slice()).into()`,
/// whatever other flags it has.
pub proof fn lemma_serde_bytes_to_js(acc: Seq<char>, flags: u8)
    requires
        flag_set(flags, 32u8),
        !flag_set(flags, 8u8),
        !flag_set(flags, 16u8),
    ensures
        to_js_text(acc, flags) == "::js_sys::Uint8Array::from(("@ + acc + ").as_slice()).into()"@,
{
}

/// The `to_js` of a struct whose one field is read with `serde_bytes`
/// passes the field's bytes to the constructor helper as a `Uint8Array`.
pub proof fn lemma_serde_bytes_struct_to_js(st: StructView, f: FieldView)
    requires
        st.shape == StructShapeView::Named(seq![f]),
        flag_set(f.flags, 32u8),
        !flag_set(f.flags, 8u8),
        !flag_set(f.flags, 16u8),
        !flag_set(f.flags, 1u8),
        f.skip_serializing_if is None,
    ensures
        struct_to_js_text(st) == "__tw_"@ + st.ident + "_construct("@
            + "::js_sys::Uint8Array::from(("@ + ("&self."@ + f.ident) + ").as_slice()).into()"@
            + ").into()\n"@,
{
    let fs = seq![f];
    assert(fs.drop_last() =~= Seq::<FieldView>::empty());
    assert(fs.last() == f);
    assert(to_js_args("&self."@, Seq::<FieldView>::empty()) == Seq::<char>::empty());
    assert(ser_count(Seq::<FieldView>::empty()) == 0);
    assert(to_js_args("&self."@, fs) =~= to_js_arg("&self."@, f));
    lemma_serde_bytes_to_js("&self."@ + f.ident, f.flags);
}

/// Each encoding converts a field to JavaScript its own way: base64 (8)
/// and display (16) as strings, in that order of precedence, and a field
/// with none of the three encodings by its type's own conversion.
pub proof fn lemma_encodings_to_js(acc: Seq<char>, flags: u8)
    ensures
        flag_set(flags, 8u8) ==> to_js_text(acc, flags)
            == "::wasm_bindgen::JsValue::from_str(&::typewire::base64_encode("@ + acc + "))"@,
        !flag_set(flags, 8u8) && flag_set(flags, 16u8) ==> to_js_text(acc, flags)
            == "::wasm_bindgen::JsValue::from_str(&::std::string::ToString::to_string("@ + acc + "))"@,
        !flag_set(flags, 8u8) && !flag_set(flags, 16u8) && !flag_set(flags, 32u8) ==> to_js_text(acc, flags)
            == "::typewire::Typewire::to_js("@ + acc + ")"@,
{
}

/// A field read with `serde_bytes` (and neither base64 nor display) is read
/// back from a `Uint8Array` or a `Uint8ClampedArray`, any other value being
/// an error of the field's wire name.
pub proof fn lemma_serde_bytes_from_js(f: FieldView)
    requires
        flag_set(f.flags, 32u8),
        !flag_set(f.flags, 8u8),
        !flag_set(f.flags, 16u8),
    ensures
        from_js_text(f) == "(|| -> ::core::result::Result<_, ::typewire::Error> { use ::wasm_bindgen::JsCast as _; if let Some(arr) = v.dyn_ref::<::js_sys::Uint8Array>() { Ok(arr.to_vec()) } else if let Some(arr) = v.dyn_ref::<::js_sys::Uint8ClampedArray>() { Ok(arr.to_vec()) } else { Err(::typewire::Error::UnexpectedType { expected: \"Uint8Array or Uint8ClampedArray\" }) } })()"@
            + ".map_err(|e| e.in_context("@ + lit(f.wire_name) + "))?"@,
{
}

/// Each encoding reads a field back from JavaScript its own way: base64
/// (8) and display (16) from a string, lenient (64) through the type's
/// lenient reading, and a field with no encoding through its type's own
/// reading; every error names the field's wire name.
pub proof fn lemma_encodings_from_js(f: FieldView)
    ensures
        flag_set(f.flags, 8u8) ==> from_js_text(f)
            == "(|| -> ::core::result::Result<_, ::typewire::Error> { let s = v.as_string().ok_or(::typewire::Error::UnexpectedType { expected: \"string\" })?; ::typewire::base64_decode(&s).map_err(|e| ::typewire::Error::InvalidValue { message: e.to_string() }) })()"@
            + ".map_err(|e| e.in_context("@ + lit(f.wire_name) + "))?"@,
        !flag_set(f.flags, 8u8) && flag_set(f.flags, 16u8) ==> from_js_text(f)
            == "(|| -> ::core::result::Result<_, ::typewire::Error> { let s = v.as_string().ok_or(::typewire::Error::UnexpectedType { expected: \"string\" })?; s.parse::<"@
            + f.ty
            + ">().map_err(|e| ::typewire::Error::InvalidValue { message: ::std::string::ToString::to_string(&e) }) })()"@
            + ".map_err(|e| e.in_context("@ + lit(f.wire_name) + "))?"@,
        !flag_set(f.flags, 8u8) && !flag_set(f.flags, 16u8) && !flag_set(f.flags, 32u8) && flag_set(f.flags, 64u8)
            ==> from_js_text(f) == "<"@ + f.ty + " as ::typewire::Typewire>::from_js_lenient(v, "@ + lit(
            f.wire_name,
        ) + ")"@ + ".map_err(|e| e.in_context("@ + lit(f.wire_name) + "))?"@,
        !flag_set(f.flags, 8u8) && !flag_set(f.flags, 16u8) && !flag_set(f.flags, 32u8) && !flag_set(f.flags, 64u8)
            ==> from_js_text(f) == "<"@ + f.ty + " as ::typewire::Typewire>::from_js(v)"@
            + ".map_err(|e| e.in_context("@ + lit(f.wire_name) + "))?"@,
{
}

} // verus!
