//! What the derive writes for an item: the wire names of its fields and
//! variants, as serde derives them from the Rust names and the attributes,
//! and the `impl Typewire` block around the generated methods.

use vstd::prelude::*;

use crate::analyze::variant_fields_case;
use crate::attr::{ContainerAttrs, FieldAttrs, VariantAttrs};
use crate::case::{RenameAll, apply_case};
use crate::coded_source::{counts_fit, generate_schema_and_section, schema_and_section};
use crate::item::{
    GenericParamView, Item, ItemView, generics_view, impl_generics_text, item_view,
    params_with_bound, ty_generics_text,
};
use crate::schema::strings_view;
use crate::wasm::{
    WasmCodegen, enum_from_js_text, enum_patch_js_text, enum_to_js_text, from_js_fn,
    from_proxy_methods, into_proxy_methods, item_name, item_name_of, struct_from_js_text,
    struct_patch_js_text, struct_to_js_text, to_js_fn, transparent_methods, where_text,
};

verus! {

/// The wire name of a field: its `rename`, else its Rust name (`"0"` for a
/// positional field) in the case of `rename_all`, if any.
pub open spec fn spec_field_wire_name(
    rust_name: Option<Seq<char>>,
    rename: Option<Seq<char>>,
    rename_all: Option<RenameAll>,
) -> Seq<char> {
    match rename {
        Some(r) => r,
        None => {
            let base = match rust_name {
                Some(n) => n,
                None => "0"@,
            };
            match rename_all {
                Some(case) => apply_case(case, base),
                None => base,
            }
        },
    }
}

/// The wire name of a variant: its `rename`, else its Rust name in the case
/// of `rename_all`, if any.
pub open spec fn spec_variant_wire_name(
    ident: Seq<char>,
    rename: Option<Seq<char>>,
    rename_all: Option<RenameAll>,
) -> Seq<char> {
    match rename {
        Some(r) => r,
        None => match rename_all {
            Some(case) => apply_case(case, ident),
            None => ident,
        },
    }
}

/// The view of an optional string.
pub open spec fn opt_view(s: Option<String>) -> Option<Seq<char>> {
    match s {
        Some(x) => Some(x@),
        None => None,
    }
}

/// Resolves the wire name of a field.
pub fn field_wire_name(
    rust_name: Option<&str>,
    attrs: &FieldAttrs,
    rename_all: Option<RenameAll>,
) -> (r: String)
    ensures
        r@ == spec_field_wire_name(
            match rust_name {
                Some(n) => Some(n@),
                None => None,
            },
            opt_view(attrs.rename),
            rename_all,
        ),
{
    if let Some(rename) = &attrs.rename {
        return rename.clone();
    }
    let base = match rust_name {
        Some(n) => n,
        None => "0",
    };
    match rename_all {
        Some(case) => case.apply(base),
        None => String::from_str(base),
    }
}

/// Resolves the wire name of a variant from its Rust name.
pub fn variant_wire_name(ident: &str, attrs: &VariantAttrs, rename_all: Option<RenameAll>) -> (r:
    String)
    ensures
        r@ == spec_variant_wire_name(ident@, opt_view(attrs.rename), rename_all),
{
    if let Some(rename) = &attrs.rename {
        return rename.clone();
    }
    match rename_all {
        Some(case) => case.apply(ident),
        None => String::from_str(ident),
    }
}

/// All names a variant is matched by: the primary one, then its aliases.
pub fn variant_all_names(primary: &str, attrs: &VariantAttrs) -> (r: Vec<String>)
    ensures
        strings_view(r@) == seq![primary@] + strings_view(attrs.aliases@),
{
    let mut names: Vec<String> = Vec::new();
    names.push(String::from_str(primary));
    let mut i: usize = 0;
    while i < attrs.aliases.len()
        invariant
            i <= attrs.aliases@.len(),
            strings_view(names@) == seq![primary@] + strings_view(attrs.aliases@.take(i as int)),
        decreases attrs.aliases@.len() - i,
    {
        let ghost before = names@;
        names.push(attrs.aliases[i].clone());
        assert(strings_view(names@) =~= strings_view(before).push(attrs.aliases@[i as int]@));
        assert(strings_view(attrs.aliases@.take(i + 1)) =~= strings_view(
            attrs.aliases@.take(i as int),
        ).push(attrs.aliases@[i as int]@));
        i = i + 1;
    }
    assert(attrs.aliases@.take(attrs.aliases@.len() as int) =~= attrs.aliases@);
    names
}

/// The case of the fields inside a variant: the variant's `rename_all`,
/// else the container's `rename_all_fields`.
pub fn resolve_field_rename_all(vattrs: &VariantAttrs, container: &ContainerAttrs) -> (r: Option<
    RenameAll,
>)
    ensures
        r == variant_fields_case(*vattrs, *container),
{
    match vattrs.rename_all {
        Some(r) => Some(r),
        None => container.rename_all_fields,
    }
}

// ---------------------------------------------------------------------------
// The impl block
// ---------------------------------------------------------------------------

/// The methods the `wasm32` code generator writes for an item.
pub open spec fn wasm_methods(d: ItemView) -> Seq<Seq<char>> {
    match d {
        ItemView::Struct(st) => seq![
            to_js_fn(struct_to_js_text(st)),
            from_js_fn(st.ident, struct_from_js_text(st)),
            struct_patch_js_text(st),
        ],
        ItemView::Transparent(t) => transparent_methods(t),
        ItemView::Enum(e) => seq![
            to_js_fn(enum_to_js_text(e)),
            from_js_fn(e.ident, enum_from_js_text(e)),
            enum_patch_js_text(e),
        ],
        ItemView::IntoProxy(p, b) => into_proxy_methods(p.into_ty, b),
        ItemView::FromProxy(p, sh) => from_proxy_methods(p.ident, p.generics, p.proxy, p.is_try, sh),
    }
}

/// Each method under a `#[cfg(..)]` of the predicate, in order.
pub open spec fn gated(cfg: Seq<char>, methods: Seq<Seq<char>>) -> Seq<char>
    decreases methods.len(),
{
    if methods.len() == 0 {
        Seq::empty()
    } else {
        gated(cfg, methods.drop_last()) + "#[cfg("@ + cfg + ")]\n"@ + methods.last()
    }
}

/// The generics of the impl: every type parameter of the item is bound by
/// `Typewire` too.
pub open spec fn typewire_params(d: ItemView) -> Seq<GenericParamView> {
    params_with_bound(item_name(d).1.params, "::typewire::Typewire"@)
}

/// What the derive writes for an item: `impl Typewire` for the type, with
/// every type parameter bound by `Typewire`, holding the generated methods,
/// each compiled for `wasm32` only, then the schema items; then the code
/// that places the item's schema record.
pub open spec fn expand_text(d: ItemView, schema_items: Seq<char>, coded_section: Seq<char>) -> Seq<char> {
    let ps = typewire_params(d);
    "impl"@ + impl_generics_text(ps) + " ::typewire::Typewire for "@ + item_name(d).0
        + ty_generics_text(ps) + where_text(item_name(d).1.where_clause) + " {\n"@
        + gated("target_arch = \"wasm32\""@, wasm_methods(d)) + schema_items + "}\n"@
        + coded_section
}

/// The methods of an item, from the `wasm32` code generator.
fn item_methods(item: &Item) -> (r: Vec<String>)
    ensures
        strings_view(r@) == wasm_methods(item_view(*item)),
{
    match item {
        Item::Struct(s) => WasmCodegen::expand_struct(s),
        Item::Transparent(t) => WasmCodegen::expand_transparent(t),
        Item::Enum(e) => WasmCodegen::expand_enum(e),
        Item::IntoProxy(p, b) => WasmCodegen::expand_into_proxy(p, b),
        Item::FromProxy(p, sh) => WasmCodegen::expand_from_proxy(p, sh),
    }
}

/// What the derive writes for an item (see [`expand_text`]): the
/// `impl Typewire` block around the item's schema items, followed by the
/// code that places its record (see [`schema_and_section`]).
pub fn expand(item: &Item) -> (r: String)
    requires
        counts_fit(item_view(*item)),
    ensures
        r@ == expand_text(
            item_view(*item),
            schema_and_section(item_view(*item)).0,
            schema_and_section(item_view(*item)).1,
        ),
{
    let ghost d = item_view(*item);
    let (items, section) = generate_schema_and_section(item);
    let schema_items = items.as_str();
    let coded_section = section.as_str();
    let methods = item_methods(item);
    let cfg = WasmCodegen::cfg_predicate();
    let (ident, g) = item_name_of(item);
    let bg = g.with_bound("::typewire::Typewire");
    proof {
        reveal_strlit("::typewire::Typewire");
        assert(generics_view(bg).params == typewire_params(d));
    }
    let mut out = String::from_str("impl");
    let ig = bg.impl_generics();
    out.append(ig.as_str());
    out.append(" ::typewire::Typewire for ");
    out.append(ident);
    let tg = bg.ty_generics();
    out.append(tg.as_str());
    if g.where_clause.unicode_len() > 0 {
        out.append(" ");
        out.append(g.where_clause.as_str());
    }
    out.append(" {\n");
    let ghost head = out@;
    let ghost ms = strings_view(methods@);
    let mut i: usize = 0;
    assert(ms.take(0) =~= Seq::<Seq<char>>::empty());
    while i < methods.len()
        invariant
            i <= methods@.len(),
            ms == strings_view(methods@),
            cfg@ == "target_arch = \"wasm32\""@,
            out@ == head + gated(cfg@, ms.take(i as int)),
        decreases methods@.len() - i,
    {
        assert(ms.take(i + 1).drop_last() =~= ms.take(i as int));
        assert(ms.take(i + 1).last() == methods@[i as int]@);
        out.append("#[cfg(");
        out.append(cfg);
        out.append(")]\n");
        out.append(methods[i].as_str());
        i = i + 1;
    }
    assert(ms.take(methods@.len() as int) =~= ms);
    out.append(schema_items);
    out.append("}\n");
    out.append(coded_section);
    out
}

/// A `rename` is the wire name whatever `rename_all` says; without one, a
/// named field or a variant keeps its Rust name unless `rename_all`
/// converts it, and a field's wire name does not depend on a variant's.
pub proof fn lemma_wire_names(name: Seq<char>, r: Seq<char>, case: RenameAll)
    ensures
        spec_field_wire_name(Some(name), Some(r), Some(case)) == r,
        spec_field_wire_name(Some(name), Some(r), None) == r,
        spec_field_wire_name(Some(name), None, None) == name,
        spec_field_wire_name(Some(name), None, Some(case)) == apply_case(case, name),
        spec_variant_wire_name(name, Some(r), Some(case)) == r,
        spec_variant_wire_name(name, Some(r), None) == r,
        spec_variant_wire_name(name, None, None) == name,
        spec_variant_wire_name(name, None, Some(case)) == apply_case(case, name),
        spec_field_wire_name(Some(name), None, Some(case)) == spec_variant_wire_name(name, None, Some(case)),
{
}

} // verus!
