//! Serde and typewire attributes of containers, variants and fields, as
//! the derive reads them.

use vstd::prelude::*;

use crate::analyze::{is_rust_path, parses_as_path};
use crate::case::{RenameAll, parse_rename_all, str_eq};
use crate::expand::opt_view;
use crate::schema::{FieldDefaultView, strings_view};

verus! {

// ---------------------------------------------------------------------------
// Shared groups of options
// ---------------------------------------------------------------------------

/// `#[diffable(...)]` options.
#[derive(Clone, Copy, Debug, Default, PartialEq, Eq)]
pub struct DiffableOpts {
    pub atomic: bool,
    pub transparent: bool,
}

/// `skip`, `skip_serializing` and `skip_deserializing`.
#[derive(Clone, Copy, Debug, Default, PartialEq, Eq)]
pub struct SkipOpts {
    pub all: bool,
    pub serializing: bool,
    pub deserializing: bool,
}

/// How a field's value is encoded on the wire.
#[derive(Clone, Copy, Debug, Default, PartialEq, Eq)]
pub struct EncodingOpts {
    pub base64: bool,
    pub display: bool,
    pub serde_bytes: bool,
}

/// `#[serde(default)]` on a container.
#[derive(Clone, Copy, Debug, Default, PartialEq, Eq)]
pub enum ContainerDefault {
    /// Missing fields are an error.
    #[default]
    NoDefault,
    /// Missing fields take the container's `Default`.
    Default,
}

// ---------------------------------------------------------------------------
// Container attributes
// ---------------------------------------------------------------------------

/// Attributes of a struct or enum.
#[derive(Clone, Debug, Default, PartialEq, Eq)]
pub struct ContainerAttrs {
    pub rename_all: Option<RenameAll>,
    /// For enums: the case of the fields inside all variants.
    pub rename_all_fields: Option<RenameAll>,
    pub tag: Option<String>,
    pub content: Option<String>,
    pub untagged: bool,
    pub transparent: bool,
    pub default: ContainerDefault,
    pub deny_unknown_fields: bool,
    /// `#[serde(from = "Type")]`: the path of the type.
    pub from: Option<String>,
    /// `#[serde(try_from = "Type")]`: the path of the type.
    pub try_from: Option<String>,
    /// `#[serde(into = "Type")]`: the path of the type.
    pub into: Option<String>,
    /// `#[diffable(...)]` options.
    pub diffable: DiffableOpts,
}

// ---------------------------------------------------------------------------
// Variant attributes
// ---------------------------------------------------------------------------

/// Attributes of an enum variant.
#[derive(Clone, Debug, Default, PartialEq, Eq)]
pub struct VariantAttrs {
    pub rename: Option<String>,
    pub aliases: Vec<String>,
    pub rename_all: Option<RenameAll>,
    pub skip: SkipOpts,
    pub other: bool,
    pub untagged: bool,
}

impl VariantAttrs {
    /// Whether the variant is left out when serializing.
    pub fn skip_serializing(&self) -> (r: bool)
        ensures
            r == (self.skip.all || self.skip.serializing),
    {
        self.skip.all || self.skip.serializing
    }

    /// Whether the variant is left out when deserializing.
    pub fn skip_deserializing(&self) -> (r: bool)
        ensures
            r == (self.skip.all || self.skip.deserializing),
    {
        self.skip.all || self.skip.deserializing
    }
}

// ---------------------------------------------------------------------------
// Field attributes
// ---------------------------------------------------------------------------

/// How a missing field gets its value.
#[derive(Clone, Debug, Default, PartialEq, Eq)]
pub enum FieldDefault {
    /// The field is required.
    #[default]
    NoDefault,
    /// `#[serde(default)]`: the type's `Default`.
    Default,
    /// `#[serde(default = "path")]`: a function.
    Path(String),
}

/// Attributes of a struct or variant field.
#[derive(Clone, Debug, Default, PartialEq, Eq)]
pub struct FieldAttrs {
    pub rename: Option<String>,
    pub aliases: Vec<String>,
    pub skip: SkipOpts,
    pub default: FieldDefault,
    pub flatten: bool,
    pub skip_serializing_if: Option<String>,
    pub encoding: EncodingOpts,
    /// `#[typewire(lenient)]`: invalid elements are skipped instead of
    /// failing the conversion.
    pub lenient: bool,
}

impl FieldAttrs {
    /// Whether the field is left out when serializing.
    pub fn skip_serializing(&self) -> (r: bool)
        ensures
            r == (self.skip.all || self.skip.serializing),
    {
        self.skip.all || self.skip.serializing
    }

    /// Whether the field is left out when deserializing.
    pub fn skip_deserializing(&self) -> (r: bool)
        ensures
            r == (self.skip.all || self.skip.deserializing),
    {
        self.skip.all || self.skip.deserializing
    }
}

// ---------------------------------------------------------------------------
// Reading attributes
// ---------------------------------------------------------------------------

/// Which attribute a list of nested metas comes from.
#[derive(Clone, Copy, Debug, PartialEq, Eq, Structural)]
pub enum AttrNamespace {
    /// `#[serde(...)]`.
    Serde,
    /// `#[diffable(...)]`.
    Diffable,
    /// `#[typewire(...)]`.
    Typewire,
    /// Any other attribute.
    Other,
}

/// What follows the path of a nested meta.
#[derive(Clone, Debug, PartialEq, Eq)]
pub enum MetaValue {
    /// Nothing: `key`.
    Absent,
    /// A string literal: `key = "text"`.
    Str(String),
    /// Another expression: `key = 3`.
    Expr,
    /// A parenthesized list: `key(...)`.
    List,
}

/// A nested meta of an attribute: `key`, `key = value` or `key(...)`.
#[derive(Clone, Debug, PartialEq, Eq)]
pub struct MetaInput {
    pub path: String,
    pub value: MetaValue,
}

/// An attribute with its nested metas, in order.
#[derive(Clone, Debug, PartialEq, Eq)]
pub struct AttrInput {
    pub namespace: AttrNamespace,
    pub metas: Vec<MetaInput>,
}

/// The string literal of a meta's value, if it is one.
pub open spec fn lit(v: MetaValue) -> Option<String> {
    match v {
        MetaValue::Str(s) => Some(s),
        _ => None,
    }
}

/// Whether reading an attribute goes on after a meta whose value the
/// reader skips: a list cannot be skipped.
pub open spec fn skip_goes_on(v: MetaValue) -> bool {
    !(v is List)
}

/// The container attributes after one meta of a `#[diffable]` or
/// `#[typewire]` attribute, and whether reading that attribute goes on. A
/// flag goes on only without a value; an unknown key's value is skipped.
pub open spec fn container_diffable_step(out: ContainerAttrs, m: MetaInput) -> (ContainerAttrs, bool) {
    if m.path@ == "atomic"@ {
        (
            ContainerAttrs {
                diffable: DiffableOpts { atomic: true, ..out.diffable },
                ..out
            },
            m.value is Absent,
        )
    } else if m.path@ == "visit_transparent"@ {
        (
            ContainerAttrs {
                diffable: DiffableOpts { transparent: true, ..out.diffable },
                ..out
            },
            m.value is Absent,
        )
    } else {
        (out, skip_goes_on(m.value))
    }
}

/// The container attributes after one meta of a `#[serde]` or
/// `#[typewire]` attribute, and whether reading that attribute goes on. A
/// key that takes a string stops the attribute without one; `from`,
/// `try_from` and `into` also stop it when the string is not a Rust path.
pub open spec fn container_serde_step(out: ContainerAttrs, m: MetaInput) -> (ContainerAttrs, bool) {
    let k = m.path@;
    let v = m.value;
    if k == "rename_all"@ {
        match lit(v) {
            Some(s) => (ContainerAttrs { rename_all: parse_rename_all(s@), ..out }, true),
            None => (out, false),
        }
    } else if k == "rename_all_fields"@ {
        match lit(v) {
            Some(s) => (ContainerAttrs { rename_all_fields: parse_rename_all(s@), ..out }, true),
            None => (out, false),
        }
    } else if k == "tag"@ {
        match lit(v) {
            Some(s) => (ContainerAttrs { tag: Some(s), ..out }, true),
            None => (out, false),
        }
    } else if k == "content"@ {
        match lit(v) {
            Some(s) => (ContainerAttrs { content: Some(s), ..out }, true),
            None => (out, false),
        }
    } else if k == "untagged"@ {
        (ContainerAttrs { untagged: true, ..out }, v is Absent)
    } else if k == "transparent"@ {
        (ContainerAttrs { transparent: true, ..out }, v is Absent)
    } else if k == "default"@ {
        (ContainerAttrs { default: ContainerDefault::Default, ..out }, v is Absent)
    } else if k == "deny_unknown_fields"@ {
        (ContainerAttrs { deny_unknown_fields: true, ..out }, v is Absent)
    } else if k == "from"@ {
        match lit(v) {
            Some(s) => if is_rust_path(s@) {
                (ContainerAttrs { from: Some(s), ..out }, true)
            } else {
                (out, false)
            },
            None => (out, false),
        }
    } else if k == "try_from"@ {
        match lit(v) {
            Some(s) => if is_rust_path(s@) {
                (ContainerAttrs { try_from: Some(s), ..out }, true)
            } else {
                (out, false)
            },
            None => (out, false),
        }
    } else if k == "into"@ {
        match lit(v) {
            Some(s) => if is_rust_path(s@) {
                (ContainerAttrs { into: Some(s), ..out }, true)
            } else {
                (out, false)
            },
            None => (out, false),
        }
    } else {
        (out, skip_goes_on(v))
    }
}

/// The metas of one attribute read in order by a step, up to the first
/// that stops it: the result, and whether reading went on to the end.
pub open spec fn container_metas(
    out: ContainerAttrs,
    ms: Seq<MetaInput>,
    diffable_pass: bool,
) -> (ContainerAttrs, bool)
    decreases ms.len(),
{
    if ms.len() == 0 {
        (out, true)
    } else {
        let (o, go) = container_metas(out, ms.drop_last(), diffable_pass);
        if go {
            if diffable_pass {
                container_diffable_step(o, ms.last())
            } else {
                container_serde_step(o, ms.last())
            }
        } else {
            (o, false)
        }
    }
}

/// The attributes of a namespace read in order.
pub open spec fn container_pass(
    out: ContainerAttrs,
    attrs: Seq<AttrInput>,
    ns: AttrNamespace,
    diffable_pass: bool,
) -> ContainerAttrs
    decreases attrs.len(),
{
    if attrs.len() == 0 {
        out
    } else {
        let o = container_pass(out, attrs.drop_last(), ns, diffable_pass);
        if attrs.last().namespace == ns {
            container_metas(o, attrs.last().metas@, diffable_pass).0
        } else {
            o
        }
    }
}

/// The container attributes of an item: its `#[diffable]` then
/// `#[typewire]` attributes for the diffable options, then its `#[serde]`
/// then `#[typewire]` attributes for the rest, starting from the defaults.
pub open spec fn spec_container_attrs(attrs: Seq<AttrInput>) -> ContainerAttrs {
    let d = container_pass(
        container_pass(default_container_attrs(), attrs, AttrNamespace::Diffable, true),
        attrs,
        AttrNamespace::Typewire,
        true,
    );
    container_pass(
        container_pass(d, attrs, AttrNamespace::Serde, false),
        attrs,
        AttrNamespace::Typewire,
        false,
    )
}

/// The default container attributes: nothing set.
pub open spec fn default_container_attrs() -> ContainerAttrs {
    ContainerAttrs {
        rename_all: None,
        rename_all_fields: None,
        tag: None,
        content: None,
        untagged: false,
        transparent: false,
        default: ContainerDefault::NoDefault,
        deny_unknown_fields: false,
        from: None,
        try_from: None,
        into: None,
        diffable: DiffableOpts { atomic: false, transparent: false },
    }
}

/// Whether a meta has no value.
fn is_absent(v: &MetaValue) -> (r: bool)
    ensures
        r == (*v is Absent),
{
    match v {
        MetaValue::Absent => true,
        _ => false,
    }
}

/// Whether reading goes on after skipping a meta's value.
fn skips(v: &MetaValue) -> (r: bool)
    ensures
        r == skip_goes_on(*v),
{
    match v {
        MetaValue::List => false,
        _ => true,
    }
}

/// One meta of a `#[diffable]` or `#[typewire]` attribute.
fn apply_container_diffable(out: &mut ContainerAttrs, m: &MetaInput) -> (go: bool)
    ensures
        (*final(out), go) == container_diffable_step(*old(out), *m),
{
    let k = m.path.as_str();
    if str_eq(k, "atomic") {
        out.diffable.atomic = true;
        is_absent(&m.value)
    } else if str_eq(k, "visit_transparent") {
        out.diffable.transparent = true;
        is_absent(&m.value)
    } else {
        skips(&m.value)
    }
}

/// A string literal value that is a Rust path, if it is both.
fn lit_path(v: &MetaValue) -> (r: Option<String>)
    ensures
        r == match lit(*v) {
            Some(s) => if is_rust_path(s@) {
                Some(s)
            } else {
                None::<String>
            },
            None => None,
        },
{
    match v {
        MetaValue::Str(s) => if parses_as_path(s.as_str()) {
            Some(s.clone())
        } else {
            None
        },
        _ => None,
    }
}

/// One meta of a `#[serde]` or `#[typewire]` attribute of a container.
fn apply_container_serde(out: &mut ContainerAttrs, m: &MetaInput) -> (go: bool)
    ensures
        (*final(out), go) == container_serde_step(*old(out), *m),
{
    let k = m.path.as_str();
    if str_eq(k, "rename_all") {
        match &m.value {
            MetaValue::Str(s) => {
                out.rename_all = RenameAll::parse(s.as_str());
                true
            },
            _ => false,
        }
    } else if str_eq(k, "rename_all_fields") {
        match &m.value {
            MetaValue::Str(s) => {
                out.rename_all_fields = RenameAll::parse(s.as_str());
                true
            },
            _ => false,
        }
    } else if str_eq(k, "tag") {
        match &m.value {
            MetaValue::Str(s) => {
                out.tag = Some(s.clone());
                true
            },
            _ => false,
        }
    } else if str_eq(k, "content") {
        match &m.value {
            MetaValue::Str(s) => {
                out.content = Some(s.clone());
                true
            },
            _ => false,
        }
    } else if str_eq(k, "untagged") {
        out.untagged = true;
        is_absent(&m.value)
    } else if str_eq(k, "transparent") {
        out.transparent = true;
        is_absent(&m.value)
    } else if str_eq(k, "default") {
        out.default = ContainerDefault::Default;
        is_absent(&m.value)
    } else if str_eq(k, "deny_unknown_fields") {
        out.deny_unknown_fields = true;
        is_absent(&m.value)
    } else if str_eq(k, "from") {
        match lit_path(&m.value) {
            Some(p) => {
                out.from = Some(p);
                true
            },
            None => false,
        }
    } else if str_eq(k, "try_from") {
        match lit_path(&m.value) {
            Some(p) => {
                out.try_from = Some(p);
                true
            },
            None => false,
        }
    } else if str_eq(k, "into") {
        match lit_path(&m.value) {
            Some(p) => {
                out.into = Some(p);
                true
            },
            None => false,
        }
    } else {
        skips(&m.value)
    }
}

/// Reading stops at the first meta that stops it.
proof fn lemma_container_metas_stop(
    out: ContainerAttrs,
    ms: Seq<MetaInput>,
    k: int,
    diffable_pass: bool,
)
    requires
        0 <= k <= ms.len(),
        !container_metas(out, ms.take(k), diffable_pass).1,
    ensures
        container_metas(out, ms, diffable_pass) == container_metas(out, ms.take(k), diffable_pass),
    decreases ms.len(),
{
    if k == ms.len() {
        assert(ms.take(k) =~= ms);
    } else {
        assert(ms.drop_last().take(k) =~= ms.take(k));
        lemma_container_metas_stop(out, ms.drop_last(), k, diffable_pass);
    }
}

/// The metas of one attribute of a container.
fn apply_container_metas(out: &mut ContainerAttrs, ms: &Vec<MetaInput>, diffable_pass: bool)
    ensures
        *final(out) == container_metas(*old(out), ms@, diffable_pass).0,
{
    let ghost start = *out;
    let mut i: usize = 0;
    let mut go = true;
    assert(ms@.take(0) =~= Seq::<MetaInput>::empty());
    while go && i < ms.len()
        invariant
            i <= ms@.len(),
            (*out, go) == container_metas(start, ms@.take(i as int), diffable_pass),
        decreases ms@.len() - i,
    {
        assert(ms@.take(i + 1).drop_last() =~= ms@.take(i as int));
        assert(ms@.take(i + 1).last() == ms@[i as int]);
        go = if diffable_pass {
            apply_container_diffable(out, &ms[i])
        } else {
            apply_container_serde(out, &ms[i])
        };
        i = i + 1;
    }
    proof {
        if go {
            assert(ms@.take(i as int) =~= ms@);
        } else {
            lemma_container_metas_stop(start, ms@, i as int, diffable_pass);
        }
    }
}

/// The attributes of a namespace of a container.
fn apply_container_pass(
    out: &mut ContainerAttrs,
    attrs: &Vec<AttrInput>,
    ns: AttrNamespace,
    diffable_pass: bool,
)
    ensures
        *final(out) == container_pass(*old(out), attrs@, ns, diffable_pass),
{
    let ghost start = *out;
    let mut i: usize = 0;
    assert(attrs@.take(0) =~= Seq::<AttrInput>::empty());
    while i < attrs.len()
        invariant
            i <= attrs@.len(),
            *out == container_pass(start, attrs@.take(i as int), ns, diffable_pass),
        decreases attrs@.len() - i,
    {
        assert(attrs@.take(i + 1).drop_last() =~= attrs@.take(i as int));
        assert(attrs@.take(i + 1).last() == attrs@[i as int]);
        if attrs[i].namespace == ns {
            apply_container_metas(out, &attrs[i].metas, diffable_pass);
        }
        i = i + 1;
    }
    assert(attrs@.take(attrs@.len() as int) =~= attrs@);
}

impl ContainerAttrs {
    /// The container attributes of an item, from its attributes.
    pub fn from_attrs(attrs: &Vec<AttrInput>) -> (r: ContainerAttrs)
        ensures
            r == spec_container_attrs(attrs@),
    {
        let mut out = ContainerAttrs {
            rename_all: None,
            rename_all_fields: None,
            tag: None,
            content: None,
            untagged: false,
            transparent: false,
            default: ContainerDefault::NoDefault,
            deny_unknown_fields: false,
            from: None,
            try_from: None,
            into: None,
            diffable: DiffableOpts { atomic: false, transparent: false },
        };
        apply_container_pass(&mut out, attrs, AttrNamespace::Diffable, true);
        apply_container_pass(&mut out, attrs, AttrNamespace::Typewire, true);
        apply_container_pass(&mut out, attrs, AttrNamespace::Serde, false);
        apply_container_pass(&mut out, attrs, AttrNamespace::Typewire, false);
        out
    }
}

// ---------------------------------------------------------------------------
// Reading variant and field attributes
// ---------------------------------------------------------------------------

pub struct VariantAttrsView {
    pub rename: Option<Seq<char>>,
    pub aliases: Seq<Seq<char>>,
    pub rename_all: Option<RenameAll>,
    pub skip: SkipOpts,
    pub other: bool,
    pub untagged: bool,
}

pub open spec fn variant_attrs_view(a: VariantAttrs) -> VariantAttrsView {
    VariantAttrsView {
        rename: opt_view(a.rename),
        aliases: strings_view(a.aliases@),
        rename_all: a.rename_all,
        skip: a.skip,
        other: a.other,
        untagged: a.untagged,
    }
}

/// The variant attributes after one meta of a `#[serde]` or `#[typewire]`
/// attribute, and whether reading that attribute goes on.
pub open spec fn variant_step(out: VariantAttrsView, m: MetaInput) -> (VariantAttrsView, bool) {
    let k = m.path@;
    let v = m.value;
    if k == "rename"@ {
        match lit(v) {
            Some(s) => (VariantAttrsView { rename: Some(s@), ..out }, true),
            None => (out, false),
        }
    } else if k == "alias"@ {
        match lit(v) {
            Some(s) => (VariantAttrsView { aliases: out.aliases.push(s@), ..out }, true),
            None => (out, false),
        }
    } else if k == "rename_all"@ {
        match lit(v) {
            Some(s) => (VariantAttrsView { rename_all: parse_rename_all(s@), ..out }, true),
            None => (out, false),
        }
    } else if k == "skip"@ {
        (VariantAttrsView { skip: SkipOpts { all: true, ..out.skip }, ..out }, v is Absent)
    } else if k == "skip_serializing"@ {
        (VariantAttrsView { skip: SkipOpts { serializing: true, ..out.skip }, ..out }, v is Absent)
    } else if k == "skip_deserializing"@ {
        (
            VariantAttrsView { skip: SkipOpts { deserializing: true, ..out.skip }, ..out },
            v is Absent,
        )
    } else if k == "other"@ {
        (VariantAttrsView { other: true, ..out }, v is Absent)
    } else if k == "untagged"@ {
        (VariantAttrsView { untagged: true, ..out }, v is Absent)
    } else {
        (out, skip_goes_on(v))
    }
}

/// The metas of one attribute of a variant, up to the first that stops
/// reading it.
pub open spec fn variant_metas(out: VariantAttrsView, ms: Seq<MetaInput>) -> (VariantAttrsView, bool)
    decreases ms.len(),
{
    if ms.len() == 0 {
        (out, true)
    } else {
        let (o, go) = variant_metas(out, ms.drop_last());
        if go {
            variant_step(o, ms.last())
        } else {
            (o, false)
        }
    }
}

/// The attributes of a namespace of a variant, read in order.
pub open spec fn variant_pass(out: VariantAttrsView, attrs: Seq<AttrInput>, ns: AttrNamespace) -> VariantAttrsView
    decreases attrs.len(),
{
    if attrs.len() == 0 {
        out
    } else {
        let o = variant_pass(out, attrs.drop_last(), ns);
        if attrs.last().namespace == ns {
            variant_metas(o, attrs.last().metas@).0
        } else {
            o
        }
    }
}

/// The variant attributes of a variant: its `#[serde]` then `#[typewire]`
/// attributes, starting from the defaults.
pub open spec fn spec_variant_attrs(attrs: Seq<AttrInput>) -> VariantAttrsView {
    let start = VariantAttrsView {
        rename: None,
        aliases: Seq::empty(),
        rename_all: None,
        skip: SkipOpts { all: false, serializing: false, deserializing: false },
        other: false,
        untagged: false,
    };
    variant_pass(variant_pass(start, attrs, AttrNamespace::Serde), attrs, AttrNamespace::Typewire)
}

/// One meta of a `#[serde]` or `#[typewire]` attribute of a variant.
fn apply_variant_meta(out: &mut VariantAttrs, m: &MetaInput) -> (go: bool)
    ensures
        (variant_attrs_view(*final(out)), go) == variant_step(variant_attrs_view(*old(out)), *m),
{
    let k = m.path.as_str();
    let ghost before = out.aliases@;
    if str_eq(k, "rename") {
        match &m.value {
            MetaValue::Str(s) => {
                out.rename = Some(s.clone());
                true
            },
            _ => false,
        }
    } else if str_eq(k, "alias") {
        match &m.value {
            MetaValue::Str(s) => {
                out.aliases.push(s.clone());
                assert(strings_view(out.aliases@) =~= strings_view(before).push(s@));
                true
            },
            _ => false,
        }
    } else if str_eq(k, "rename_all") {
        match &m.value {
            MetaValue::Str(s) => {
                out.rename_all = RenameAll::parse(s.as_str());
                true
            },
            _ => false,
        }
    } else if str_eq(k, "skip") {
        out.skip.all = true;
        is_absent(&m.value)
    } else if str_eq(k, "skip_serializing") {
        out.skip.serializing = true;
        is_absent(&m.value)
    } else if str_eq(k, "skip_deserializing") {
        out.skip.deserializing = true;
        is_absent(&m.value)
    } else if str_eq(k, "other") {
        out.other = true;
        is_absent(&m.value)
    } else if str_eq(k, "untagged") {
        out.untagged = true;
        is_absent(&m.value)
    } else {
        skips(&m.value)
    }
}

proof fn lemma_variant_metas_stop(out: VariantAttrsView, ms: Seq<MetaInput>, k: int)
    requires
        0 <= k <= ms.len(),
        !variant_metas(out, ms.take(k)).1,
    ensures
        variant_metas(out, ms) == variant_metas(out, ms.take(k)),
    decreases ms.len(),
{
    if k == ms.len() {
        assert(ms.take(k) =~= ms);
    } else {
        assert(ms.drop_last().take(k) =~= ms.take(k));
        lemma_variant_metas_stop(out, ms.drop_last(), k);
    }
}

/// The attributes of a namespace of a variant.
fn apply_variant_pass(out: &mut VariantAttrs, attrs: &Vec<AttrInput>, ns: AttrNamespace)
    ensures
        variant_attrs_view(*final(out)) == variant_pass(variant_attrs_view(*old(out)), attrs@, ns),
{
    let ghost start = variant_attrs_view(*out);
    let mut i: usize = 0;
    assert(attrs@.take(0) =~= Seq::<AttrInput>::empty());
    while i < attrs.len()
        invariant
            i <= attrs@.len(),
            variant_attrs_view(*out) == variant_pass(start, attrs@.take(i as int), ns),
        decreases attrs@.len() - i,
    {
        assert(attrs@.take(i + 1).drop_last() =~= attrs@.take(i as int));
        assert(attrs@.take(i + 1).last() == attrs@[i as int]);
        if attrs[i].namespace == ns {
            let ms = &attrs[i].metas;
            let ghost first = variant_attrs_view(*out);
            let mut j: usize = 0;
            let mut go = true;
            assert(ms@.take(0) =~= Seq::<MetaInput>::empty());
            while go && j < ms.len()
                invariant
                    j <= ms@.len(),
                    (variant_attrs_view(*out), go) == variant_metas(first, ms@.take(j as int)),
                decreases ms@.len() - j,
            {
                assert(ms@.take(j + 1).drop_last() =~= ms@.take(j as int));
                assert(ms@.take(j + 1).last() == ms@[j as int]);
                go = apply_variant_meta(out, &ms[j]);
                j = j + 1;
            }
            proof {
                if go {
                    assert(ms@.take(j as int) =~= ms@);
                } else {
                    lemma_variant_metas_stop(first, ms@, j as int);
                }
            }
        }
        i = i + 1;
    }
    assert(attrs@.take(attrs@.len() as int) =~= attrs@);
}

impl VariantAttrs {
    /// The attributes of a variant, from its attributes.
    pub fn from_attrs(attrs: &Vec<AttrInput>) -> (r: VariantAttrs)
        ensures
            variant_attrs_view(r) == spec_variant_attrs(attrs@),
    {
        let mut out = VariantAttrs {
            rename: None,
            aliases: Vec::new(),
            rename_all: None,
            skip: SkipOpts { all: false, serializing: false, deserializing: false },
            other: false,
            untagged: false,
        };
        assert(strings_view(out.aliases@) =~= Seq::<Seq<char>>::empty());
        apply_variant_pass(&mut out, attrs, AttrNamespace::Serde);
        apply_variant_pass(&mut out, attrs, AttrNamespace::Typewire);
        out
    }
}

pub struct FieldAttrsView {
    pub rename: Option<Seq<char>>,
    pub aliases: Seq<Seq<char>>,
    pub skip: SkipOpts,
    pub default: FieldDefaultView,
    pub flatten: bool,
    pub skip_serializing_if: Option<Seq<char>>,
    pub encoding: EncodingOpts,
    pub lenient: bool,
}

pub open spec fn field_attrs_view(a: FieldAttrs) -> FieldAttrsView {
    FieldAttrsView {
        rename: opt_view(a.rename),
        aliases: strings_view(a.aliases@),
        skip: a.skip,
        default: match a.default {
            FieldDefault::NoDefault => FieldDefaultView::NoDefault,
            FieldDefault::Default => FieldDefaultView::Default,
            FieldDefault::Path(p) => FieldDefaultView::Path(p@),
        },
        flatten: a.flatten,
        skip_serializing_if: opt_view(a.skip_serializing_if),
        encoding: a.encoding,
        lenient: a.lenient,
    }
}

/// The field attributes after one meta of a `#[serde]` or `#[typewire]`
/// attribute, and whether reading that attribute goes on. `default` with a
/// string names a function, and without one (or with another value) asks
/// for the type's `Default`.
pub open spec fn field_step(out: FieldAttrsView, m: MetaInput) -> (FieldAttrsView, bool) {
    let k = m.path@;
    let v = m.value;
    if k == "rename"@ {
        match lit(v) {
            Some(s) => (FieldAttrsView { rename: Some(s@), ..out }, true),
            None => (out, false),
        }
    } else if k == "alias"@ {
        match lit(v) {
            Some(s) => (FieldAttrsView { aliases: out.aliases.push(s@), ..out }, true),
            None => (out, false),
        }
    } else if k == "skip"@ {
        (FieldAttrsView { skip: SkipOpts { all: true, ..out.skip }, ..out }, v is Absent)
    } else if k == "skip_serializing"@ {
        (FieldAttrsView { skip: SkipOpts { serializing: true, ..out.skip }, ..out }, v is Absent)
    } else if k == "skip_deserializing"@ {
        (FieldAttrsView { skip: SkipOpts { deserializing: true, ..out.skip }, ..out }, v is Absent)
    } else if k == "default"@ {
        match v {
            MetaValue::Str(s) => (FieldAttrsView { default: FieldDefaultView::Path(s@), ..out }, true),
            MetaValue::List => (FieldAttrsView { default: FieldDefaultView::Default, ..out }, false),
            _ => (FieldAttrsView { default: FieldDefaultView::Default, ..out }, true),
        }
    } else if k == "flatten"@ {
        (FieldAttrsView { flatten: true, ..out }, v is Absent)
    } else if k == "skip_serializing_if"@ {
        match lit(v) {
            Some(s) => (FieldAttrsView { skip_serializing_if: Some(s@), ..out }, true),
            None => (out, false),
        }
    } else if k == "with"@ {
        match lit(v) {
            Some(s) => if s@ == "serde_bytes"@ {
                (
                    FieldAttrsView {
                        encoding: EncodingOpts { serde_bytes: true, ..out.encoding },
                        ..out
                    },
                    true,
                )
            } else {
                (out, true)
            },
            None => (out, false),
        }
    } else if k == "base64"@ {
        (
            FieldAttrsView { encoding: EncodingOpts { base64: true, ..out.encoding }, ..out },
            v is Absent,
        )
    } else if k == "display"@ {
        (
            FieldAttrsView { encoding: EncodingOpts { display: true, ..out.encoding }, ..out },
            v is Absent,
        )
    } else if k == "lenient"@ {
        (FieldAttrsView { lenient: true, ..out }, v is Absent)
    } else {
        (out, skip_goes_on(v))
    }
}

/// The metas of one attribute of a field, up to the first that stops
/// reading it.
pub open spec fn field_metas(out: FieldAttrsView, ms: Seq<MetaInput>) -> (FieldAttrsView, bool)
    decreases ms.len(),
{
    if ms.len() == 0 {
        (out, true)
    } else {
        let (o, go) = field_metas(out, ms.drop_last());
        if go {
            field_step(o, ms.last())
        } else {
            (o, false)
        }
    }
}

/// The attributes of a namespace of a field, read in order.
pub open spec fn field_pass(out: FieldAttrsView, attrs: Seq<AttrInput>, ns: AttrNamespace) -> FieldAttrsView
    decreases attrs.len(),
{
    if attrs.len() == 0 {
        out
    } else {
        let o = field_pass(out, attrs.drop_last(), ns);
        if attrs.last().namespace == ns {
            field_metas(o, attrs.last().metas@).0
        } else {
            o
        }
    }
}

/// The field attributes of a field: its `#[serde]` then `#[typewire]`
/// attributes, starting from the defaults.
pub open spec fn spec_field_attrs(attrs: Seq<AttrInput>) -> FieldAttrsView {
    let start = FieldAttrsView {
        rename: None,
        aliases: Seq::empty(),
        skip: SkipOpts { all: false, serializing: false, deserializing: false },
        default: FieldDefaultView::NoDefault,
        flatten: false,
        skip_serializing_if: None,
        encoding: EncodingOpts { base64: false, display: false, serde_bytes: false },
        lenient: false,
    };
    field_pass(field_pass(start, attrs, AttrNamespace::Serde), attrs, AttrNamespace::Typewire)
}

/// One meta of a `#[serde]` or `#[typewire]` attribute of a field.
fn apply_field_meta(out: &mut FieldAttrs, m: &MetaInput) -> (go: bool)
    ensures
        (field_attrs_view(*final(out)), go) == field_step(field_attrs_view(*old(out)), *m),
{
    let k = m.path.as_str();
    let ghost before = out.aliases@;
    if str_eq(k, "rename") {
        match &m.value {
            MetaValue::Str(s) => {
                out.rename = Some(s.clone());
                true
            },
            _ => false,
        }
    } else if str_eq(k, "alias") {
        match &m.value {
            MetaValue::Str(s) => {
                out.aliases.push(s.clone());
                assert(strings_view(out.aliases@) =~= strings_view(before).push(s@));
                true
            },
            _ => false,
        }
    } else if str_eq(k, "skip") {
        out.skip.all = true;
        is_absent(&m.value)
    } else if str_eq(k, "skip_serializing") {
        out.skip.serializing = true;
        is_absent(&m.value)
    } else if str_eq(k, "skip_deserializing") {
        out.skip.deserializing = true;
        is_absent(&m.value)
    } else if str_eq(k, "default") {
        match &m.value {
            MetaValue::Str(s) => {
                out.default = FieldDefault::Path(s.clone());
                true
            },
            MetaValue::List => {
                out.default = FieldDefault::Default;
                false
            },
            _ => {
                out.default = FieldDefault::Default;
                true
            },
        }
    } else if str_eq(k, "flatten") {
        out.flatten = true;
        is_absent(&m.value)
    } else if str_eq(k, "skip_serializing_if") {
        match &m.value {
            MetaValue::Str(s) => {
                out.skip_serializing_if = Some(s.clone());
                true
            },
            _ => false,
        }
    } else if str_eq(k, "with") {
        match &m.value {
            MetaValue::Str(s) => {
                if str_eq(s.as_str(), "serde_bytes") {
                    out.encoding.serde_bytes = true;
                }
                true
            },
            _ => false,
        }
    } else if str_eq(k, "base64") {
        out.encoding.base64 = true;
        is_absent(&m.value)
    } else if str_eq(k, "display") {
        out.encoding.display = true;
        is_absent(&m.value)
    } else if str_eq(k, "lenient") {
        out.lenient = true;
        is_absent(&m.value)
    } else {
        skips(&m.value)
    }
}

proof fn lemma_field_metas_stop(out: FieldAttrsView, ms: Seq<MetaInput>, k: int)
    requires
        0 <= k <= ms.len(),
        !field_metas(out, ms.take(k)).1,
    ensures
        field_metas(out, ms) == field_metas(out, ms.take(k)),
    decreases ms.len(),
{
    if k == ms.len() {
        assert(ms.take(k) =~= ms);
    } else {
        assert(ms.drop_last().take(k) =~= ms.take(k));
        lemma_field_metas_stop(out, ms.drop_last(), k);
    }
}

/// The attributes of a namespace of a field.
fn apply_field_pass(out: &mut FieldAttrs, attrs: &Vec<AttrInput>, ns: AttrNamespace)
    ensures
        field_attrs_view(*final(out)) == field_pass(field_attrs_view(*old(out)), attrs@, ns),
{
    let ghost start = field_attrs_view(*out);
    let mut i: usize = 0;
    assert(attrs@.take(0) =~= Seq::<AttrInput>::empty());
    while i < attrs.len()
        invariant
            i <= attrs@.len(),
            field_attrs_view(*out) == field_pass(start, attrs@.take(i as int), ns),
        decreases attrs@.len() - i,
    {
        assert(attrs@.take(i + 1).drop_last() =~= attrs@.take(i as int));
        assert(attrs@.take(i + 1).last() == attrs@[i as int]);
        if attrs[i].namespace == ns {
            let ms = &attrs[i].metas;
            let ghost first = field_attrs_view(*out);
            let mut j: usize = 0;
            let mut go = true;
            assert(ms@.take(0) =~= Seq::<MetaInput>::empty());
            while go && j < ms.len()
                invariant
                    j <= ms@.len(),
                    (field_attrs_view(*out), go) == field_metas(first, ms@.take(j as int)),
                decreases ms@.len() - j,
            {
                assert(ms@.take(j + 1).drop_last() =~= ms@.take(j as int));
                assert(ms@.take(j + 1).last() == ms@[j as int]);
                go = apply_field_meta(out, &ms[j]);
                j = j + 1;
            }
            proof {
                if go {
                    assert(ms@.take(j as int) =~= ms@);
                } else {
                    lemma_field_metas_stop(first, ms@, j as int);
                }
            }
        }
        i = i + 1;
    }
    assert(attrs@.take(attrs@.len() as int) =~= attrs@);
}

impl FieldAttrs {
    /// The attributes of a field, from its attributes.
    pub fn from_attrs(attrs: &Vec<AttrInput>) -> (r: FieldAttrs)
        ensures
            field_attrs_view(r) == spec_field_attrs(attrs@),
    {
        let mut out = FieldAttrs {
            rename: None,
            aliases: Vec::new(),
            skip: SkipOpts { all: false, serializing: false, deserializing: false },
            default: FieldDefault::NoDefault,
            flatten: false,
            skip_serializing_if: None,
            encoding: EncodingOpts { base64: false, display: false, serde_bytes: false },
            lenient: false,
        };
        assert(strings_view(out.aliases@) =~= Seq::<Seq<char>>::empty());
        apply_field_pass(&mut out, attrs, AttrNamespace::Serde);
        apply_field_pass(&mut out, attrs, AttrNamespace::Typewire);
        out
    }
}


/// Whether a meta's key is one of the diffable options of a container.
pub open spec fn is_diffable_key(m: MetaInput) -> bool {
    m.path@ == "atomic"@ || m.path@ == "visit_transparent"@
}

/// Metas with no diffable key leave the diffable options as they are.
proof fn lemma_diffable_pass_ignores(out: ContainerAttrs, ms: Seq<MetaInput>)
    requires
        forall|i: int| 0 <= i < ms.len() ==> !is_diffable_key(#[trigger] ms[i]),
    ensures
        container_metas(out, ms, true).0 == out,
    decreases ms.len(),
{
    if ms.len() > 0 {
        let init = ms.drop_last();
        assert forall|i: int| 0 <= i < init.len() implies !is_diffable_key(#[trigger] init[i]) by {
            assert(init[i] == ms[i]);
        }
        lemma_diffable_pass_ignores(out, init);
        assert(!is_diffable_key(ms[ms.len() - 1]));
    }
}

/// A container option reads the same in `#[serde(..)]` as in
/// `#[typewire(..)]`: an attribute of either namespace, holding the same
/// metas none of which is a diffable option, gives the same container
/// attributes.
pub proof fn lemma_serde_and_typewire_agree(ms: Vec<MetaInput>)
    requires
        forall|i: int| 0 <= i < ms@.len() ==> !is_diffable_key(#[trigger] ms@[i]),
    ensures
        spec_container_attrs(seq![AttrInput { namespace: AttrNamespace::Serde, metas: ms }])
            == spec_container_attrs(seq![AttrInput { namespace: AttrNamespace::Typewire, metas: ms }]),
{
    let d0 = default_container_attrs();
    let s = seq![AttrInput { namespace: AttrNamespace::Serde, metas: ms }];
    let t = seq![AttrInput { namespace: AttrNamespace::Typewire, metas: ms }];
    assert(s.drop_last() =~= Seq::<AttrInput>::empty());
    assert(t.drop_last() =~= Seq::<AttrInput>::empty());
    reveal_with_fuel(container_pass, 2);
    assert(s.last() == AttrInput { namespace: AttrNamespace::Serde, metas: ms });
    assert(t.last() == AttrInput { namespace: AttrNamespace::Typewire, metas: ms });
    lemma_diffable_pass_ignores(d0, ms@);
    let m = container_metas(d0, ms@, false).0;
    assert(container_pass(d0, s, AttrNamespace::Diffable, true) == d0);
    assert(container_pass(d0, s, AttrNamespace::Typewire, true) == d0);
    assert(container_pass(d0, s, AttrNamespace::Serde, false) == m);
    assert(container_pass(m, s, AttrNamespace::Typewire, false) == m);
    assert(container_pass(d0, t, AttrNamespace::Diffable, true) == d0);
    assert(container_pass(d0, t, AttrNamespace::Typewire, true) == d0);
    assert(container_pass(d0, t, AttrNamespace::Serde, false) == d0);
    assert(container_pass(d0, t, AttrNamespace::Typewire, false) == m);
}


/// `atomic` reads the same in `#[diffable(..)]` as in `#[typewire(..)]`:
/// either sets the container's atomic diffable option.
pub proof fn lemma_diffable_and_typewire_atomic(ms: Vec<MetaInput>)
    requires
        ms@.len() == 1,
        ms@[0].path@ == "atomic"@,
        ms@[0].value is Absent,
    ensures
        spec_container_attrs(seq![AttrInput { namespace: AttrNamespace::Diffable, metas: ms }]).diffable.atomic,
        spec_container_attrs(seq![AttrInput { namespace: AttrNamespace::Typewire, metas: ms }]).diffable.atomic,
{
    let d0 = default_container_attrs();
    let d = seq![AttrInput { namespace: AttrNamespace::Diffable, metas: ms }];
    let t = seq![AttrInput { namespace: AttrNamespace::Typewire, metas: ms }];
    assert(d.drop_last() =~= Seq::<AttrInput>::empty());
    assert(t.drop_last() =~= Seq::<AttrInput>::empty());
    assert(d.last() == AttrInput { namespace: AttrNamespace::Diffable, metas: ms });
    assert(t.last() == AttrInput { namespace: AttrNamespace::Typewire, metas: ms });
    assert(ms@.drop_last() =~= Seq::<MetaInput>::empty());
    assert(ms@.last() == ms@[0]);
    reveal_with_fuel(container_pass, 2);
    let m = ms@[0];
    reveal_strlit("atomic");
    assert(m.path@[0] == 'a');
    reveal_strlit("visit_transparent");
    assert("visit_transparent"@[0] != 'a');
    assert(!(m.path@ == "visit_transparent"@));
    reveal_strlit("rename_all");
    assert("rename_all"@[0] != 'a');
    assert(!(m.path@ == "rename_all"@));
    reveal_strlit("rename_all_fields");
    assert("rename_all_fields"@[0] != 'a');
    assert(!(m.path@ == "rename_all_fields"@));
    reveal_strlit("tag");
    assert("tag"@[0] != 'a');
    assert(!(m.path@ == "tag"@));
    reveal_strlit("content");
    assert("content"@[0] != 'a');
    assert(!(m.path@ == "content"@));
    reveal_strlit("untagged");
    assert("untagged"@[0] != 'a');
    assert(!(m.path@ == "untagged"@));
    reveal_strlit("transparent");
    assert("transparent"@[0] != 'a');
    assert(!(m.path@ == "transparent"@));
    reveal_strlit("default");
    assert("default"@[0] != 'a');
    assert(!(m.path@ == "default"@));
    reveal_strlit("deny_unknown_fields");
    assert("deny_unknown_fields"@[0] != 'a');
    assert(!(m.path@ == "deny_unknown_fields"@));
    reveal_strlit("from");
    assert("from"@[0] != 'a');
    assert(!(m.path@ == "from"@));
    reveal_strlit("try_from");
    assert("try_from"@[0] != 'a');
    assert(!(m.path@ == "try_from"@));
    reveal_strlit("into");
    assert("into"@[0] != 'a');
    assert(!(m.path@ == "into"@));
    let a = container_diffable_step(d0, m).0;
    assert(a.diffable.atomic);
    assert forall|x: ContainerAttrs| #[trigger] container_metas(x, ms@, false) == (x, true) by {
        assert(container_metas(x, ms@.drop_last(), false) == (x, true));
        assert(container_serde_step(x, m) == (x, true));
    }
    assert forall|x: ContainerAttrs| #[trigger] container_metas(x, ms@, true) == (
    container_diffable_step(x, m).0, true) by {
        assert(container_metas(x, ms@.drop_last(), true) == (x, true));
    }
    assert(container_pass(d0, d, AttrNamespace::Diffable, true) == a);
    assert(container_pass(a, d, AttrNamespace::Typewire, true) == a);
    assert(container_pass(a, d, AttrNamespace::Serde, false) == a);
    assert(container_pass(a, d, AttrNamespace::Typewire, false) == a);
    assert(container_pass(d0, t, AttrNamespace::Diffable, true) == d0);
    assert(container_pass(d0, t, AttrNamespace::Typewire, true) == a);
    assert(container_pass(a, t, AttrNamespace::Serde, false) == a);
    assert(container_pass(a, t, AttrNamespace::Typewire, false) == a);
}

/// Whether a meta's key is an option a container reads, in any namespace.
pub open spec fn is_container_key(m: MetaInput) -> bool {
    let k = m.path@;
    ||| k == "atomic"@
    ||| k == "visit_transparent"@
    ||| k == "rename_all"@
    ||| k == "rename_all_fields"@
    ||| k == "tag"@
    ||| k == "content"@
    ||| k == "untagged"@
    ||| k == "transparent"@
    ||| k == "default"@
    ||| k == "deny_unknown_fields"@
    ||| k == "from"@
    ||| k == "try_from"@
    ||| k == "into"@
}

/// Metas of unknown options change nothing, whatever their values (a
/// list stops reading the attribute, and leaves the options as they are).
proof fn lemma_unknown_metas_skipped(out: ContainerAttrs, ms: Seq<MetaInput>, diffable_pass: bool)
    requires
        forall|i: int| 0 <= i < ms.len() ==> !is_container_key(#[trigger] ms[i]),
    ensures
        container_metas(out, ms, diffable_pass).0 == out,
    decreases ms.len(),
{
    if ms.len() > 0 {
        let init = ms.drop_last();
        assert forall|i: int| 0 <= i < init.len() implies !is_container_key(#[trigger] init[i]) by {
            assert(init[i] == ms[i]);
        }
        lemma_unknown_metas_skipped(out, init, diffable_pass);
        assert(!is_container_key(ms[ms.len() - 1]));
    }
}

/// An attribute holding only options a container does not know is
/// skipped without error: every container option keeps its default, in
/// any namespace.
pub proof fn lemma_unknown_options_skipped(ns: AttrNamespace, ms: Vec<MetaInput>)
    requires
        forall|i: int| 0 <= i < ms@.len() ==> !is_container_key(#[trigger] ms@[i]),
    ensures
        spec_container_attrs(seq![AttrInput { namespace: ns, metas: ms }]) == default_container_attrs(),
{
    let d0 = default_container_attrs();
    let a = seq![AttrInput { namespace: ns, metas: ms }];
    assert(a.drop_last() =~= Seq::<AttrInput>::empty());
    assert(a.last() == AttrInput { namespace: ns, metas: ms });
    reveal_with_fuel(container_pass, 2);
    lemma_unknown_metas_skipped(d0, ms@, true);
    lemma_unknown_metas_skipped(d0, ms@, false);
    assert(container_pass(d0, a, AttrNamespace::Diffable, true) == d0);
    assert(container_pass(d0, a, AttrNamespace::Typewire, true) == d0);
    assert(container_pass(d0, a, AttrNamespace::Serde, false) == d0);
    assert(container_pass(d0, a, AttrNamespace::Typewire, false) == d0);
}

} // verus!

verus! {

/// A field's attributes with `skip_serializing` set, all else as it was.
pub open spec fn with_skip_serializing(a: FieldAttrsView) -> FieldAttrsView {
    FieldAttrsView { skip: SkipOpts { serializing: true, ..a.skip }, ..a }
}

/// Reading a meta reads the same whether or not `skip_serializing` was
/// already set.
proof fn lemma_step_keeps_skip_serializing(out: FieldAttrsView, m: MetaInput)
    ensures
        field_step(with_skip_serializing(out), m) == (
            with_skip_serializing(field_step(out, m).0),
            field_step(out, m).1,
        ),
{
}

proof fn lemma_metas_keep_skip_serializing(out: FieldAttrsView, ms: Seq<MetaInput>)
    ensures
        field_metas(with_skip_serializing(out), ms) == (
            with_skip_serializing(field_metas(out, ms).0),
            field_metas(out, ms).1,
        ),
    decreases ms.len(),
{
    if ms.len() > 0 {
        lemma_metas_keep_skip_serializing(out, ms.drop_last());
        let (o, go) = field_metas(out, ms.drop_last());
        lemma_step_keeps_skip_serializing(o, ms.last());
    }
}

proof fn lemma_pass_keeps_skip_serializing(out: FieldAttrsView, attrs: Seq<AttrInput>, ns: AttrNamespace)
    ensures
        field_pass(with_skip_serializing(out), attrs, ns) == with_skip_serializing(field_pass(out, attrs, ns)),
    decreases attrs.len(),
{
    if attrs.len() > 0 {
        lemma_pass_keeps_skip_serializing(out, attrs.drop_last(), ns);
        let o = field_pass(out, attrs.drop_last(), ns);
        lemma_metas_keep_skip_serializing(o, attrs.last().metas@);
    }
}

/// One meta `skip_serializing` without a value, read in any state, sets
/// `skip_serializing` and nothing else, and reading goes on.
pub proof fn lemma_skip_serializing_meta(out: FieldAttrsView, m: MetaInput)
    requires
        m.path@ == "skip_serializing"@,
        m.value is Absent,
    ensures
        field_metas(out, seq![m]) == (with_skip_serializing(out), true),
        field_metas(out, seq![m]).0.skip == (SkipOpts {
            all: out.skip.all,
            serializing: true,
            deserializing: out.skip.deserializing,
        }),
{
    assert(seq![m].drop_last() =~= Seq::<MetaInput>::empty());
    assert(seq![m].last() == m);
    reveal_strlit("skip_serializing");
    reveal_strlit("rename");
    reveal_strlit("alias");
    reveal_strlit("skip");
    assert(m.path@.len() == 16);
    assert(m.path@ != "rename"@);
    assert(m.path@ != "alias"@);
    assert(m.path@ != "skip"@);
    assert(field_metas(out, Seq::<MetaInput>::empty()) == (out, true));
    assert(field_step(out, m) == (with_skip_serializing(out), true));
}

/// A `#[serde(skip_serializing)]` or `#[typewire(skip_serializing)]`
/// attribute added after a field's attributes makes the field skipped in
/// serialization and changes nothing else: `skip_deserializing`, `skip`
/// and every other option read as they did without it.
pub proof fn lemma_skip_serializing_attr(pre: Seq<AttrInput>, ns: AttrNamespace, metas: Vec<MetaInput>)
    requires
        ns == AttrNamespace::Serde || ns == AttrNamespace::Typewire,
        metas@.len() == 1,
        metas@[0].path@ == "skip_serializing"@,
        metas@[0].value is Absent,
    ensures
        spec_field_attrs(pre.push(AttrInput { namespace: ns, metas })) == with_skip_serializing(
            spec_field_attrs(pre),
        ),
        spec_field_attrs(pre.push(AttrInput { namespace: ns, metas })).skip.serializing,
        spec_field_attrs(pre.push(AttrInput { namespace: ns, metas })).skip.deserializing
            == spec_field_attrs(pre).skip.deserializing,
        spec_field_attrs(pre.push(AttrInput { namespace: ns, metas })).skip.all
            == spec_field_attrs(pre).skip.all,
{
    let x = AttrInput { namespace: ns, metas };
    let a = pre.push(x);
    assert(a.drop_last() =~= pre);
    assert(a.last() == x);
    assert(metas@ =~= seq![metas@[0]]);
    let start = FieldAttrsView {
        rename: None,
        aliases: Seq::empty(),
        skip: SkipOpts { all: false, serializing: false, deserializing: false },
        default: FieldDefaultView::NoDefault,
        flatten: false,
        skip_serializing_if: None,
        encoding: EncodingOpts { base64: false, display: false, serde_bytes: false },
        lenient: false,
    };
    let p = field_pass(start, pre, AttrNamespace::Serde);
    if ns == AttrNamespace::Serde {
        lemma_skip_serializing_meta(p, metas@[0]);
        assert(field_pass(start, a, AttrNamespace::Serde) == with_skip_serializing(p));
        lemma_pass_keeps_skip_serializing(p, pre, AttrNamespace::Typewire);
        assert(field_pass(with_skip_serializing(p), a, AttrNamespace::Typewire) == field_pass(
            with_skip_serializing(p),
            pre,
            AttrNamespace::Typewire,
        ));
    } else {
        assert(field_pass(start, a, AttrNamespace::Serde) == p);
        let t = field_pass(p, pre, AttrNamespace::Typewire);
        lemma_skip_serializing_meta(t, metas@[0]);
    }
}

/// A field's attributes with `skip_deserializing` set, all else as it was.
pub open spec fn with_skip_deserializing(a: FieldAttrsView) -> FieldAttrsView {
    FieldAttrsView { skip: SkipOpts { deserializing: true, ..a.skip }, ..a }
}

/// Reading a meta reads the same whether or not `skip_deserializing` was
/// already set.
proof fn lemma_step_keeps_skip_deserializing(out: FieldAttrsView, m: MetaInput)
    ensures
        field_step(with_skip_deserializing(out), m) == (
            with_skip_deserializing(field_step(out, m).0),
            field_step(out, m).1,
        ),
{
}

proof fn lemma_metas_keep_skip_deserializing(out: FieldAttrsView, ms: Seq<MetaInput>)
    ensures
        field_metas(with_skip_deserializing(out), ms) == (
            with_skip_deserializing(field_metas(out, ms).0),
            field_metas(out, ms).1,
        ),
    decreases ms.len(),
{
    if ms.len() > 0 {
        lemma_metas_keep_skip_deserializing(out, ms.drop_last());
        let (o, go) = field_metas(out, ms.drop_last());
        lemma_step_keeps_skip_deserializing(o, ms.last());
    }
}

proof fn lemma_pass_keeps_skip_deserializing(out: FieldAttrsView, attrs: Seq<AttrInput>, ns: AttrNamespace)
    ensures
        field_pass(with_skip_deserializing(out), attrs, ns) == with_skip_deserializing(field_pass(out, attrs, ns)),
    decreases attrs.len(),
{
    if attrs.len() > 0 {
        lemma_pass_keeps_skip_deserializing(out, attrs.drop_last(), ns);
        let o = field_pass(out, attrs.drop_last(), ns);
        lemma_metas_keep_skip_deserializing(o, attrs.last().metas@);
    }
}

/// One meta `skip_deserializing` without a value, read in any state, sets
/// `skip_deserializing` and nothing else, and reading goes on.
pub proof fn lemma_skip_deserializing_meta(out: FieldAttrsView, m: MetaInput)
    requires
        m.path@ == "skip_deserializing"@,
        m.value is Absent,
    ensures
        field_metas(out, seq![m]) == (with_skip_deserializing(out), true),
        field_metas(out, seq![m]).0.skip == (SkipOpts {
            all: out.skip.all,
            serializing: out.skip.serializing,
            deserializing: true,
        }),
{
    assert(seq![m].drop_last() =~= Seq::<MetaInput>::empty());
    assert(seq![m].last() == m);
    reveal_strlit("skip_deserializing");
    reveal_strlit("rename");
    reveal_strlit("alias");
    reveal_strlit("skip");
    assert(m.path@.len() == 18);
    assert(m.path@ != "rename"@);
    assert(m.path@ != "alias"@);
    assert(m.path@ != "skip"@);
    reveal_strlit("skip_serializing");
    assert(m.path@ != "skip_serializing"@) by {
        assert(m.path@[5] == 'd' && "skip_serializing"@[5] == 's');
    }
    assert(field_metas(out, Seq::<MetaInput>::empty()) == (out, true));
    assert(field_step(out, m) == (with_skip_deserializing(out), true));
}

/// A `#[serde(skip_deserializing)]` or `#[typewire(skip_deserializing)]`
/// attribute added after a field's attributes makes the field skipped in
/// deserialization and changes nothing else: `skip_serializing`, `skip`
/// and every other option read as they did without it.
pub proof fn lemma_skip_deserializing_attr(pre: Seq<AttrInput>, ns: AttrNamespace, metas: Vec<MetaInput>)
    requires
        ns == AttrNamespace::Serde || ns == AttrNamespace::Typewire,
        metas@.len() == 1,
        metas@[0].path@ == "skip_deserializing"@,
        metas@[0].value is Absent,
    ensures
        spec_field_attrs(pre.push(AttrInput { namespace: ns, metas })) == with_skip_deserializing(
            spec_field_attrs(pre),
        ),
        spec_field_attrs(pre.push(AttrInput { namespace: ns, metas })).skip.deserializing,
        spec_field_attrs(pre.push(AttrInput { namespace: ns, metas })).skip.serializing
            == spec_field_attrs(pre).skip.serializing,
        spec_field_attrs(pre.push(AttrInput { namespace: ns, metas })).skip.all
            == spec_field_attrs(pre).skip.all,
{
    let x = AttrInput { namespace: ns, metas };
    let a = pre.push(x);
    assert(a.drop_last() =~= pre);
    assert(a.last() == x);
    assert(metas@ =~= seq![metas@[0]]);
    let start = FieldAttrsView {
        rename: None,
        aliases: Seq::empty(),
        skip: SkipOpts { all: false, serializing: false, deserializing: false },
        default: FieldDefaultView::NoDefault,
        flatten: false,
        skip_serializing_if: None,
        encoding: EncodingOpts { base64: false, display: false, serde_bytes: false },
        lenient: false,
    };
    let p = field_pass(start, pre, AttrNamespace::Serde);
    if ns == AttrNamespace::Serde {
        lemma_skip_deserializing_meta(p, metas@[0]);
        assert(field_pass(start, a, AttrNamespace::Serde) == with_skip_deserializing(p));
        lemma_pass_keeps_skip_deserializing(p, pre, AttrNamespace::Typewire);
        assert(field_pass(with_skip_deserializing(p), a, AttrNamespace::Typewire) == field_pass(
            with_skip_deserializing(p),
            pre,
            AttrNamespace::Typewire,
        ));
    } else {
        assert(field_pass(start, a, AttrNamespace::Serde) == p);
        let t = field_pass(p, pre, AttrNamespace::Typewire);
        lemma_skip_deserializing_meta(t, metas@[0]);
    }
}

/// A field's attributes with `skip` set, all else as it was.
pub open spec fn with_skip(a: FieldAttrsView) -> FieldAttrsView {
    FieldAttrsView { skip: SkipOpts { all: true, ..a.skip }, ..a }
}

/// Reading a meta reads the same whether or not `skip` was
/// already set.
proof fn lemma_step_keeps_skip(out: FieldAttrsView, m: MetaInput)
    ensures
        field_step(with_skip(out), m) == (
            with_skip(field_step(out, m).0),
            field_step(out, m).1,
        ),
{
}

proof fn lemma_metas_keep_skip(out: FieldAttrsView, ms: Seq<MetaInput>)
    ensures
        field_metas(with_skip(out), ms) == (
            with_skip(field_metas(out, ms).0),
            field_metas(out, ms).1,
        ),
    decreases ms.len(),
{
    if ms.len() > 0 {
        lemma_metas_keep_skip(out, ms.drop_last());
        let (o, go) = field_metas(out, ms.drop_last());
        lemma_step_keeps_skip(o, ms.last());
    }
}

proof fn lemma_pass_keeps_skip(out: FieldAttrsView, attrs: Seq<AttrInput>, ns: AttrNamespace)
    ensures
        field_pass(with_skip(out), attrs, ns) == with_skip(field_pass(out, attrs, ns)),
    decreases attrs.len(),
{
    if attrs.len() > 0 {
        lemma_pass_keeps_skip(out, attrs.drop_last(), ns);
        let o = field_pass(out, attrs.drop_last(), ns);
        lemma_metas_keep_skip(o, attrs.last().metas@);
    }
}

/// One meta `skip` without a value, read in any state, sets that option
/// and nothing else, and reading goes on.
pub proof fn lemma_skip_meta(out: FieldAttrsView, m: MetaInput)
    requires
        m.path@ == "skip"@,
        m.value is Absent,
    ensures
        field_metas(out, seq![m]) == (with_skip(out), true),
{
    assert(seq![m].drop_last() =~= Seq::<MetaInput>::empty());
    assert(seq![m].last() == m);
    reveal_strlit("rename");
    reveal_strlit("alias");
    reveal_strlit("skip");
    assert(m.path@.len() == 4);
    assert(m.path@ != "rename"@);
    assert(m.path@ != "alias"@);
    assert(field_metas(out, Seq::<MetaInput>::empty()) == (out, true));
    assert(field_step(out, m) == (with_skip(out), true));
}

/// A `#[serde(skip)]` or `#[typewire(skip)]` attribute added after a
/// field's attributes makes the field skipped both ways and changes nothing
/// else: every other option reads as it did without it.
pub proof fn lemma_skip_attr(pre: Seq<AttrInput>, ns: AttrNamespace, metas: Vec<MetaInput>)
    requires
        ns == AttrNamespace::Serde || ns == AttrNamespace::Typewire,
        metas@.len() == 1,
        metas@[0].path@ == "skip"@,
        metas@[0].value is Absent,
    ensures
        spec_field_attrs(pre.push(AttrInput { namespace: ns, metas })) == with_skip(
            spec_field_attrs(pre),
        ),
{
    let x = AttrInput { namespace: ns, metas };
    let a = pre.push(x);
    assert(a.drop_last() =~= pre);
    assert(a.last() == x);
    assert(metas@ =~= seq![metas@[0]]);
    let start = FieldAttrsView {
        rename: None,
        aliases: Seq::empty(),
        skip: SkipOpts { all: false, serializing: false, deserializing: false },
        default: FieldDefaultView::NoDefault,
        flatten: false,
        skip_serializing_if: None,
        encoding: EncodingOpts { base64: false, display: false, serde_bytes: false },
        lenient: false,
    };
    let p = field_pass(start, pre, AttrNamespace::Serde);
    if ns == AttrNamespace::Serde {
        lemma_skip_meta(p, metas@[0]);
        assert(field_pass(start, a, AttrNamespace::Serde) == with_skip(p));
        lemma_pass_keeps_skip(p, pre, AttrNamespace::Typewire);
        assert(field_pass(with_skip(p), a, AttrNamespace::Typewire) == field_pass(
            with_skip(p),
            pre,
            AttrNamespace::Typewire,
        ));
    } else {
        assert(field_pass(start, a, AttrNamespace::Serde) == p);
        let t = field_pass(p, pre, AttrNamespace::Typewire);
        lemma_skip_meta(t, metas@[0]);
    }
}

/// A field's attributes with `flatten` set, all else as it was.
pub open spec fn with_flatten(a: FieldAttrsView) -> FieldAttrsView {
    FieldAttrsView { flatten: true, ..a }
}

/// Reading a meta reads the same whether or not `flatten` was
/// already set.
proof fn lemma_step_keeps_flatten(out: FieldAttrsView, m: MetaInput)
    ensures
        field_step(with_flatten(out), m) == (
            with_flatten(field_step(out, m).0),
            field_step(out, m).1,
        ),
{
}

proof fn lemma_metas_keep_flatten(out: FieldAttrsView, ms: Seq<MetaInput>)
    ensures
        field_metas(with_flatten(out), ms) == (
            with_flatten(field_metas(out, ms).0),
            field_metas(out, ms).1,
        ),
    decreases ms.len(),
{
    if ms.len() > 0 {
        lemma_metas_keep_flatten(out, ms.drop_last());
        let (o, go) = field_metas(out, ms.drop_last());
        lemma_step_keeps_flatten(o, ms.last());
    }
}

proof fn lemma_pass_keeps_flatten(out: FieldAttrsView, attrs: Seq<AttrInput>, ns: AttrNamespace)
    ensures
        field_pass(with_flatten(out), attrs, ns) == with_flatten(field_pass(out, attrs, ns)),
    decreases attrs.len(),
{
    if attrs.len() > 0 {
        lemma_pass_keeps_flatten(out, attrs.drop_last(), ns);
        let o = field_pass(out, attrs.drop_last(), ns);
        lemma_metas_keep_flatten(o, attrs.last().metas@);
    }
}

/// One meta `flatten` without a value, read in any state, sets that option
/// and nothing else, and reading goes on.
pub proof fn lemma_flatten_meta(out: FieldAttrsView, m: MetaInput)
    requires
        m.path@ == "flatten"@,
        m.value is Absent,
    ensures
        field_metas(out, seq![m]) == (with_flatten(out), true),
{
    assert(seq![m].drop_last() =~= Seq::<MetaInput>::empty());
    assert(seq![m].last() == m);
    reveal_strlit("rename");
    reveal_strlit("alias");
    reveal_strlit("skip");
    reveal_strlit("skip_serializing");
    reveal_strlit("skip_deserializing");
    reveal_strlit("default");
    reveal_strlit("flatten");
    assert(m.path@.len() == 7);
    assert(m.path@ != "rename"@);
    assert(m.path@ != "alias"@);
    assert(m.path@ != "skip"@);
    assert(m.path@ != "skip_serializing"@);
    assert(m.path@ != "skip_deserializing"@);
    assert(m.path@ != "default"@) by {
        assert("default"@[0] != m.path@[0]);
    }
    assert(field_metas(out, Seq::<MetaInput>::empty()) == (out, true));
    assert(field_step(out, m) == (with_flatten(out), true));
}

/// A `#[serde(flatten)]` or `#[typewire(flatten)]` attribute added after a
/// field's attributes makes the field flattened into its parent and changes nothing
/// else: every other option reads as it did without it.
pub proof fn lemma_flatten_attr(pre: Seq<AttrInput>, ns: AttrNamespace, metas: Vec<MetaInput>)
    requires
        ns == AttrNamespace::Serde || ns == AttrNamespace::Typewire,
        metas@.len() == 1,
        metas@[0].path@ == "flatten"@,
        metas@[0].value is Absent,
    ensures
        spec_field_attrs(pre.push(AttrInput { namespace: ns, metas })) == with_flatten(
            spec_field_attrs(pre),
        ),
{
    let x = AttrInput { namespace: ns, metas };
    let a = pre.push(x);
    assert(a.drop_last() =~= pre);
    assert(a.last() == x);
    assert(metas@ =~= seq![metas@[0]]);
    let start = FieldAttrsView {
        rename: None,
        aliases: Seq::empty(),
        skip: SkipOpts { all: false, serializing: false, deserializing: false },
        default: FieldDefaultView::NoDefault,
        flatten: false,
        skip_serializing_if: None,
        encoding: EncodingOpts { base64: false, display: false, serde_bytes: false },
        lenient: false,
    };
    let p = field_pass(start, pre, AttrNamespace::Serde);
    if ns == AttrNamespace::Serde {
        lemma_flatten_meta(p, metas@[0]);
        assert(field_pass(start, a, AttrNamespace::Serde) == with_flatten(p));
        lemma_pass_keeps_flatten(p, pre, AttrNamespace::Typewire);
        assert(field_pass(with_flatten(p), a, AttrNamespace::Typewire) == field_pass(
            with_flatten(p),
            pre,
            AttrNamespace::Typewire,
        ));
    } else {
        assert(field_pass(start, a, AttrNamespace::Serde) == p);
        let t = field_pass(p, pre, AttrNamespace::Typewire);
        lemma_flatten_meta(t, metas@[0]);
    }
}

/// A field's attributes with `base64` set, all else as it was.
pub open spec fn with_base64(a: FieldAttrsView) -> FieldAttrsView {
    FieldAttrsView { encoding: EncodingOpts { base64: true, ..a.encoding }, ..a }
}

/// Reading a meta reads the same whether or not `base64` was
/// already set.
proof fn lemma_step_keeps_base64(out: FieldAttrsView, m: MetaInput)
    ensures
        field_step(with_base64(out), m) == (
            with_base64(field_step(out, m).0),
            field_step(out, m).1,
        ),
{
}

proof fn lemma_metas_keep_base64(out: FieldAttrsView, ms: Seq<MetaInput>)
    ensures
        field_metas(with_base64(out), ms) == (
            with_base64(field_metas(out, ms).0),
            field_metas(out, ms).1,
        ),
    decreases ms.len(),
{
    if ms.len() > 0 {
        lemma_metas_keep_base64(out, ms.drop_last());
        let (o, go) = field_metas(out, ms.drop_last());
        lemma_step_keeps_base64(o, ms.last());
    }
}

proof fn lemma_pass_keeps_base64(out: FieldAttrsView, attrs: Seq<AttrInput>, ns: AttrNamespace)
    ensures
        field_pass(with_base64(out), attrs, ns) == with_base64(field_pass(out, attrs, ns)),
    decreases attrs.len(),
{
    if attrs.len() > 0 {
        lemma_pass_keeps_base64(out, attrs.drop_last(), ns);
        let o = field_pass(out, attrs.drop_last(), ns);
        lemma_metas_keep_base64(o, attrs.last().metas@);
    }
}

/// One meta `base64` without a value, read in any state, sets that option
/// and nothing else, and reading goes on.
pub proof fn lemma_base64_meta(out: FieldAttrsView, m: MetaInput)
    requires
        m.path@ == "base64"@,
        m.value is Absent,
    ensures
        field_metas(out, seq![m]) == (with_base64(out), true),
{
    assert(seq![m].drop_last() =~= Seq::<MetaInput>::empty());
    assert(seq![m].last() == m);
    reveal_strlit("rename");
    reveal_strlit("alias");
    reveal_strlit("skip");
    reveal_strlit("skip_serializing");
    reveal_strlit("skip_deserializing");
    reveal_strlit("default");
    reveal_strlit("flatten");
    reveal_strlit("skip_serializing_if");
    reveal_strlit("with");
    reveal_strlit("base64");
    assert(m.path@.len() == 6);
    assert(m.path@ != "rename"@) by {
        assert("rename"@[0] != m.path@[0]);
    }
    assert(m.path@ != "alias"@);
    assert(m.path@ != "skip"@);
    assert(m.path@ != "skip_serializing"@);
    assert(m.path@ != "skip_deserializing"@);
    assert(m.path@ != "default"@);
    assert(m.path@ != "flatten"@);
    assert(m.path@ != "skip_serializing_if"@);
    assert(m.path@ != "with"@);
    assert(field_metas(out, Seq::<MetaInput>::empty()) == (out, true));
    assert(field_step(out, m) == (with_base64(out), true));
}

/// A `#[serde(base64)]` or `#[typewire(base64)]` attribute added after a
/// field's attributes makes the field encoded as base64 text and changes nothing
/// else: every other option reads as it did without it.
pub proof fn lemma_base64_attr(pre: Seq<AttrInput>, ns: AttrNamespace, metas: Vec<MetaInput>)
    requires
        ns == AttrNamespace::Serde || ns == AttrNamespace::Typewire,
        metas@.len() == 1,
        metas@[0].path@ == "base64"@,
        metas@[0].value is Absent,
    ensures
        spec_field_attrs(pre.push(AttrInput { namespace: ns, metas })) == with_base64(
            spec_field_attrs(pre),
        ),
{
    let x = AttrInput { namespace: ns, metas };
    let a = pre.push(x);
    assert(a.drop_last() =~= pre);
    assert(a.last() == x);
    assert(metas@ =~= seq![metas@[0]]);
    let start = FieldAttrsView {
        rename: None,
        aliases: Seq::empty(),
        skip: SkipOpts { all: false, serializing: false, deserializing: false },
        default: FieldDefaultView::NoDefault,
        flatten: false,
        skip_serializing_if: None,
        encoding: EncodingOpts { base64: false, display: false, serde_bytes: false },
        lenient: false,
    };
    let p = field_pass(start, pre, AttrNamespace::Serde);
    if ns == AttrNamespace::Serde {
        lemma_base64_meta(p, metas@[0]);
        assert(field_pass(start, a, AttrNamespace::Serde) == with_base64(p));
        lemma_pass_keeps_base64(p, pre, AttrNamespace::Typewire);
        assert(field_pass(with_base64(p), a, AttrNamespace::Typewire) == field_pass(
            with_base64(p),
            pre,
            AttrNamespace::Typewire,
        ));
    } else {
        assert(field_pass(start, a, AttrNamespace::Serde) == p);
        let t = field_pass(p, pre, AttrNamespace::Typewire);
        lemma_base64_meta(t, metas@[0]);
    }
}

/// A field's attributes with `display` set, all else as it was.
pub open spec fn with_display(a: FieldAttrsView) -> FieldAttrsView {
    FieldAttrsView { encoding: EncodingOpts { display: true, ..a.encoding }, ..a }
}

/// Reading a meta reads the same whether or not `display` was
/// already set.
proof fn lemma_step_keeps_display(out: FieldAttrsView, m: MetaInput)
    ensures
        field_step(with_display(out), m) == (
            with_display(field_step(out, m).0),
            field_step(out, m).1,
        ),
{
}

proof fn lemma_metas_keep_display(out: FieldAttrsView, ms: Seq<MetaInput>)
    ensures
        field_metas(with_display(out), ms) == (
            with_display(field_metas(out, ms).0),
            field_metas(out, ms).1,
        ),
    decreases ms.len(),
{
    if ms.len() > 0 {
        lemma_metas_keep_display(out, ms.drop_last());
        let (o, go) = field_metas(out, ms.drop_last());
        lemma_step_keeps_display(o, ms.last());
    }
}

proof fn lemma_pass_keeps_display(out: FieldAttrsView, attrs: Seq<AttrInput>, ns: AttrNamespace)
    ensures
        field_pass(with_display(out), attrs, ns) == with_display(field_pass(out, attrs, ns)),
    decreases attrs.len(),
{
    if attrs.len() > 0 {
        lemma_pass_keeps_display(out, attrs.drop_last(), ns);
        let o = field_pass(out, attrs.drop_last(), ns);
        lemma_metas_keep_display(o, attrs.last().metas@);
    }
}

/// One meta `display` without a value, read in any state, sets that option
/// and nothing else, and reading goes on.
pub proof fn lemma_display_meta(out: FieldAttrsView, m: MetaInput)
    requires
        m.path@ == "display"@,
        m.value is Absent,
    ensures
        field_metas(out, seq![m]) == (with_display(out), true),
{
    assert(seq![m].drop_last() =~= Seq::<MetaInput>::empty());
    assert(seq![m].last() == m);
    reveal_strlit("rename");
    reveal_strlit("alias");
    reveal_strlit("skip");
    reveal_strlit("skip_serializing");
    reveal_strlit("skip_deserializing");
    reveal_strlit("default");
    reveal_strlit("flatten");
    reveal_strlit("skip_serializing_if");
    reveal_strlit("with");
    reveal_strlit("base64");
    reveal_strlit("display");
    assert(m.path@.len() == 7);
    assert(m.path@ != "rename"@);
    assert(m.path@ != "alias"@);
    assert(m.path@ != "skip"@);
    assert(m.path@ != "skip_serializing"@);
    assert(m.path@ != "skip_deserializing"@);
    assert(m.path@ != "default"@) by {
        assert("default"@[1] != m.path@[1]);
    }
    assert(m.path@ != "flatten"@) by {
        assert("flatten"@[0] != m.path@[0]);
    }
    assert(m.path@ != "skip_serializing_if"@);
    assert(m.path@ != "with"@);
    assert(m.path@ != "base64"@);
    assert(field_metas(out, Seq::<MetaInput>::empty()) == (out, true));
    assert(field_step(out, m) == (with_display(out), true));
}

/// A `#[serde(display)]` or `#[typewire(display)]` attribute added after a
/// field's attributes makes the field encoded as its display text and changes nothing
/// else: every other option reads as it did without it.
pub proof fn lemma_display_attr(pre: Seq<AttrInput>, ns: AttrNamespace, metas: Vec<MetaInput>)
    requires
        ns == AttrNamespace::Serde || ns == AttrNamespace::Typewire,
        metas@.len() == 1,
        metas@[0].path@ == "display"@,
        metas@[0].value is Absent,
    ensures
        spec_field_attrs(pre.push(AttrInput { namespace: ns, metas })) == with_display(
            spec_field_attrs(pre),
        ),
{
    let x = AttrInput { namespace: ns, metas };
    let a = pre.push(x);
    assert(a.drop_last() =~= pre);
    assert(a.last() == x);
    assert(metas@ =~= seq![metas@[0]]);
    let start = FieldAttrsView {
        rename: None,
        aliases: Seq::empty(),
        skip: SkipOpts { all: false, serializing: false, deserializing: false },
        default: FieldDefaultView::NoDefault,
        flatten: false,
        skip_serializing_if: None,
        encoding: EncodingOpts { base64: false, display: false, serde_bytes: false },
        lenient: false,
    };
    let p = field_pass(start, pre, AttrNamespace::Serde);
    if ns == AttrNamespace::Serde {
        lemma_display_meta(p, metas@[0]);
        assert(field_pass(start, a, AttrNamespace::Serde) == with_display(p));
        lemma_pass_keeps_display(p, pre, AttrNamespace::Typewire);
        assert(field_pass(with_display(p), a, AttrNamespace::Typewire) == field_pass(
            with_display(p),
            pre,
            AttrNamespace::Typewire,
        ));
    } else {
        assert(field_pass(start, a, AttrNamespace::Serde) == p);
        let t = field_pass(p, pre, AttrNamespace::Typewire);
        lemma_display_meta(t, metas@[0]);
    }
}

/// A field's attributes with `lenient` set, all else as it was.
pub open spec fn with_lenient(a: FieldAttrsView) -> FieldAttrsView {
    FieldAttrsView { lenient: true, ..a }
}

/// Reading a meta reads the same whether or not `lenient` was
/// already set.
proof fn lemma_step_keeps_lenient(out: FieldAttrsView, m: MetaInput)
    ensures
        field_step(with_lenient(out), m) == (
            with_lenient(field_step(out, m).0),
            field_step(out, m).1,
        ),
{
}

proof fn lemma_metas_keep_lenient(out: FieldAttrsView, ms: Seq<MetaInput>)
    ensures
        field_metas(with_lenient(out), ms) == (
            with_lenient(field_metas(out, ms).0),
            field_metas(out, ms).1,
        ),
    decreases ms.len(),
{
    if ms.len() > 0 {
        lemma_metas_keep_lenient(out, ms.drop_last());
        let (o, go) = field_metas(out, ms.drop_last());
        lemma_step_keeps_lenient(o, ms.last());
    }
}

proof fn lemma_pass_keeps_lenient(out: FieldAttrsView, attrs: Seq<AttrInput>, ns: AttrNamespace)
    ensures
        field_pass(with_lenient(out), attrs, ns) == with_lenient(field_pass(out, attrs, ns)),
    decreases attrs.len(),
{
    if attrs.len() > 0 {
        lemma_pass_keeps_lenient(out, attrs.drop_last(), ns);
        let o = field_pass(out, attrs.drop_last(), ns);
        lemma_metas_keep_lenient(o, attrs.last().metas@);
    }
}

/// One meta `lenient` without a value, read in any state, sets that option
/// and nothing else, and reading goes on.
pub proof fn lemma_lenient_meta(out: FieldAttrsView, m: MetaInput)
    requires
        m.path@ == "lenient"@,
        m.value is Absent,
    ensures
        field_metas(out, seq![m]) == (with_lenient(out), true),
{
    assert(seq![m].drop_last() =~= Seq::<MetaInput>::empty());
    assert(seq![m].last() == m);
    reveal_strlit("rename");
    reveal_strlit("alias");
    reveal_strlit("skip");
    reveal_strlit("skip_serializing");
    reveal_strlit("skip_deserializing");
    reveal_strlit("default");
    reveal_strlit("flatten");
    reveal_strlit("skip_serializing_if");
    reveal_strlit("with");
    reveal_strlit("base64");
    reveal_strlit("display");
    reveal_strlit("lenient");
    assert(m.path@.len() == 7);
    assert(m.path@ != "rename"@);
    assert(m.path@ != "alias"@);
    assert(m.path@ != "skip"@);
    assert(m.path@ != "skip_serializing"@);
    assert(m.path@ != "skip_deserializing"@);
    assert(m.path@ != "default"@) by {
        assert("default"@[0] != m.path@[0]);
    }
    assert(m.path@ != "flatten"@) by {
        assert("flatten"@[0] != m.path@[0]);
    }
    assert(m.path@ != "skip_serializing_if"@);
    assert(m.path@ != "with"@);
    assert(m.path@ != "base64"@);
    assert(m.path@ != "display"@) by {
        assert("display"@[0] != m.path@[0]);
    }
    assert(field_metas(out, Seq::<MetaInput>::empty()) == (out, true));
    assert(field_step(out, m) == (with_lenient(out), true));
}

/// A `#[serde(lenient)]` or `#[typewire(lenient)]` attribute added after a
/// field's attributes makes the field read leniently and changes nothing
/// else: every other option reads as it did without it.
pub proof fn lemma_lenient_attr(pre: Seq<AttrInput>, ns: AttrNamespace, metas: Vec<MetaInput>)
    requires
        ns == AttrNamespace::Serde || ns == AttrNamespace::Typewire,
        metas@.len() == 1,
        metas@[0].path@ == "lenient"@,
        metas@[0].value is Absent,
    ensures
        spec_field_attrs(pre.push(AttrInput { namespace: ns, metas })) == with_lenient(
            spec_field_attrs(pre),
        ),
{
    let x = AttrInput { namespace: ns, metas };
    let a = pre.push(x);
    assert(a.drop_last() =~= pre);
    assert(a.last() == x);
    assert(metas@ =~= seq![metas@[0]]);
    let start = FieldAttrsView {
        rename: None,
        aliases: Seq::empty(),
        skip: SkipOpts { all: false, serializing: false, deserializing: false },
        default: FieldDefaultView::NoDefault,
        flatten: false,
        skip_serializing_if: None,
        encoding: EncodingOpts { base64: false, display: false, serde_bytes: false },
        lenient: false,
    };
    let p = field_pass(start, pre, AttrNamespace::Serde);
    if ns == AttrNamespace::Serde {
        lemma_lenient_meta(p, metas@[0]);
        assert(field_pass(start, a, AttrNamespace::Serde) == with_lenient(p));
        lemma_pass_keeps_lenient(p, pre, AttrNamespace::Typewire);
        assert(field_pass(with_lenient(p), a, AttrNamespace::Typewire) == field_pass(
            with_lenient(p),
            pre,
            AttrNamespace::Typewire,
        ));
    } else {
        assert(field_pass(start, a, AttrNamespace::Serde) == p);
        let t = field_pass(p, pre, AttrNamespace::Typewire);
        lemma_lenient_meta(t, metas@[0]);
    }
}

} // verus!

verus! {

/// Container attributes with `untagged` set, all else as it was.
pub open spec fn with_untagged(a: ContainerAttrs) -> ContainerAttrs {
    ContainerAttrs { untagged: true, ..a }
}

proof fn lemma_steps_keep_untagged(out: ContainerAttrs, m: MetaInput)
    ensures
        container_serde_step(with_untagged(out), m) == (
            with_untagged(container_serde_step(out, m).0),
            container_serde_step(out, m).1,
        ),
        container_diffable_step(with_untagged(out), m) == (
            with_untagged(container_diffable_step(out, m).0),
            container_diffable_step(out, m).1,
        ),
{
}

#[verifier::rlimit(40)]
proof fn lemma_metas_keep_untagged(out: ContainerAttrs, ms: Seq<MetaInput>, diffable_pass: bool)
    ensures
        container_metas(with_untagged(out), ms, diffable_pass) == (
            with_untagged(container_metas(out, ms, diffable_pass).0),
            container_metas(out, ms, diffable_pass).1,
        ),
    decreases ms.len(),
{
    if ms.len() > 0 {
        lemma_metas_keep_untagged(out, ms.drop_last(), diffable_pass);
        let (o, go) = container_metas(out, ms.drop_last(), diffable_pass);
        lemma_steps_keep_untagged(o, ms.last());
    }
}

proof fn lemma_pass_keeps_untagged(out: ContainerAttrs, attrs: Seq<AttrInput>, ns: AttrNamespace, diffable_pass: bool)
    ensures
        container_pass(with_untagged(out), attrs, ns, diffable_pass) == with_untagged(
            container_pass(out, attrs, ns, diffable_pass),
        ),
    decreases attrs.len(),
{
    if attrs.len() > 0 {
        lemma_pass_keeps_untagged(out, attrs.drop_last(), ns, diffable_pass);
        let o = container_pass(out, attrs.drop_last(), ns, diffable_pass);
        lemma_metas_keep_untagged(o, attrs.last().metas@, diffable_pass);
    }
}

/// One meta `untagged` without a value sets that option and nothing else
/// where container options are read, is passed over where diffable
/// options are read, and reading goes on either way.
pub proof fn lemma_untagged_meta(out: ContainerAttrs, m: MetaInput)
    requires
        m.path@ == "untagged"@,
        m.value is Absent,
    ensures
        container_metas(out, seq![m], false) == (with_untagged(out), true),
        container_metas(out, seq![m], true) == (out, true),
{
    assert(seq![m].drop_last() =~= Seq::<MetaInput>::empty());
    assert(seq![m].last() == m);
    reveal_strlit("untagged");
    reveal_strlit("atomic");
    reveal_strlit("visit_transparent");
    reveal_strlit("rename_all");
    reveal_strlit("rename_all_fields");
    reveal_strlit("tag");
    reveal_strlit("content");
    assert(m.path@.len() == 8);
    assert(m.path@ != "atomic"@);
    assert(m.path@ != "visit_transparent"@);
    assert(m.path@ != "rename_all"@);
    assert(m.path@ != "rename_all_fields"@);
    assert(m.path@ != "tag"@);
    assert(m.path@ != "content"@);
    assert(container_metas(out, Seq::<MetaInput>::empty(), false) == (out, true));
    assert(container_metas(out, Seq::<MetaInput>::empty(), true) == (out, true));
}

/// A `#[serde(untagged)]` or `#[typewire(untagged)]` attribute added after
/// an item's attributes makes the item untagged and changes nothing else:
/// every other container option reads as it did without it.
pub proof fn lemma_untagged_attr(pre: Seq<AttrInput>, ns: AttrNamespace, metas: Vec<MetaInput>)
    requires
        ns == AttrNamespace::Serde || ns == AttrNamespace::Typewire,
        metas@.len() == 1,
        metas@[0].path@ == "untagged"@,
        metas@[0].value is Absent,
    ensures
        spec_container_attrs(pre.push(AttrInput { namespace: ns, metas })) == with_untagged(
            spec_container_attrs(pre),
        ),
{
    let x = AttrInput { namespace: ns, metas };
    let a = pre.push(x);
    assert(a.drop_last() =~= pre);
    assert(a.last() == x);
    assert(metas@ =~= seq![metas@[0]]);
    lemma_untagged_meta(container_pass(default_container_attrs(), pre, AttrNamespace::Diffable, true), metas@[0]);
    let d1 = container_pass(default_container_attrs(), pre, AttrNamespace::Diffable, true);
    assert(container_pass(default_container_attrs(), a, AttrNamespace::Diffable, true) == d1);
    lemma_untagged_meta(container_pass(d1, pre, AttrNamespace::Typewire, true), metas@[0]);
    let d = container_pass(d1, pre, AttrNamespace::Typewire, true);
    assert(container_pass(d1, a, AttrNamespace::Typewire, true) == d);
    let p = container_pass(d, pre, AttrNamespace::Serde, false);
    if ns == AttrNamespace::Serde {
        lemma_untagged_meta(p, metas@[0]);
        assert(container_pass(d, a, AttrNamespace::Serde, false) == with_untagged(p));
        lemma_pass_keeps_untagged(p, pre, AttrNamespace::Typewire, false);
        assert(container_pass(with_untagged(p), a, AttrNamespace::Typewire, false) == container_pass(
            with_untagged(p),
            pre,
            AttrNamespace::Typewire,
            false,
        ));
    } else {
        assert(container_pass(d, a, AttrNamespace::Serde, false) == p);
        let t = container_pass(p, pre, AttrNamespace::Typewire, false);
        lemma_untagged_meta(t, metas@[0]);
    }
}

/// Container attributes with `transparent` set, all else as it was.
pub open spec fn with_transparent(a: ContainerAttrs) -> ContainerAttrs {
    ContainerAttrs { transparent: true, ..a }
}

proof fn lemma_steps_keep_transparent(out: ContainerAttrs, m: MetaInput)
    ensures
        container_serde_step(with_transparent(out), m) == (
            with_transparent(container_serde_step(out, m).0),
            container_serde_step(out, m).1,
        ),
        container_diffable_step(with_transparent(out), m) == (
            with_transparent(container_diffable_step(out, m).0),
            container_diffable_step(out, m).1,
        ),
{
}

#[verifier::rlimit(40)]
proof fn lemma_metas_keep_transparent(out: ContainerAttrs, ms: Seq<MetaInput>, diffable_pass: bool)
    ensures
        container_metas(with_transparent(out), ms, diffable_pass) == (
            with_transparent(container_metas(out, ms, diffable_pass).0),
            container_metas(out, ms, diffable_pass).1,
        ),
    decreases ms.len(),
{
    if ms.len() > 0 {
        lemma_metas_keep_transparent(out, ms.drop_last(), diffable_pass);
        let (o, go) = container_metas(out, ms.drop_last(), diffable_pass);
        lemma_steps_keep_transparent(o, ms.last());
    }
}

proof fn lemma_pass_keeps_transparent(out: ContainerAttrs, attrs: Seq<AttrInput>, ns: AttrNamespace, diffable_pass: bool)
    ensures
        container_pass(with_transparent(out), attrs, ns, diffable_pass) == with_transparent(
            container_pass(out, attrs, ns, diffable_pass),
        ),
    decreases attrs.len(),
{
    if attrs.len() > 0 {
        lemma_pass_keeps_transparent(out, attrs.drop_last(), ns, diffable_pass);
        let o = container_pass(out, attrs.drop_last(), ns, diffable_pass);
        lemma_metas_keep_transparent(o, attrs.last().metas@, diffable_pass);
    }
}

/// One meta `transparent` without a value sets that option and nothing else
/// where container options are read, is passed over where diffable
/// options are read, and reading goes on either way.
pub proof fn lemma_transparent_meta(out: ContainerAttrs, m: MetaInput)
    requires
        m.path@ == "transparent"@,
        m.value is Absent,
    ensures
        container_metas(out, seq![m], false) == (with_transparent(out), true),
        container_metas(out, seq![m], true) == (out, true),
{
    assert(seq![m].drop_last() =~= Seq::<MetaInput>::empty());
    assert(seq![m].last() == m);
    reveal_strlit("transparent");
    reveal_strlit("atomic");
    reveal_strlit("visit_transparent");
    reveal_strlit("rename_all");
    reveal_strlit("rename_all_fields");
    reveal_strlit("tag");
    reveal_strlit("content");
    reveal_strlit("untagged");
    assert(m.path@.len() == 11);
    assert(m.path@ != "atomic"@);
    assert(m.path@ != "visit_transparent"@);
    assert(m.path@ != "rename_all"@);
    assert(m.path@ != "rename_all_fields"@);
    assert(m.path@ != "tag"@);
    assert(m.path@ != "content"@);
    assert(m.path@ != "untagged"@);
    assert(container_metas(out, Seq::<MetaInput>::empty(), false) == (out, true));
    assert(container_metas(out, Seq::<MetaInput>::empty(), true) == (out, true));
}

/// A `#[serde(transparent)]` or `#[typewire(transparent)]` attribute added after
/// an item's attributes makes the item transparent (read as its one field) and changes nothing else:
/// every other container option reads as it did without it.
pub proof fn lemma_transparent_attr(pre: Seq<AttrInput>, ns: AttrNamespace, metas: Vec<MetaInput>)
    requires
        ns == AttrNamespace::Serde || ns == AttrNamespace::Typewire,
        metas@.len() == 1,
        metas@[0].path@ == "transparent"@,
        metas@[0].value is Absent,
    ensures
        spec_container_attrs(pre.push(AttrInput { namespace: ns, metas })) == with_transparent(
            spec_container_attrs(pre),
        ),
{
    let x = AttrInput { namespace: ns, metas };
    let a = pre.push(x);
    assert(a.drop_last() =~= pre);
    assert(a.last() == x);
    assert(metas@ =~= seq![metas@[0]]);
    lemma_transparent_meta(container_pass(default_container_attrs(), pre, AttrNamespace::Diffable, true), metas@[0]);
    let d1 = container_pass(default_container_attrs(), pre, AttrNamespace::Diffable, true);
    assert(container_pass(default_container_attrs(), a, AttrNamespace::Diffable, true) == d1);
    lemma_transparent_meta(container_pass(d1, pre, AttrNamespace::Typewire, true), metas@[0]);
    let d = container_pass(d1, pre, AttrNamespace::Typewire, true);
    assert(container_pass(d1, a, AttrNamespace::Typewire, true) == d);
    let p = container_pass(d, pre, AttrNamespace::Serde, false);
    if ns == AttrNamespace::Serde {
        lemma_transparent_meta(p, metas@[0]);
        assert(container_pass(d, a, AttrNamespace::Serde, false) == with_transparent(p));
        lemma_pass_keeps_transparent(p, pre, AttrNamespace::Typewire, false);
        assert(container_pass(with_transparent(p), a, AttrNamespace::Typewire, false) == container_pass(
            with_transparent(p),
            pre,
            AttrNamespace::Typewire,
            false,
        ));
    } else {
        assert(container_pass(d, a, AttrNamespace::Serde, false) == p);
        let t = container_pass(p, pre, AttrNamespace::Typewire, false);
        lemma_transparent_meta(t, metas@[0]);
    }
}

/// Container attributes with `default` set, all else as it was.
pub open spec fn with_default(a: ContainerAttrs) -> ContainerAttrs {
    ContainerAttrs { default: ContainerDefault::Default, ..a }
}

proof fn lemma_steps_keep_default(out: ContainerAttrs, m: MetaInput)
    ensures
        container_serde_step(with_default(out), m) == (
            with_default(container_serde_step(out, m).0),
            container_serde_step(out, m).1,
        ),
        container_diffable_step(with_default(out), m) == (
            with_default(container_diffable_step(out, m).0),
            container_diffable_step(out, m).1,
        ),
{
}

#[verifier::rlimit(40)]
proof fn lemma_metas_keep_default(out: ContainerAttrs, ms: Seq<MetaInput>, diffable_pass: bool)
    ensures
        container_metas(with_default(out), ms, diffable_pass) == (
            with_default(container_metas(out, ms, diffable_pass).0),
            container_metas(out, ms, diffable_pass).1,
        ),
    decreases ms.len(),
{
    if ms.len() > 0 {
        lemma_metas_keep_default(out, ms.drop_last(), diffable_pass);
        let (o, go) = container_metas(out, ms.drop_last(), diffable_pass);
        lemma_steps_keep_default(o, ms.last());
    }
}

proof fn lemma_pass_keeps_default(out: ContainerAttrs, attrs: Seq<AttrInput>, ns: AttrNamespace, diffable_pass: bool)
    ensures
        container_pass(with_default(out), attrs, ns, diffable_pass) == with_default(
            container_pass(out, attrs, ns, diffable_pass),
        ),
    decreases attrs.len(),
{
    if attrs.len() > 0 {
        lemma_pass_keeps_default(out, attrs.drop_last(), ns, diffable_pass);
        let o = container_pass(out, attrs.drop_last(), ns, diffable_pass);
        lemma_metas_keep_default(o, attrs.last().metas@, diffable_pass);
    }
}

/// One meta `default` without a value sets that option and nothing else
/// where container options are read, is passed over where diffable
/// options are read, and reading goes on either way.
pub proof fn lemma_default_meta(out: ContainerAttrs, m: MetaInput)
    requires
        m.path@ == "default"@,
        m.value is Absent,
    ensures
        container_metas(out, seq![m], false) == (with_default(out), true),
        container_metas(out, seq![m], true) == (out, true),
{
    assert(seq![m].drop_last() =~= Seq::<MetaInput>::empty());
    assert(seq![m].last() == m);
    reveal_strlit("default");
    reveal_strlit("atomic");
    reveal_strlit("visit_transparent");
    reveal_strlit("rename_all");
    reveal_strlit("rename_all_fields");
    reveal_strlit("tag");
    reveal_strlit("content");
    reveal_strlit("untagged");
    reveal_strlit("transparent");
    assert(m.path@.len() == 7);
    assert(m.path@ != "atomic"@);
    assert(m.path@ != "visit_transparent"@);
    assert(m.path@ != "rename_all"@);
    assert(m.path@ != "rename_all_fields"@);
    assert(m.path@ != "tag"@);
    assert(m.path@ != "content"@) by {
        assert("content"@[0] != m.path@[0]);
    }
    assert(m.path@ != "untagged"@);
    assert(m.path@ != "transparent"@);
    assert(container_metas(out, Seq::<MetaInput>::empty(), false) == (out, true));
    assert(container_metas(out, Seq::<MetaInput>::empty(), true) == (out, true));
}

/// A `#[serde(default)]` or `#[typewire(default)]` attribute added after
/// an item's attributes makes the item fill missing fields from its `Default` and changes nothing else:
/// every other container option reads as it did without it.
pub proof fn lemma_default_attr(pre: Seq<AttrInput>, ns: AttrNamespace, metas: Vec<MetaInput>)
    requires
        ns == AttrNamespace::Serde || ns == AttrNamespace::Typewire,
        metas@.len() == 1,
        metas@[0].path@ == "default"@,
        metas@[0].value is Absent,
    ensures
        spec_container_attrs(pre.push(AttrInput { namespace: ns, metas })) == with_default(
            spec_container_attrs(pre),
        ),
{
    let x = AttrInput { namespace: ns, metas };
    let a = pre.push(x);
    assert(a.drop_last() =~= pre);
    assert(a.last() == x);
    assert(metas@ =~= seq![metas@[0]]);
    lemma_default_meta(container_pass(default_container_attrs(), pre, AttrNamespace::Diffable, true), metas@[0]);
    let d1 = container_pass(default_container_attrs(), pre, AttrNamespace::Diffable, true);
    assert(container_pass(default_container_attrs(), a, AttrNamespace::Diffable, true) == d1);
    lemma_default_meta(container_pass(d1, pre, AttrNamespace::Typewire, true), metas@[0]);
    let d = container_pass(d1, pre, AttrNamespace::Typewire, true);
    assert(container_pass(d1, a, AttrNamespace::Typewire, true) == d);
    let p = container_pass(d, pre, AttrNamespace::Serde, false);
    if ns == AttrNamespace::Serde {
        lemma_default_meta(p, metas@[0]);
        assert(container_pass(d, a, AttrNamespace::Serde, false) == with_default(p));
        lemma_pass_keeps_default(p, pre, AttrNamespace::Typewire, false);
        assert(container_pass(with_default(p), a, AttrNamespace::Typewire, false) == container_pass(
            with_default(p),
            pre,
            AttrNamespace::Typewire,
            false,
        ));
    } else {
        assert(container_pass(d, a, AttrNamespace::Serde, false) == p);
        let t = container_pass(p, pre, AttrNamespace::Typewire, false);
        lemma_default_meta(t, metas@[0]);
    }
}

/// Container attributes with `deny_unknown_fields` set, all else as it was.
pub open spec fn with_deny_unknown_fields(a: ContainerAttrs) -> ContainerAttrs {
    ContainerAttrs { deny_unknown_fields: true, ..a }
}

proof fn lemma_steps_keep_deny_unknown_fields(out: ContainerAttrs, m: MetaInput)
    ensures
        container_serde_step(with_deny_unknown_fields(out), m) == (
            with_deny_unknown_fields(container_serde_step(out, m).0),
            container_serde_step(out, m).1,
        ),
        container_diffable_step(with_deny_unknown_fields(out), m) == (
            with_deny_unknown_fields(container_diffable_step(out, m).0),
            container_diffable_step(out, m).1,
        ),
{
}

#[verifier::rlimit(40)]
proof fn lemma_metas_keep_deny_unknown_fields(out: ContainerAttrs, ms: Seq<MetaInput>, diffable_pass: bool)
    ensures
        container_metas(with_deny_unknown_fields(out), ms, diffable_pass) == (
            with_deny_unknown_fields(container_metas(out, ms, diffable_pass).0),
            container_metas(out, ms, diffable_pass).1,
        ),
    decreases ms.len(),
{
    if ms.len() > 0 {
        lemma_metas_keep_deny_unknown_fields(out, ms.drop_last(), diffable_pass);
        let (o, go) = container_metas(out, ms.drop_last(), diffable_pass);
        lemma_steps_keep_deny_unknown_fields(o, ms.last());
    }
}

proof fn lemma_pass_keeps_deny_unknown_fields(out: ContainerAttrs, attrs: Seq<AttrInput>, ns: AttrNamespace, diffable_pass: bool)
    ensures
        container_pass(with_deny_unknown_fields(out), attrs, ns, diffable_pass) == with_deny_unknown_fields(
            container_pass(out, attrs, ns, diffable_pass),
        ),
    decreases attrs.len(),
{
    if attrs.len() > 0 {
        lemma_pass_keeps_deny_unknown_fields(out, attrs.drop_last(), ns, diffable_pass);
        let o = container_pass(out, attrs.drop_last(), ns, diffable_pass);
        lemma_metas_keep_deny_unknown_fields(o, attrs.last().metas@, diffable_pass);
    }
}

/// One meta `deny_unknown_fields` without a value sets that option and nothing else
/// where container options are read, is passed over where diffable
/// options are read, and reading goes on either way.
pub proof fn lemma_deny_unknown_fields_meta(out: ContainerAttrs, m: MetaInput)
    requires
        m.path@ == "deny_unknown_fields"@,
        m.value is Absent,
    ensures
        container_metas(out, seq![m], false) == (with_deny_unknown_fields(out), true),
        container_metas(out, seq![m], true) == (out, true),
{
    assert(seq![m].drop_last() =~= Seq::<MetaInput>::empty());
    assert(seq![m].last() == m);
    reveal_strlit("deny_unknown_fields");
    reveal_strlit("atomic");
    reveal_strlit("visit_transparent");
    reveal_strlit("rename_all");
    reveal_strlit("rename_all_fields");
    reveal_strlit("tag");
    reveal_strlit("content");
    reveal_strlit("untagged");
    reveal_strlit("transparent");
    reveal_strlit("default");
    assert(m.path@.len() == 19);
    assert(m.path@ != "atomic"@);
    assert(m.path@ != "visit_transparent"@);
    assert(m.path@ != "rename_all"@);
    assert(m.path@ != "rename_all_fields"@);
    assert(m.path@ != "tag"@);
    assert(m.path@ != "content"@);
    assert(m.path@ != "untagged"@);
    assert(m.path@ != "transparent"@);
    assert(m.path@ != "default"@);
    assert(container_metas(out, Seq::<MetaInput>::empty(), false) == (out, true));
    assert(container_metas(out, Seq::<MetaInput>::empty(), true) == (out, true));
}

/// A `#[serde(deny_unknown_fields)]` or `#[typewire(deny_unknown_fields)]` attribute added after
/// an item's attributes makes the item refuse unknown fields and changes nothing else:
/// every other container option reads as it did without it.
pub proof fn lemma_deny_unknown_fields_attr(pre: Seq<AttrInput>, ns: AttrNamespace, metas: Vec<MetaInput>)
    requires
        ns == AttrNamespace::Serde || ns == AttrNamespace::Typewire,
        metas@.len() == 1,
        metas@[0].path@ == "deny_unknown_fields"@,
        metas@[0].value is Absent,
    ensures
        spec_container_attrs(pre.push(AttrInput { namespace: ns, metas })) == with_deny_unknown_fields(
            spec_container_attrs(pre),
        ),
{
    let x = AttrInput { namespace: ns, metas };
    let a = pre.push(x);
    assert(a.drop_last() =~= pre);
    assert(a.last() == x);
    assert(metas@ =~= seq![metas@[0]]);
    lemma_deny_unknown_fields_meta(container_pass(default_container_attrs(), pre, AttrNamespace::Diffable, true), metas@[0]);
    let d1 = container_pass(default_container_attrs(), pre, AttrNamespace::Diffable, true);
    assert(container_pass(default_container_attrs(), a, AttrNamespace::Diffable, true) == d1);
    lemma_deny_unknown_fields_meta(container_pass(d1, pre, AttrNamespace::Typewire, true), metas@[0]);
    let d = container_pass(d1, pre, AttrNamespace::Typewire, true);
    assert(container_pass(d1, a, AttrNamespace::Typewire, true) == d);
    let p = container_pass(d, pre, AttrNamespace::Serde, false);
    if ns == AttrNamespace::Serde {
        lemma_deny_unknown_fields_meta(p, metas@[0]);
        assert(container_pass(d, a, AttrNamespace::Serde, false) == with_deny_unknown_fields(p));
        lemma_pass_keeps_deny_unknown_fields(p, pre, AttrNamespace::Typewire, false);
        assert(container_pass(with_deny_unknown_fields(p), a, AttrNamespace::Typewire, false) == container_pass(
            with_deny_unknown_fields(p),
            pre,
            AttrNamespace::Typewire,
            false,
        ));
    } else {
        assert(container_pass(d, a, AttrNamespace::Serde, false) == p);
        let t = container_pass(p, pre, AttrNamespace::Typewire, false);
        lemma_deny_unknown_fields_meta(t, metas@[0]);
    }
}

/// A variant's attributes with `skip` set, all else as it was.
pub open spec fn with_variant_skip(a: VariantAttrsView) -> VariantAttrsView {
    VariantAttrsView { skip: SkipOpts { all: true, ..a.skip }, ..a }
}

/// Reading a meta reads the same whether or not `skip` was
/// already set.
proof fn lemma_step_keeps_variant_skip(out: VariantAttrsView, m: MetaInput)
    ensures
        variant_step(with_variant_skip(out), m) == (
            with_variant_skip(variant_step(out, m).0),
            variant_step(out, m).1,
        ),
{
}

proof fn lemma_metas_keep_variant_skip(out: VariantAttrsView, ms: Seq<MetaInput>)
    ensures
        variant_metas(with_variant_skip(out), ms) == (
            with_variant_skip(variant_metas(out, ms).0),
            variant_metas(out, ms).1,
        ),
    decreases ms.len(),
{
    if ms.len() > 0 {
        lemma_metas_keep_variant_skip(out, ms.drop_last());
        let (o, go) = variant_metas(out, ms.drop_last());
        lemma_step_keeps_variant_skip(o, ms.last());
    }
}

proof fn lemma_pass_keeps_variant_skip(out: VariantAttrsView, attrs: Seq<AttrInput>, ns: AttrNamespace)
    ensures
        variant_pass(with_variant_skip(out), attrs, ns) == with_variant_skip(variant_pass(out, attrs, ns)),
    decreases attrs.len(),
{
    if attrs.len() > 0 {
        lemma_pass_keeps_variant_skip(out, attrs.drop_last(), ns);
        let o = variant_pass(out, attrs.drop_last(), ns);
        lemma_metas_keep_variant_skip(o, attrs.last().metas@);
    }
}

/// One meta `skip` without a value, read in any state, sets that option
/// and nothing else, and reading goes on.
pub proof fn lemma_variant_skip_meta(out: VariantAttrsView, m: MetaInput)
    requires
        m.path@ == "skip"@,
        m.value is Absent,
    ensures
        variant_metas(out, seq![m]) == (with_variant_skip(out), true),
{
    assert(seq![m].drop_last() =~= Seq::<MetaInput>::empty());
    assert(seq![m].last() == m);
    reveal_strlit("rename");
    reveal_strlit("alias");
    reveal_strlit("rename_all");
    reveal_strlit("skip");
    assert(m.path@.len() == 4);
    assert(m.path@ != "rename"@);
    assert(m.path@ != "alias"@);
    assert(m.path@ != "rename_all"@);
    assert(variant_metas(out, Seq::<MetaInput>::empty()) == (out, true));
    assert(variant_step(out, m) == (with_variant_skip(out), true));
}

/// A `#[serde(skip)]` or `#[typewire(skip)]` attribute added after a
/// variant's attributes makes the variant skipped both ways and changes
/// nothing else: every other option reads as it did without it.
pub proof fn lemma_variant_skip_attr(pre: Seq<AttrInput>, ns: AttrNamespace, metas: Vec<MetaInput>)
    requires
        ns == AttrNamespace::Serde || ns == AttrNamespace::Typewire,
        metas@.len() == 1,
        metas@[0].path@ == "skip"@,
        metas@[0].value is Absent,
    ensures
        spec_variant_attrs(pre.push(AttrInput { namespace: ns, metas })) == with_variant_skip(
            spec_variant_attrs(pre),
        ),
{
    let x = AttrInput { namespace: ns, metas };
    let a = pre.push(x);
    assert(a.drop_last() =~= pre);
    assert(a.last() == x);
    assert(metas@ =~= seq![metas@[0]]);
    let start = VariantAttrsView {
        rename: None,
        aliases: Seq::empty(),
        rename_all: None,
        skip: SkipOpts { all: false, serializing: false, deserializing: false },
        other: false,
        untagged: false,
    };
    let p = variant_pass(start, pre, AttrNamespace::Serde);
    if ns == AttrNamespace::Serde {
        lemma_variant_skip_meta(p, metas@[0]);
        assert(variant_pass(start, a, AttrNamespace::Serde) == with_variant_skip(p));
        lemma_pass_keeps_variant_skip(p, pre, AttrNamespace::Typewire);
        assert(variant_pass(with_variant_skip(p), a, AttrNamespace::Typewire) == variant_pass(
            with_variant_skip(p),
            pre,
            AttrNamespace::Typewire,
        ));
    } else {
        assert(variant_pass(start, a, AttrNamespace::Serde) == p);
        let t = variant_pass(p, pre, AttrNamespace::Typewire);
        lemma_variant_skip_meta(t, metas@[0]);
    }
}

/// A variant's attributes with `skip_serializing` set, all else as it was.
pub open spec fn with_variant_skip_serializing(a: VariantAttrsView) -> VariantAttrsView {
    VariantAttrsView { skip: SkipOpts { serializing: true, ..a.skip }, ..a }
}

/// Reading a meta reads the same whether or not `skip_serializing` was
/// already set.
proof fn lemma_step_keeps_variant_skip_serializing(out: VariantAttrsView, m: MetaInput)
    ensures
        variant_step(with_variant_skip_serializing(out), m) == (
            with_variant_skip_serializing(variant_step(out, m).0),
            variant_step(out, m).1,
        ),
{
}

proof fn lemma_metas_keep_variant_skip_serializing(out: VariantAttrsView, ms: Seq<MetaInput>)
    ensures
        variant_metas(with_variant_skip_serializing(out), ms) == (
            with_variant_skip_serializing(variant_metas(out, ms).0),
            variant_metas(out, ms).1,
        ),
    decreases ms.len(),
{
    if ms.len() > 0 {
        lemma_metas_keep_variant_skip_serializing(out, ms.drop_last());
        let (o, go) = variant_metas(out, ms.drop_last());
        lemma_step_keeps_variant_skip_serializing(o, ms.last());
    }
}

proof fn lemma_pass_keeps_variant_skip_serializing(out: VariantAttrsView, attrs: Seq<AttrInput>, ns: AttrNamespace)
    ensures
        variant_pass(with_variant_skip_serializing(out), attrs, ns) == with_variant_skip_serializing(variant_pass(out, attrs, ns)),
    decreases attrs.len(),
{
    if attrs.len() > 0 {
        lemma_pass_keeps_variant_skip_serializing(out, attrs.drop_last(), ns);
        let o = variant_pass(out, attrs.drop_last(), ns);
        lemma_metas_keep_variant_skip_serializing(o, attrs.last().metas@);
    }
}

/// One meta `skip_serializing` without a value, read in any state, sets that option
/// and nothing else, and reading goes on.
pub proof fn lemma_variant_skip_serializing_meta(out: VariantAttrsView, m: MetaInput)
    requires
        m.path@ == "skip_serializing"@,
        m.value is Absent,
    ensures
        variant_metas(out, seq![m]) == (with_variant_skip_serializing(out), true),
{
    assert(seq![m].drop_last() =~= Seq::<MetaInput>::empty());
    assert(seq![m].last() == m);
    reveal_strlit("rename");
    reveal_strlit("alias");
    reveal_strlit("rename_all");
    reveal_strlit("skip");
    reveal_strlit("skip_serializing");
    assert(m.path@.len() == 16);
    assert(m.path@ != "rename"@);
    assert(m.path@ != "alias"@);
    assert(m.path@ != "rename_all"@);
    assert(m.path@ != "skip"@);
    assert(variant_metas(out, Seq::<MetaInput>::empty()) == (out, true));
    assert(variant_step(out, m) == (with_variant_skip_serializing(out), true));
}

/// A `#[serde(skip_serializing)]` or `#[typewire(skip_serializing)]` attribute added after a
/// variant's attributes makes the variant skipped in serialization and changes
/// nothing else: every other option reads as it did without it.
pub proof fn lemma_variant_skip_serializing_attr(pre: Seq<AttrInput>, ns: AttrNamespace, metas: Vec<MetaInput>)
    requires
        ns == AttrNamespace::Serde || ns == AttrNamespace::Typewire,
        metas@.len() == 1,
        metas@[0].path@ == "skip_serializing"@,
        metas@[0].value is Absent,
    ensures
        spec_variant_attrs(pre.push(AttrInput { namespace: ns, metas })) == with_variant_skip_serializing(
            spec_variant_attrs(pre),
        ),
{
    let x = AttrInput { namespace: ns, metas };
    let a = pre.push(x);
    assert(a.drop_last() =~= pre);
    assert(a.last() == x);
    assert(metas@ =~= seq![metas@[0]]);
    let start = VariantAttrsView {
        rename: None,
        aliases: Seq::empty(),
        rename_all: None,
        skip: SkipOpts { all: false, serializing: false, deserializing: false },
        other: false,
        untagged: false,
    };
    let p = variant_pass(start, pre, AttrNamespace::Serde);
    if ns == AttrNamespace::Serde {
        lemma_variant_skip_serializing_meta(p, metas@[0]);
        assert(variant_pass(start, a, AttrNamespace::Serde) == with_variant_skip_serializing(p));
        lemma_pass_keeps_variant_skip_serializing(p, pre, AttrNamespace::Typewire);
        assert(variant_pass(with_variant_skip_serializing(p), a, AttrNamespace::Typewire) == variant_pass(
            with_variant_skip_serializing(p),
            pre,
            AttrNamespace::Typewire,
        ));
    } else {
        assert(variant_pass(start, a, AttrNamespace::Serde) == p);
        let t = variant_pass(p, pre, AttrNamespace::Typewire);
        lemma_variant_skip_serializing_meta(t, metas@[0]);
    }
}

/// A variant's attributes with `skip_deserializing` set, all else as it was.
pub open spec fn with_variant_skip_deserializing(a: VariantAttrsView) -> VariantAttrsView {
    VariantAttrsView { skip: SkipOpts { deserializing: true, ..a.skip }, ..a }
}

/// Reading a meta reads the same whether or not `skip_deserializing` was
/// already set.
proof fn lemma_step_keeps_variant_skip_deserializing(out: VariantAttrsView, m: MetaInput)
    ensures
        variant_step(with_variant_skip_deserializing(out), m) == (
            with_variant_skip_deserializing(variant_step(out, m).0),
            variant_step(out, m).1,
        ),
{
}

proof fn lemma_metas_keep_variant_skip_deserializing(out: VariantAttrsView, ms: Seq<MetaInput>)
    ensures
        variant_metas(with_variant_skip_deserializing(out), ms) == (
            with_variant_skip_deserializing(variant_metas(out, ms).0),
            variant_metas(out, ms).1,
        ),
    decreases ms.len(),
{
    if ms.len() > 0 {
        lemma_metas_keep_variant_skip_deserializing(out, ms.drop_last());
        let (o, go) = variant_metas(out, ms.drop_last());
        lemma_step_keeps_variant_skip_deserializing(o, ms.last());
    }
}

proof fn lemma_pass_keeps_variant_skip_deserializing(out: VariantAttrsView, attrs: Seq<AttrInput>, ns: AttrNamespace)
    ensures
        variant_pass(with_variant_skip_deserializing(out), attrs, ns) == with_variant_skip_deserializing(variant_pass(out, attrs, ns)),
    decreases attrs.len(),
{
    if attrs.len() > 0 {
        lemma_pass_keeps_variant_skip_deserializing(out, attrs.drop_last(), ns);
        let o = variant_pass(out, attrs.drop_last(), ns);
        lemma_metas_keep_variant_skip_deserializing(o, attrs.last().metas@);
    }
}

/// One meta `skip_deserializing` without a value, read in any state, sets that option
/// and nothing else, and reading goes on.
pub proof fn lemma_variant_skip_deserializing_meta(out: VariantAttrsView, m: MetaInput)
    requires
        m.path@ == "skip_deserializing"@,
        m.value is Absent,
    ensures
        variant_metas(out, seq![m]) == (with_variant_skip_deserializing(out), true),
{
    assert(seq![m].drop_last() =~= Seq::<MetaInput>::empty());
    assert(seq![m].last() == m);
    reveal_strlit("rename");
    reveal_strlit("alias");
    reveal_strlit("rename_all");
    reveal_strlit("skip");
    reveal_strlit("skip_serializing");
    reveal_strlit("skip_deserializing");
    assert(m.path@.len() == 18);
    assert(m.path@ != "rename"@);
    assert(m.path@ != "alias"@);
    assert(m.path@ != "rename_all"@);
    assert(m.path@ != "skip"@);
    assert(m.path@ != "skip_serializing"@);
    assert(variant_metas(out, Seq::<MetaInput>::empty()) == (out, true));
    assert(variant_step(out, m) == (with_variant_skip_deserializing(out), true));
}

/// A `#[serde(skip_deserializing)]` or `#[typewire(skip_deserializing)]` attribute added after a
/// variant's attributes makes the variant skipped in deserialization and changes
/// nothing else: every other option reads as it did without it.
pub proof fn lemma_variant_skip_deserializing_attr(pre: Seq<AttrInput>, ns: AttrNamespace, metas: Vec<MetaInput>)
    requires
        ns == AttrNamespace::Serde || ns == AttrNamespace::Typewire,
        metas@.len() == 1,
        metas@[0].path@ == "skip_deserializing"@,
        metas@[0].value is Absent,
    ensures
        spec_variant_attrs(pre.push(AttrInput { namespace: ns, metas })) == with_variant_skip_deserializing(
            spec_variant_attrs(pre),
        ),
{
    let x = AttrInput { namespace: ns, metas };
    let a = pre.push(x);
    assert(a.drop_last() =~= pre);
    assert(a.last() == x);
    assert(metas@ =~= seq![metas@[0]]);
    let start = VariantAttrsView {
        rename: None,
        aliases: Seq::empty(),
        rename_all: None,
        skip: SkipOpts { all: false, serializing: false, deserializing: false },
        other: false,
        untagged: false,
    };
    let p = variant_pass(start, pre, AttrNamespace::Serde);
    if ns == AttrNamespace::Serde {
        lemma_variant_skip_deserializing_meta(p, metas@[0]);
        assert(variant_pass(start, a, AttrNamespace::Serde) == with_variant_skip_deserializing(p));
        lemma_pass_keeps_variant_skip_deserializing(p, pre, AttrNamespace::Typewire);
        assert(variant_pass(with_variant_skip_deserializing(p), a, AttrNamespace::Typewire) == variant_pass(
            with_variant_skip_deserializing(p),
            pre,
            AttrNamespace::Typewire,
        ));
    } else {
        assert(variant_pass(start, a, AttrNamespace::Serde) == p);
        let t = variant_pass(p, pre, AttrNamespace::Typewire);
        lemma_variant_skip_deserializing_meta(t, metas@[0]);
    }
}

/// A variant's attributes with `other` set, all else as it was.
pub open spec fn with_variant_other(a: VariantAttrsView) -> VariantAttrsView {
    VariantAttrsView { other: true, ..a }
}

/// Reading a meta reads the same whether or not `other` was
/// already set.
proof fn lemma_step_keeps_variant_other(out: VariantAttrsView, m: MetaInput)
    ensures
        variant_step(with_variant_other(out), m) == (
            with_variant_other(variant_step(out, m).0),
            variant_step(out, m).1,
        ),
{
}

proof fn lemma_metas_keep_variant_other(out: VariantAttrsView, ms: Seq<MetaInput>)
    ensures
        variant_metas(with_variant_other(out), ms) == (
            with_variant_other(variant_metas(out, ms).0),
            variant_metas(out, ms).1,
        ),
    decreases ms.len(),
{
    if ms.len() > 0 {
        lemma_metas_keep_variant_other(out, ms.drop_last());
        let (o, go) = variant_metas(out, ms.drop_last());
        lemma_step_keeps_variant_other(o, ms.last());
    }
}

proof fn lemma_pass_keeps_variant_other(out: VariantAttrsView, attrs: Seq<AttrInput>, ns: AttrNamespace)
    ensures
        variant_pass(with_variant_other(out), attrs, ns) == with_variant_other(variant_pass(out, attrs, ns)),
    decreases attrs.len(),
{
    if attrs.len() > 0 {
        lemma_pass_keeps_variant_other(out, attrs.drop_last(), ns);
        let o = variant_pass(out, attrs.drop_last(), ns);
        lemma_metas_keep_variant_other(o, attrs.last().metas@);
    }
}

/// One meta `other` without a value, read in any state, sets that option
/// and nothing else, and reading goes on.
pub proof fn lemma_variant_other_meta(out: VariantAttrsView, m: MetaInput)
    requires
        m.path@ == "other"@,
        m.value is Absent,
    ensures
        variant_metas(out, seq![m]) == (with_variant_other(out), true),
{
    assert(seq![m].drop_last() =~= Seq::<MetaInput>::empty());
    assert(seq![m].last() == m);
    reveal_strlit("rename");
    reveal_strlit("alias");
    reveal_strlit("rename_all");
    reveal_strlit("skip");
    reveal_strlit("skip_serializing");
    reveal_strlit("skip_deserializing");
    reveal_strlit("other");
    assert(m.path@.len() == 5);
    assert(m.path@ != "rename"@);
    assert(m.path@ != "alias"@) by {
        assert("alias"@[0] != m.path@[0]);
    }
    assert(m.path@ != "rename_all"@);
    assert(m.path@ != "skip"@);
    assert(m.path@ != "skip_serializing"@);
    assert(m.path@ != "skip_deserializing"@);
    assert(variant_metas(out, Seq::<MetaInput>::empty()) == (out, true));
    assert(variant_step(out, m) == (with_variant_other(out), true));
}

/// A `#[serde(other)]` or `#[typewire(other)]` attribute added after a
/// variant's attributes makes the variant the catch-all for unknown tags and changes
/// nothing else: every other option reads as it did without it.
pub proof fn lemma_variant_other_attr(pre: Seq<AttrInput>, ns: AttrNamespace, metas: Vec<MetaInput>)
    requires
        ns == AttrNamespace::Serde || ns == AttrNamespace::Typewire,
        metas@.len() == 1,
        metas@[0].path@ == "other"@,
        metas@[0].value is Absent,
    ensures
        spec_variant_attrs(pre.push(AttrInput { namespace: ns, metas })) == with_variant_other(
            spec_variant_attrs(pre),
        ),
{
    let x = AttrInput { namespace: ns, metas };
    let a = pre.push(x);
    assert(a.drop_last() =~= pre);
    assert(a.last() == x);
    assert(metas@ =~= seq![metas@[0]]);
    let start = VariantAttrsView {
        rename: None,
        aliases: Seq::empty(),
        rename_all: None,
        skip: SkipOpts { all: false, serializing: false, deserializing: false },
        other: false,
        untagged: false,
    };
    let p = variant_pass(start, pre, AttrNamespace::Serde);
    if ns == AttrNamespace::Serde {
        lemma_variant_other_meta(p, metas@[0]);
        assert(variant_pass(start, a, AttrNamespace::Serde) == with_variant_other(p));
        lemma_pass_keeps_variant_other(p, pre, AttrNamespace::Typewire);
        assert(variant_pass(with_variant_other(p), a, AttrNamespace::Typewire) == variant_pass(
            with_variant_other(p),
            pre,
            AttrNamespace::Typewire,
        ));
    } else {
        assert(variant_pass(start, a, AttrNamespace::Serde) == p);
        let t = variant_pass(p, pre, AttrNamespace::Typewire);
        lemma_variant_other_meta(t, metas@[0]);
    }
}

/// A variant's attributes with `untagged` set, all else as it was.
pub open spec fn with_variant_untagged(a: VariantAttrsView) -> VariantAttrsView {
    VariantAttrsView { untagged: true, ..a }
}

/// Reading a meta reads the same whether or not `untagged` was
/// already set.
proof fn lemma_step_keeps_variant_untagged(out: VariantAttrsView, m: MetaInput)
    ensures
        variant_step(with_variant_untagged(out), m) == (
            with_variant_untagged(variant_step(out, m).0),
            variant_step(out, m).1,
        ),
{
}

proof fn lemma_metas_keep_variant_untagged(out: VariantAttrsView, ms: Seq<MetaInput>)
    ensures
        variant_metas(with_variant_untagged(out), ms) == (
            with_variant_untagged(variant_metas(out, ms).0),
            variant_metas(out, ms).1,
        ),
    decreases ms.len(),
{
    if ms.len() > 0 {
        lemma_metas_keep_variant_untagged(out, ms.drop_last());
        let (o, go) = variant_metas(out, ms.drop_last());
        lemma_step_keeps_variant_untagged(o, ms.last());
    }
}

proof fn lemma_pass_keeps_variant_untagged(out: VariantAttrsView, attrs: Seq<AttrInput>, ns: AttrNamespace)
    ensures
        variant_pass(with_variant_untagged(out), attrs, ns) == with_variant_untagged(variant_pass(out, attrs, ns)),
    decreases attrs.len(),
{
    if attrs.len() > 0 {
        lemma_pass_keeps_variant_untagged(out, attrs.drop_last(), ns);
        let o = variant_pass(out, attrs.drop_last(), ns);
        lemma_metas_keep_variant_untagged(o, attrs.last().metas@);
    }
}

/// One meta `untagged` without a value, read in any state, sets that option
/// and nothing else, and reading goes on.
pub proof fn lemma_variant_untagged_meta(out: VariantAttrsView, m: MetaInput)
    requires
        m.path@ == "untagged"@,
        m.value is Absent,
    ensures
        variant_metas(out, seq![m]) == (with_variant_untagged(out), true),
{
    assert(seq![m].drop_last() =~= Seq::<MetaInput>::empty());
    assert(seq![m].last() == m);
    reveal_strlit("rename");
    reveal_strlit("alias");
    reveal_strlit("rename_all");
    reveal_strlit("skip");
    reveal_strlit("skip_serializing");
    reveal_strlit("skip_deserializing");
    reveal_strlit("other");
    reveal_strlit("untagged");
    assert(m.path@.len() == 8);
    assert(m.path@ != "rename"@);
    assert(m.path@ != "alias"@);
    assert(m.path@ != "rename_all"@);
    assert(m.path@ != "skip"@);
    assert(m.path@ != "skip_serializing"@);
    assert(m.path@ != "skip_deserializing"@);
    assert(m.path@ != "other"@);
    assert(variant_metas(out, Seq::<MetaInput>::empty()) == (out, true));
    assert(variant_step(out, m) == (with_variant_untagged(out), true));
}

/// A `#[serde(untagged)]` or `#[typewire(untagged)]` attribute added after a
/// variant's attributes makes the variant untagged and changes
/// nothing else: every other option reads as it did without it.
pub proof fn lemma_variant_untagged_attr(pre: Seq<AttrInput>, ns: AttrNamespace, metas: Vec<MetaInput>)
    requires
        ns == AttrNamespace::Serde || ns == AttrNamespace::Typewire,
        metas@.len() == 1,
        metas@[0].path@ == "untagged"@,
        metas@[0].value is Absent,
    ensures
        spec_variant_attrs(pre.push(AttrInput { namespace: ns, metas })) == with_variant_untagged(
            spec_variant_attrs(pre),
        ),
{
    let x = AttrInput { namespace: ns, metas };
    let a = pre.push(x);
    assert(a.drop_last() =~= pre);
    assert(a.last() == x);
    assert(metas@ =~= seq![metas@[0]]);
    let start = VariantAttrsView {
        rename: None,
        aliases: Seq::empty(),
        rename_all: None,
        skip: SkipOpts { all: false, serializing: false, deserializing: false },
        other: false,
        untagged: false,
    };
    let p = variant_pass(start, pre, AttrNamespace::Serde);
    if ns == AttrNamespace::Serde {
        lemma_variant_untagged_meta(p, metas@[0]);
        assert(variant_pass(start, a, AttrNamespace::Serde) == with_variant_untagged(p));
        lemma_pass_keeps_variant_untagged(p, pre, AttrNamespace::Typewire);
        assert(variant_pass(with_variant_untagged(p), a, AttrNamespace::Typewire) == variant_pass(
            with_variant_untagged(p),
            pre,
            AttrNamespace::Typewire,
        ));
    } else {
        assert(variant_pass(start, a, AttrNamespace::Serde) == p);
        let t = variant_pass(p, pre, AttrNamespace::Typewire);
        lemma_variant_untagged_meta(t, metas@[0]);
    }
}

} // verus!
