use vstd::prelude::*;

verus! {

/// Name of the link section that holds the schema records.
pub const SECTION_NAME: &'static str = "typewire_schemas";

/// Leading tag byte of a record or of a tag-prefixed type identity.
#[derive(Clone, Copy, Debug, Hash, PartialEq, Eq)]
pub enum Tag {
    Native,
    Primitive,
    Option,
    Box,
    Sequence,
    Mapping,
    Struct,
    Transparent,
    Enum,
    IntoProxy,
    FromProxy,
    Skipped,
}

pub open spec fn tag_code(t: Tag) -> u8 {
    match t {
        Tag::Native => 0,
        Tag::Primitive => 1,
        Tag::Option => 2,
        Tag::Box => 3,
        Tag::Sequence => 4,
        Tag::Mapping => 5,
        Tag::Struct => 6,
        Tag::Transparent => 7,
        Tag::Enum => 8,
        Tag::IntoProxy => 9,
        Tag::FromProxy => 10,
        Tag::Skipped => 11,
    }
}

pub open spec fn tag_of_code(v: u8) -> Option<Tag> {
    if v == 0 {
        Some(Tag::Native)
    } else if v == 1 {
        Some(Tag::Primitive)
    } else if v == 2 {
        Some(Tag::Option)
    } else if v == 3 {
        Some(Tag::Box)
    } else if v == 4 {
        Some(Tag::Sequence)
    } else if v == 5 {
        Some(Tag::Mapping)
    } else if v == 6 {
        Some(Tag::Struct)
    } else if v == 7 {
        Some(Tag::Transparent)
    } else if v == 8 {
        Some(Tag::Enum)
    } else if v == 9 {
        Some(Tag::IntoProxy)
    } else if v == 10 {
        Some(Tag::FromProxy)
    } else if v == 11 {
        Some(Tag::Skipped)
    } else {
        None
    }
}

impl Tag {
    /// The tag with discriminant `v`, if any.
    pub fn from_u8(v: u8) -> (r: Option<Tag>)
        ensures
            r == tag_of_code(v),
    {
        match v {
            0 => Some(Tag::Native),
            1 => Some(Tag::Primitive),
            2 => Some(Tag::Option),
            3 => Some(Tag::Box),
            4 => Some(Tag::Sequence),
            5 => Some(Tag::Mapping),
            6 => Some(Tag::Struct),
            7 => Some(Tag::Transparent),
            8 => Some(Tag::Enum),
            9 => Some(Tag::IntoProxy),
            10 => Some(Tag::FromProxy),
            11 => Some(Tag::Skipped),
            _ => None,
        }
    }

    /// The discriminant of this tag.
    pub fn as_u8(self) -> (r: u8)
        ensures
            r == tag_code(self),
            tag_of_code(r) == Some(self),
    {
        match self {
            Tag::Native => 0,
            Tag::Primitive => 1,
            Tag::Option => 2,
            Tag::Box => 3,
            Tag::Sequence => 4,
            Tag::Mapping => 5,
            Tag::Struct => 6,
            Tag::Transparent => 7,
            Tag::Enum => 8,
            Tag::IntoProxy => 9,
            Tag::FromProxy => 10,
            Tag::Skipped => 11,
        }
    }
}

/// Enum tagging strategy on the wire.
#[derive(Clone, Copy, Debug, Hash, PartialEq, Eq)]
pub enum TaggingKind {
    External,
    Internal,
    Adjacent,
    Untagged,
}

pub open spec fn tagging_kind_code(t: TaggingKind) -> u8 {
    match t {
        TaggingKind::External => 0,
        TaggingKind::Internal => 1,
        TaggingKind::Adjacent => 2,
        TaggingKind::Untagged => 3,
    }
}

pub open spec fn tagging_kind_of_code(v: u8) -> Option<TaggingKind> {
    if v == 0 {
        Some(TaggingKind::External)
    } else if v == 1 {
        Some(TaggingKind::Internal)
    } else if v == 2 {
        Some(TaggingKind::Adjacent)
    } else if v == 3 {
        Some(TaggingKind::Untagged)
    } else {
        None
    }
}

impl TaggingKind {
    /// The tagging kind with discriminant `v`, if any.
    pub fn from_u8(v: u8) -> (r: Option<TaggingKind>)
        ensures
            r == tagging_kind_of_code(v),
    {
        match v {
            0 => Some(TaggingKind::External),
            1 => Some(TaggingKind::Internal),
            2 => Some(TaggingKind::Adjacent),
            3 => Some(TaggingKind::Untagged),
            _ => None,
        }
    }

    /// The discriminant of this kind.
    pub fn as_u8(self) -> (r: u8)
        ensures
            r == tagging_kind_code(self),
            tagging_kind_of_code(r) == Some(self),
    {
        match self {
            TaggingKind::External => 0,
            TaggingKind::Internal => 1,
            TaggingKind::Adjacent => 2,
            TaggingKind::Untagged => 3,
        }
    }
}

/// Body shape of a struct record.
#[derive(Clone, Copy, Debug, Hash, PartialEq, Eq)]
pub enum StructShapeTag {
    Named,
    Tuple,
    Unit,
}

pub open spec fn struct_shape_tag_code(t: StructShapeTag) -> u8 {
    match t {
        StructShapeTag::Named => 0,
        StructShapeTag::Tuple => 1,
        StructShapeTag::Unit => 2,
    }
}

pub open spec fn struct_shape_tag_of_code(v: u8) -> Option<StructShapeTag> {
    if v == 0 {
        Some(StructShapeTag::Named)
    } else if v == 1 {
        Some(StructShapeTag::Tuple)
    } else if v == 2 {
        Some(StructShapeTag::Unit)
    } else {
        None
    }
}

impl StructShapeTag {
    /// The shape tag with discriminant `v`, if any.
    pub fn from_u8(v: u8) -> (r: Option<StructShapeTag>)
        ensures
            r == struct_shape_tag_of_code(v),
    {
        match v {
            0 => Some(StructShapeTag::Named),
            1 => Some(StructShapeTag::Tuple),
            2 => Some(StructShapeTag::Unit),
            _ => None,
        }
    }

    /// The discriminant of this shape tag.
    pub fn as_u8(self) -> (r: u8)
        ensures
            r == struct_shape_tag_code(self),
            struct_shape_tag_of_code(r) == Some(self),
    {
        match self {
            StructShapeTag::Named => 0,
            StructShapeTag::Tuple => 1,
            StructShapeTag::Unit => 2,
        }
    }
}

/// Payload shape of a variant record.
#[derive(Clone, Copy, Debug, Hash, PartialEq, Eq)]
pub enum VariantKindTag {
    Unit,
    Named,
    Unnamed,
}

pub open spec fn variant_kind_tag_code(t: VariantKindTag) -> u8 {
    match t {
        VariantKindTag::Unit => 0,
        VariantKindTag::Named => 1,
        VariantKindTag::Unnamed => 2,
    }
}

pub open spec fn variant_kind_tag_of_code(v: u8) -> Option<VariantKindTag> {
    if v == 0 {
        Some(VariantKindTag::Unit)
    } else if v == 1 {
        Some(VariantKindTag::Named)
    } else if v == 2 {
        Some(VariantKindTag::Unnamed)
    } else {
        None
    }
}

impl VariantKindTag {
    /// The variant kind tag with discriminant `v`, if any.
    pub fn from_u8(v: u8) -> (r: Option<VariantKindTag>)
        ensures
            r == variant_kind_tag_of_code(v),
    {
        match v {
            0 => Some(VariantKindTag::Unit),
            1 => Some(VariantKindTag::Named),
            2 => Some(VariantKindTag::Unnamed),
            _ => None,
        }
    }

    /// The discriminant of this kind tag.
    pub fn as_u8(self) -> (r: u8)
        ensures
            r == variant_kind_tag_code(self),
            variant_kind_tag_of_code(r) == Some(self),
    {
        match self {
            VariantKindTag::Unit => 0,
            VariantKindTag::Named => 1,
            VariantKindTag::Unnamed => 2,
        }
    }
}

/// How a field default is given, on the wire.
#[derive(Clone, Copy, Debug, Hash, PartialEq, Eq)]
pub enum FieldDefaultKind {
    NoDefault,
    Default,
    Path,
}

pub open spec fn field_default_kind_code(t: FieldDefaultKind) -> u8 {
    match t {
        FieldDefaultKind::NoDefault => 0,
        FieldDefaultKind::Default => 1,
        FieldDefaultKind::Path => 2,
    }
}

pub open spec fn field_default_kind_of_code(v: u8) -> Option<FieldDefaultKind> {
    if v == 0 {
        Some(FieldDefaultKind::NoDefault)
    } else if v == 1 {
        Some(FieldDefaultKind::Default)
    } else if v == 2 {
        Some(FieldDefaultKind::Path)
    } else {
        None
    }
}

impl FieldDefaultKind {
    /// The default kind with discriminant `v`, if any.
    pub fn from_u8(v: u8) -> (r: Option<FieldDefaultKind>)
        ensures
            r == field_default_kind_of_code(v),
    {
        match v {
            0 => Some(FieldDefaultKind::NoDefault),
            1 => Some(FieldDefaultKind::Default),
            2 => Some(FieldDefaultKind::Path),
            _ => None,
        }
    }

    /// The discriminant of this default kind.
    pub fn as_u8(self) -> (r: u8)
        ensures
            r == field_default_kind_code(self),
            field_default_kind_of_code(r) == Some(self),
    {
        match self {
            FieldDefaultKind::NoDefault => 0,
            FieldDefaultKind::Default => 1,
            FieldDefaultKind::Path => 2,
        }
    }
}

} // verus!
