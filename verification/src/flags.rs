use vstd::prelude::*;

verus! {

/// Per-field attribute flags: a set of bits, named by the `u8` constants
/// of this type.
#[derive(Clone, Copy, Debug, Default, Hash, PartialEq, Eq)]
pub struct FieldFlags {
    pub bits: u8,
}

impl FieldFlags {
    /// `skip_serializing`: omitted from serialized output.
    pub const SKIP_SER: u8 = 1;
    /// `skip_deserializing`: ignored during deserialization.
    pub const SKIP_DE: u8 = 2;
    /// `flatten`: nested struct fields inlined into the parent.
    pub const FLATTEN: u8 = 4;
    /// `base64`: `Vec<u8>` fields are base64-encoded.
    pub const BASE64: u8 = 8;
    /// `display`: converted through `Display` / `FromStr`.
    pub const DISPLAY: u8 = 16;
    /// Byte-array encoding through `serde_bytes`.
    pub const SERDE_BYTES: u8 = 32;
    /// `lenient`: invalid elements are skipped instead of failing.
    pub const LENIENT: u8 = 64;

    /// The empty set.
    pub fn empty() -> (r: FieldFlags)
        ensures
            r.bits == 0,
    {
        FieldFlags { bits: 0 }
    }

    /// The flags with exactly the given bits, unknown bits kept.
    pub fn from_bits_retain(bits: u8) -> (r: FieldFlags)
        ensures
            r.bits == bits,
    {
        FieldFlags { bits }
    }

    /// The raw bits.
    pub fn bits(&self) -> (r: u8)
        ensures
            r == self.bits,
    {
        self.bits
    }

    /// Whether every bit of `mask` is set.
    pub fn contains(&self, mask: u8) -> (r: bool)
        ensures
            r == (self.bits & mask == mask),
    {
        self.bits & mask == mask
    }

    /// Whether some bit of `mask` is set.
    pub fn intersects(&self, mask: u8) -> (r: bool)
        ensures
            r == (self.bits & mask != 0),
    {
        self.bits & mask != 0
    }
}

/// Per-variant attribute flags: a set of bits, named by the `u8` constants
/// of this type.
#[derive(Clone, Copy, Debug, Default, Hash, PartialEq, Eq)]
pub struct VariantFlags {
    pub bits: u8,
}

impl VariantFlags {
    /// `skip_serializing`.
    pub const SKIP_SER: u8 = 1;
    /// `skip_deserializing`.
    pub const SKIP_DE: u8 = 2;
    /// `other`: catch-all for unknown variant names.
    pub const OTHER: u8 = 4;
    /// `untagged` within a tagged enum.
    pub const UNTAGGED: u8 = 8;

    /// The empty set.
    pub fn empty() -> (r: VariantFlags)
        ensures
            r.bits == 0,
    {
        VariantFlags { bits: 0 }
    }

    /// The flags with exactly the given bits, unknown bits kept.
    pub fn from_bits_retain(bits: u8) -> (r: VariantFlags)
        ensures
            r.bits == bits,
    {
        VariantFlags { bits }
    }

    /// The raw bits.
    pub fn bits(&self) -> (r: u8)
        ensures
            r == self.bits,
    {
        self.bits
    }

    /// Whether every bit of `mask` is set.
    pub fn contains(&self, mask: u8) -> (r: bool)
        ensures
            r == (self.bits & mask == mask),
    {
        self.bits & mask == mask
    }

    /// Whether some bit of `mask` is set.
    pub fn intersects(&self, mask: u8) -> (r: bool)
        ensures
            r == (self.bits & mask != 0),
    {
        self.bits & mask != 0
    }
}

/// Container-level flags of a struct: a set of bits, named by the `u8`
/// constants of this type.
#[derive(Clone, Copy, Debug, Default, Hash, PartialEq, Eq)]
pub struct StructFlags {
    pub bits: u8,
}

impl StructFlags {
    /// `atomic`: patched as a whole, not per field.
    pub const ATOMIC: u8 = 1;
    /// `default`: per-field defaults for missing fields.
    pub const CONTAINER_DEFAULT: u8 = 2;
    /// `deny_unknown_fields`: unrecognized keys are rejected.
    pub const DENY_UNKNOWN_FIELDS: u8 = 4;

    /// The empty set.
    pub fn empty() -> (r: StructFlags)
        ensures
            r.bits == 0,
    {
        StructFlags { bits: 0 }
    }

    /// The flags with exactly the given bits, unknown bits kept.
    pub fn from_bits_retain(bits: u8) -> (r: StructFlags)
        ensures
            r.bits == bits,
    {
        StructFlags { bits }
    }

    /// The raw bits.
    pub fn bits(&self) -> (r: u8)
        ensures
            r == self.bits,
    {
        self.bits
    }

    /// Whether every bit of `mask` is set.
    pub fn contains(&self, mask: u8) -> (r: bool)
        ensures
            r == (self.bits & mask == mask),
    {
        self.bits & mask == mask
    }

    /// Whether some bit of `mask` is set.
    pub fn intersects(&self, mask: u8) -> (r: bool)
        ensures
            r == (self.bits & mask != 0),
    {
        self.bits & mask != 0
    }
}

/// Container-level flags of an enum: a set of bits, named by the `u8`
/// constants of this type.
#[derive(Clone, Copy, Debug, Default, Hash, PartialEq, Eq)]
pub struct EnumFlags {
    pub bits: u8,
}

impl EnumFlags {
    /// `atomic`: patched as a whole.
    pub const ATOMIC: u8 = 1;
    /// Every variant is a unit variant (a string union in TypeScript).
    pub const ALL_UNIT: u8 = 2;

    /// The empty set.
    pub fn empty() -> (r: EnumFlags)
        ensures
            r.bits == 0,
    {
        EnumFlags { bits: 0 }
    }

    /// The flags with exactly the given bits, unknown bits kept.
    pub fn from_bits_retain(bits: u8) -> (r: EnumFlags)
        ensures
            r.bits == bits,
    {
        EnumFlags { bits }
    }

    /// The raw bits.
    pub fn bits(&self) -> (r: u8)
        ensures
            r == self.bits,
    {
        self.bits
    }

    /// Whether every bit of `mask` is set.
    pub fn contains(&self, mask: u8) -> (r: bool)
        ensures
            r == (self.bits & mask == mask),
    {
        self.bits & mask == mask
    }

    /// Whether some bit of `mask` is set.
    pub fn intersects(&self, mask: u8) -> (r: bool)
        ensures
            r == (self.bits & mask != 0),
    {
        self.bits & mask != 0
    }
}

} // verus!
