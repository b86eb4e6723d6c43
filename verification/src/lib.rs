//! Type metadata for the typewire cross-language bridge.
//!
//! The schema model of Rust types as serde sees them; the binary
//! `typewire_schemas` section format that carries it (a decoder, an encoder,
//! and the proof that the decoder gives back what the encoder wrote); the
//! TypeScript declarations generated from it; the naming rules (`rename`,
//! `rename_all`, aliases) that produce its wire names; the source text of
//! the JavaScript conversions derived for `wasm32`; and the runtime helpers
//! of the conversions (errors with context, base64 bytes).

pub mod scalar;
pub mod flags;
pub mod schema;
pub mod coded;
pub mod text;
pub mod decode;
pub mod encode;
pub mod roundtrip;
pub mod typescript;
pub mod case;
pub mod attr;
pub mod expand;
pub mod error;
pub mod b64;
pub mod coverage;
pub mod coded_source;
pub mod binary;
pub mod concat;

pub use b64::{base64_decode, base64_encode};
pub use error::Error;
pub use flags::{EnumFlags, FieldFlags, StructFlags, VariantFlags};
pub use scalar::Scalar;
pub use schema::{
    Enum, Field, FieldDefault, FromBody, FromProxy, IntoProxy, Schema, Struct, StructShape,
    Tagging, Transparent, TypeShape, Variant, VariantKind,
};
pub mod analyze;
pub mod item;
pub mod wasm;
