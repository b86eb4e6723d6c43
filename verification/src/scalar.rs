use vstd::prelude::*;

verus! {

/// Scalar (leaf) type identifiers of the schema representation.
///
/// Each variant maps to a Rust primitive or a well-known domain type; its
/// discriminant on the wire is its position in this list (`bool` is 0,
/// `FractionalIndex` is 23).
#[allow(non_camel_case_types)]
#[derive(Clone, Copy, Debug, Hash, PartialEq, Eq)]
pub enum Scalar {
    bool,
    u8,
    u16,
    u32,
    u64,
    u128,
    i8,
    i16,
    i32,
    i64,
    i128,
    usize,
    isize,
    F32,
    F64,
    char,
    str,
    Unit,
    Url,
    Uuid,
    Bytes,
    DateTime,
    SerdeJsonValue,
    FractionalIndex,
}

/// The number of scalar kinds; discriminants are `0..SCALAR_COUNT`.
pub const SCALAR_COUNT: u8 = 24;

/// The wire discriminant of a scalar.
pub open spec fn scalar_code(s: Scalar) -> u8 {
    match s {
        Scalar::bool => 0,
        Scalar::u8 => 1,
        Scalar::u16 => 2,
        Scalar::u32 => 3,
        Scalar::u64 => 4,
        Scalar::u128 => 5,
        Scalar::i8 => 6,
        Scalar::i16 => 7,
        Scalar::i32 => 8,
        Scalar::i64 => 9,
        Scalar::i128 => 10,
        Scalar::usize => 11,
        Scalar::isize => 12,
        Scalar::F32 => 13,
        Scalar::F64 => 14,
        Scalar::char => 15,
        Scalar::str => 16,
        Scalar::Unit => 17,
        Scalar::Url => 18,
        Scalar::Uuid => 19,
        Scalar::Bytes => 20,
        Scalar::DateTime => 21,
        Scalar::SerdeJsonValue => 22,
        Scalar::FractionalIndex => 23,
    }
}

/// The scalar whose discriminant is `v`, if any.
pub open spec fn scalar_of_code(v: u8) -> Option<Scalar> {
    if v < SCALAR_COUNT {
        Some(choose|s: Scalar| scalar_code(s) == v)
    } else {
        None
    }
}

/// Every discriminant below the count names exactly one scalar.
pub proof fn lemma_scalar_codes(v: u8)
    requires
        v < SCALAR_COUNT,
    ensures
        exists|s: Scalar| scalar_code(s) == v,
        forall|s: Scalar, t: Scalar| scalar_code(s) == scalar_code(t) ==> s == t,
{
    let s = match v {
        0 => Scalar::bool,
        1 => Scalar::u8,
        2 => Scalar::u16,
        3 => Scalar::u32,
        4 => Scalar::u64,
        5 => Scalar::u128,
        6 => Scalar::i8,
        7 => Scalar::i16,
        8 => Scalar::i32,
        9 => Scalar::i64,
        10 => Scalar::i128,
        11 => Scalar::usize,
        12 => Scalar::isize,
        13 => Scalar::F32,
        14 => Scalar::F64,
        15 => Scalar::char,
        16 => Scalar::str,
        17 => Scalar::Unit,
        18 => Scalar::Url,
        19 => Scalar::Uuid,
        20 => Scalar::Bytes,
        21 => Scalar::DateTime,
        22 => Scalar::SerdeJsonValue,
        _ => Scalar::FractionalIndex,
    };
    assert(scalar_code(s) == v);
}

impl Scalar {
    /// Converts a discriminant back to a scalar; `None` past the last one.
    pub fn from_u8(v: u8) -> (r: Option<Scalar>)
        ensures
            r == scalar_of_code(v),
            r matches Some(s) ==> scalar_code(s) == v,
            r is Some <==> v < SCALAR_COUNT,
    {
        proof {
            if v < SCALAR_COUNT {
                lemma_scalar_codes(v);
            }
        }
        let r = match v {
            0 => Some(Scalar::bool),
            1 => Some(Scalar::u8),
            2 => Some(Scalar::u16),
            3 => Some(Scalar::u32),
            4 => Some(Scalar::u64),
            5 => Some(Scalar::u128),
            6 => Some(Scalar::i8),
            7 => Some(Scalar::i16),
            8 => Some(Scalar::i32),
            9 => Some(Scalar::i64),
            10 => Some(Scalar::i128),
            11 => Some(Scalar::usize),
            12 => Some(Scalar::isize),
            13 => Some(Scalar::F32),
            14 => Some(Scalar::F64),
            15 => Some(Scalar::char),
            16 => Some(Scalar::str),
            17 => Some(Scalar::Unit),
            18 => Some(Scalar::Url),
            19 => Some(Scalar::Uuid),
            20 => Some(Scalar::Bytes),
            21 => Some(Scalar::DateTime),
            22 => Some(Scalar::SerdeJsonValue),
            23 => Some(Scalar::FractionalIndex),
            _ => None,
        };
        r
    }

    /// The wire discriminant of this scalar.
    pub fn as_u8(self) -> (r: u8)
        ensures
            r == scalar_code(self),
            scalar_of_code(r) == Some(self),
    {
        proof {
            lemma_scalar_codes(scalar_code(self));
        }
        match self {
            Scalar::bool => 0,
            Scalar::u8 => 1,
            Scalar::u16 => 2,
            Scalar::u32 => 3,
            Scalar::u64 => 4,
            Scalar::u128 => 5,
            Scalar::i8 => 6,
            Scalar::i16 => 7,
            Scalar::i32 => 8,
            Scalar::i64 => 9,
            Scalar::i128 => 10,
            Scalar::usize => 11,
            Scalar::isize => 12,
            Scalar::F32 => 13,
            Scalar::F64 => 14,
            Scalar::char => 15,
            Scalar::str => 16,
            Scalar::Unit => 17,
            Scalar::Url => 18,
            Scalar::Uuid => 19,
            Scalar::Bytes => 20,
            Scalar::DateTime => 21,
            Scalar::SerdeJsonValue => 22,
            Scalar::FractionalIndex => 23,
        }
    }
}

} // verus!
