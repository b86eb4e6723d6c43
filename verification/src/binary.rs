//! The schemas of a compiled binary, and the binary without them.
//!
//! A binary built with derived types carries their records in its
//! `typewire_schemas` section. Reading it finds that section with the
//! `object` crate and decodes it; stripping it reads a WASM module with
//! `walrus`, deletes every custom section of that name and writes the
//! module back.

use object::{Object, ObjectSection};
use vstd::prelude::*;

use crate::coded::SECTION_NAME;
use crate::decode::{parse_section, spec_parse_section, schemas_view, Error};
use crate::schema::{Schema, strings_view};

verus! {

// ---------------------------------------------------------------------------
// Reading the section
// ---------------------------------------------------------------------------

/// What the `object` crate finds in a binary under a section name: the
/// section's data, `None` when the binary has no such section, or the
/// message of its error when the binary does not parse or the section's
/// data cannot be read.
pub uninterp spec fn object_section(binary: Seq<u8>, name: Seq<char>) -> Result<Option<Seq<u8>>, Seq<char>>;

/// `object::File::parse`, then `Object::section_by_name` and
/// `ObjectSection::data`: the data of the first section of that name, or
/// `None`, or the message of the error met. The result is the name
/// `object_section` of the bytes and the section name; which bytes parse,
/// and where their sections lie, is left to `object`.
#[verifier::external_body]
fn find_section(binary: &[u8], name: &str) -> (r: Result<Option<Vec<u8>>, String>)
    ensures
        match r {
            Ok(Some(v)) => object_section(binary@, name@) == Ok::<Option<Seq<u8>>, Seq<char>>(Some(v@)),
            Ok(None) => object_section(binary@, name@) == Ok::<Option<Seq<u8>>, Seq<char>>(None),
            Err(m) => object_section(binary@, name@) == Err::<Option<Seq<u8>>, Seq<char>>(m@),
        },
{
    let file = object::File::parse(binary).map_err(|e| e.to_string())?;
    match file.section_by_name(name) {
        Some(section) => section.data().map(|d| Some(d.to_vec())).map_err(|e| e.to_string()),
        None => Ok(None),
    }
}

/// Why the schemas of a binary cannot be read.
#[derive(Clone, Debug, PartialEq, Eq)]
pub enum ExtractError {
    /// The binary does not parse as an object file, or its section's data
    /// cannot be read: the message of `object`.
    Object(String),
    /// The binary has no `typewire_schemas` section.
    NoSection,
    /// The section does not decode.
    Decode(Error),
}

/// Whether a result is the schemas of a binary for what was found under
/// the section name: the decoded section's schemas, its decoding error,
/// `NoSection` when nothing was found, or the `object` error's message.
pub open spec fn schemas_result_is(
    r: Result<Vec<Schema>, ExtractError>,
    found: Result<Option<Seq<u8>>, Seq<char>>,
) -> bool {
    match found {
        Err(m) => r matches Err(ExtractError::Object(x)) && x@ == m,
        Ok(None) => r == Err::<Vec<Schema>, ExtractError>(ExtractError::NoSection),
        Ok(Some(b)) => match spec_parse_section(b) {
            Ok(v) => r matches Ok(x) && schemas_view(x@) == v,
            Err(e) => r == Err::<Vec<Schema>, ExtractError>(ExtractError::Decode(e)),
        },
    }
}

/// The schemas of a binary from what was found under the section name
/// (see [`schemas_result_is`]).
pub fn schemas_of_section(found: Result<Option<Vec<u8>>, String>) -> (r: Result<Vec<Schema>, ExtractError>)
    ensures
        schemas_result_is(
            r,
            match found {
                Ok(Some(v)) => Ok(Some(v@)),
                Ok(None) => Ok(None),
                Err(m) => Err(m@),
            },
        ),
{
    match found {
        Err(m) => Err(ExtractError::Object(m)),
        Ok(None) => Err(ExtractError::NoSection),
        Ok(Some(bytes)) => match parse_section(bytes.as_slice()) {
            Ok(schemas) => Ok(schemas),
            Err(e) => Err(ExtractError::Decode(e)),
        },
    }
}

/// Reads the schemas compiled into a binary (WASM, ELF, Mach-O and the
/// other formats `object` reads): the decoded `typewire_schemas` section,
/// `NoSection` when there is none, the decoding error, or the error of
/// reading the binary.
pub fn extract_schemas(binary: &[u8]) -> (r: Result<Vec<Schema>, ExtractError>)
    ensures
        schemas_result_is(r, object_section(binary@, SECTION_NAME@)),
{
    let found = find_section(binary, SECTION_NAME);
    schemas_of_section(found)
}

// ---------------------------------------------------------------------------
// Stripping the section
// ---------------------------------------------------------------------------

/// Whether the `object` crate reads a binary as a WASM module.
pub uninterp spec fn is_wasm_object(binary: Seq<u8>) -> bool;

/// `object::File::parse` and `Object::format`: whether the binary parses
/// and its format is `BinaryFormat::Wasm`. The result is the name
/// `is_wasm_object` of the bytes.
#[verifier::external_body]
fn binary_is_wasm(binary: &[u8]) -> (r: bool)
    ensures
        r == is_wasm_object(binary@),
{
    match object::File::parse(binary) {
        Ok(file) => file.format() == object::BinaryFormat::Wasm,
        Err(_) => false,
    }
}

#[verifier::external_type_specification]
#[verifier::external_body]
pub struct ExWalrusModule(walrus::Module);

/// The names of a module's custom sections, in the order
/// `ModuleCustomSections::iter` walks them.
pub uninterp spec fn custom_section_names(m: walrus::Module) -> Seq<Seq<char>>;

/// The names of the custom sections `walrus` keeps in a module it reads
/// from bytes (the `name`, `producers` and `.debug*` sections are read
/// into other parts of the module), or `None` when it does not read them.
pub uninterp spec fn wasm_custom_sections(wasm: Seq<u8>) -> Option<Seq<Seq<char>>>;

/// `walrus::Module::from_buffer`: the module, whose custom sections are
/// the name `wasm_custom_sections` of the bytes, or the message of the
/// error met. What the error says is left to `walrus`.
#[verifier::external_body]
fn module_from_buffer(wasm: &[u8]) -> (r: Result<walrus::Module, String>)
    ensures
        match r {
            Ok(m) => wasm_custom_sections(wasm@) == Some(custom_section_names(m)),
            Err(_) => wasm_custom_sections(wasm@) is None,
        },
{
    walrus::Module::from_buffer(wasm).map_err(|e| e.to_string())
}

/// `ModuleCustomSections::iter`, each section taken by its name.
#[verifier::external_body]
fn custom_names(m: &walrus::Module) -> (r: Vec<String>)
    ensures
        strings_view(r@) == custom_section_names(*m),
{
    m.customs.iter().map(|(_, s)| s.name().to_string()).collect()
}

/// `ModuleCustomSections::delete` of the section at position `k` of
/// `iter`: that section leaves, the others stay in their order (the arena
/// marks the section dead, and `iter` skips dead sections).
#[verifier::external_body]
fn delete_custom_at(m: &mut walrus::Module, k: usize)
    requires
        k < custom_section_names(*old(m)).len(),
    ensures
        custom_section_names(*final(m)) == custom_section_names(*old(m)).remove(k as int),
{
    let id = m.customs.iter().nth(k).map(|(id, _)| id);
    if let Some(id) = id {
        m.customs.delete(id);
    }
}

/// `Module::emit_wasm`: the module written as WASM bytes. What the bytes
/// hold is left to `walrus`.
#[verifier::external_body]
fn emit_wasm(m: walrus::Module) -> (r: Vec<u8>) {
    let mut m = m;
    m.emit_wasm()
}

/// The names without those equal to `x`, in order.
pub open spec fn without_name(names: Seq<Seq<char>>, x: Seq<char>) -> Seq<Seq<char>>
    decreases names.len(),
{
    if names.len() == 0 {
        Seq::empty()
    } else {
        without_name(names.drop_last(), x) + if names.last() == x {
            Seq::<Seq<char>>::empty()
        } else {
            seq![names.last()]
        }
    }
}

proof fn lemma_without_name_split(a: Seq<Seq<char>>, b: Seq<Seq<char>>, x: Seq<char>)
    ensures
        without_name(a + b, x) == without_name(a, x) + without_name(b, x),
    decreases b.len(),
{
    if b.len() == 0 {
        assert(a + b =~= a);
        assert(without_name(a, x) + without_name(b, x) =~= without_name(a, x));
    } else {
        lemma_without_name_split(a, b.drop_last(), x);
        assert((a + b).drop_last() =~= a + b.drop_last());
        assert((a + b).last() == b.last());
        assert(without_name(a, x) + without_name(b.drop_last(), x) + (if b.last() == x {
            Seq::<Seq<char>>::empty()
        } else {
            seq![b.last()]
        }) =~= without_name(a, x) + (without_name(b.drop_last(), x) + if b.last() == x {
            Seq::<Seq<char>>::empty()
        } else {
            seq![b.last()]
        }));
    }
}

/// Deletes every custom section named `typewire_schemas` from a module;
/// the other custom sections stay, in their order.
pub fn strip_module(m: &mut walrus::Module)
    ensures
        custom_section_names(*final(m)) == without_name(custom_section_names(*old(m)), SECTION_NAME@),
{
    let names = custom_names(m);
    let ghost all = strings_view(names@);
    let mut k: usize = names.len();
    proof {
        assert(all.take(k as int) =~= all);
        assert(all.skip(k as int) =~= Seq::<Seq<char>>::empty());
    }
    while k > 0
        invariant
            k <= names@.len(),
            all == strings_view(names@),
            all == custom_section_names(*old(m)),
            custom_section_names(*m) == all.take(k as int) + without_name(all.skip(k as int), SECTION_NAME@),
        decreases k,
    {
        let j = k - 1;
        let ghost rest = all.skip(k as int);
        proof {
            assert(all.skip(j as int) =~= seq![all[j as int]] + rest);
            lemma_without_name_split(seq![all[j as int]], rest, SECTION_NAME@);
            assert(seq![all[j as int]].drop_last() =~= Seq::<Seq<char>>::empty());
            assert(seq![all[j as int]].last() == all[j as int]);
            assert(without_name(Seq::<Seq<char>>::empty(), SECTION_NAME@) == Seq::<Seq<char>>::empty());
            assert(all.take(k as int) =~= all.take(j as int).push(all[j as int]));
        }
        if crate::case::str_eq(names[j].as_str(), SECTION_NAME) {
            let ghost before = custom_section_names(*m);
            delete_custom_at(m, j);
            proof {
                assert(before.remove(j as int) =~= all.take(j as int) + without_name(rest, SECTION_NAME@));
                assert(without_name(seq![all[j as int]], SECTION_NAME@) =~= Seq::<Seq<char>>::empty());
                assert(without_name(all.skip(j as int), SECTION_NAME@) =~= without_name(rest, SECTION_NAME@));
            }
        } else {
            proof {
                assert(without_name(seq![all[j as int]], SECTION_NAME@) =~= seq![all[j as int]]);
                assert(all.take(k as int) + without_name(rest, SECTION_NAME@) =~= all.take(j as int) + without_name(all.skip(j as int), SECTION_NAME@));
            }
        }
        k = j;
    }
    assert(all.take(0) =~= Seq::<Seq<char>>::empty());
    assert(all.skip(0) =~= all);
}

/// Why a WASM module cannot be stripped: `walrus` does not read it (its
/// message).
#[derive(Clone, Debug, PartialEq, Eq)]
pub enum StripError {
    Wasm(String),
}

/// The module `walrus` reads from WASM bytes, without its
/// `typewire_schemas` custom sections: its custom sections are those of
/// the bytes without that name, in their order. It fails exactly when
/// `walrus` does not read the bytes.
pub fn stripped_module(wasm: &[u8]) -> (r: Result<walrus::Module, StripError>)
    ensures
        match r {
            Ok(m) => wasm_custom_sections(wasm@) is Some && custom_section_names(m) == without_name(
                wasm_custom_sections(wasm@)->0,
                SECTION_NAME@,
            ),
            Err(_) => wasm_custom_sections(wasm@) is None,
        },
{
    let mut m = match module_from_buffer(wasm) {
        Ok(m) => m,
        Err(e) => return Err(StripError::Wasm(e)),
    };
    strip_module(&mut m);
    Ok(m)
}

/// A WASM module without its `typewire_schemas` custom sections, as bytes:
/// the module of [`stripped_module`], written back by `walrus`. It fails
/// exactly when `walrus` does not read the bytes.
pub fn strip_schema_section(wasm: &[u8]) -> (r: Result<Vec<u8>, StripError>)
    ensures
        r is Ok <==> wasm_custom_sections(wasm@) is Some,
{
    match stripped_module(wasm) {
        Ok(m) => Ok(emit_wasm(m)),
        Err(e) => Err(e),
    }
}

/// What stripping a binary comes to.
#[derive(Clone, Debug, PartialEq, Eq)]
pub enum StripOutcome {
    /// The binary is a WASM module: the module without the section.
    Stripped(Vec<u8>),
    /// The binary is not a WASM module: it is left as it is.
    NotWasm,
}

/// Strips the schema section from a binary when it is a WASM module; any
/// other binary is left as it is (`NotWasm`).
pub fn strip_binary(binary: &[u8]) -> (r: Result<StripOutcome, StripError>)
    ensures
        !is_wasm_object(binary@) ==> r == Ok::<StripOutcome, StripError>(StripOutcome::NotWasm),
        is_wasm_object(binary@) ==> (r is Ok <==> wasm_custom_sections(binary@) is Some),
        is_wasm_object(binary@) ==> (r matches Ok(o) ==> o is Stripped),
{
    if !binary_is_wasm(binary) {
        return Ok(StripOutcome::NotWasm);
    }
    match strip_schema_section(binary) {
        Ok(out) => Ok(StripOutcome::Stripped(out)),
        Err(e) => Err(e),
    }
}

} // verus!
