# typewire

Type metadata for a Rust-to-JavaScript bridge, verified with Verus.

A derive records, for each Rust type, a schema: its fields or variants, their
wire names after serde's `rename` / `rename_all` / `alias`, their flags and
defaults, and the serde tagging of enums. The schemas travel in a
`typewire_schemas` link section of the compiled binary; a command-line tool
reads that section back and writes TypeScript declarations. For `wasm32`
targets the derive also writes each type's JavaScript conversions
(`to_js`, `from_js`, `patch_js`, which updates an existing JavaScript value
in place).

## Layout

- `src/` — the verified library:
  - `schema`, `scalar`, `flags`, `coded`: the schema model and the
    discriminants of the section format;
  - `decode`, `encode`, `roundtrip`: the section format, with the proof
    that decoding gives back what encoding wrote;
  - `concat`: sections read back to back, with the proof that two whole
    sections parse to the schemas of the first followed by those of the
    second, and declare the same in either order;
  - `binary`: reading the section out of a compiled binary (`object`) and
    deleting it from a WASM module (`walrus`);
  - `typescript`: the declarations, sorted by type name, with the proof that
    they do not depend on the order of the records;
  - `analyze`, `attr`, `case`: how a derive turns an item and its
    attributes into a schema, and serde's naming rules;
  - `item`: the item as the code generators see it: the schema's shape,
    with each field's type as the item declares it (`Wrapper<T>`,
    `BTreeMap<String, u32>`) and the item's generic parameters with their
    bounds and `where` clause;
  - `expand`: wire names, and the `impl Typewire` block around the
    generated methods, with every type parameter bound by `Typewire`;
  - `coded_source`: the source text of a type's schema identity (`Ident`,
    `IDENT`) and of the static placing its record in the link section;
  - `wasm`: the source text of what the derive writes for `wasm32`: the
    `to_js`, `from_js` and `patch_js` methods of structs, enums (in every
    tagging), transparent and proxy types, the JavaScript helpers they
    call (destructuring, constructing, dispatching on tags, setting
    fields), and the `wasm_bindgen` impls; with laws tying the slots the
    JavaScript helpers fill to the slots the methods read;
  - `error`, `b64`: the runtime's conversion errors and base64 bytes;
  - `coverage`, `text`: lcov reports read into line counts per file, line
    totals, the merge of the reports of two targets, decimal text.
- `tests/`: tests of the library.
- `app/`: the command-line tool: arguments, reading and writing files,
  printing.
