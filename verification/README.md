# libeq

Readers and writers for EverQuest data files, verified with Verus:

- the PFS archive container (`.s3d`, `.eqg`): its header, index, directory,
  compressed blocks and footer (`src/pfs`), and an archive reader and writer
  built on them (`src/archive`);
- the fragments of the WLD world format: names, references, render methods,
  meshes, regions, lights, sprites and the rest (`src/wld`).

Every parser states in its contract exactly which value it reads from which
bytes, and when it refuses its input; every writer states the bytes it
produces. The laws that tie them together (what is written is read back, what
is read is written back as the same bytes, an archive that was finished holds
what was inserted) are public proof functions next to the types they speak of
(`src/archive/laws.rs`, `src/archive/parser_laws.rs`, `src/pfs/open_laws.rs`,
the `*_laws.rs` files under `src/wld/fragments`, and `lemma_*_round_trip`
beside the smaller fragments).

A file can be read whole (`get`) or through a reader (`get_reader`) that
decompresses its first block at once and each later block when the reading
reaches it.

Compression goes through `flate2` behind small trusted wrappers in
`src/zlib.rs`; the current time comes from a wrapper in `src/archive`.
Floating-point fields of the WLD fragments are kept as the bits of their
`f32`s.

A WLD document layer (`load`, `Wld`, `Mesh`, `Material`, `Texture`,
`Model`, and a `FragmentType` that dispatches over all fragment kinds) is
not part of this library: it needs a whole-document parser and fragment
kinds that are not included here. The fragments above, and the string
decoding they use, are.

`app/` holds what is not verified: reading and writing files and streams, a
`std::io::Read` over an archived file, and an error type with
`std::error::Error`. `tests/` exercises the library on
concrete inputs and expected values.
