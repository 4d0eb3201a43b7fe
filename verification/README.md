# ndscore

Reading Nintendo DS ROMs and the Pokémon generation-4 data inside them, with every
parser, decoder and table walk proved correct by Verus.

- `src/` — the verified library: byte readers and NDS dictionaries (`rw`), the ROM header,
  FAT/FNT tables and file system (`codec`, `nds`), NARC archives, map files, map matrices and
  map headers, TEX0/BTX0 textures with their decoder (`platform`), BLZ decompression
  (`compression`), and RGBA images (`gfx`). Each function states its result over spec
  functions; the `lemma_*` proof functions state the laws that hold across calls (for
  example, that a file read from a ROM holds exactly the bytes its FAT entry describes).
  Calls into brotli, png and zip go through small trusted wrappers whose contracts are
  documented where they are declared.
- `tests/` — concrete scenarios, including direct renderings of the texture formats and of
  BLZ decompression that the library is compared against.
- `app/` — what stays outside verification: reading from seekable readers, printing a file
  tree, human-readable sizes, and the serde/strum/thiserror forms of the library's types.
