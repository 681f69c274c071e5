# zztff

Reading and writing ZZT 3.2 worlds (.ZZT, .SAV) and boards (.BRD), verified with Verus.

- `src/world.rs`: the data model (`World`, `Board`, `Stat`, `Tile`, `Program`, `Keys`) and its
  mathematical views.
- `src/text.rs`, `src/chars.rs`: CP437 text conversion, through the `codepage-437` crate.
- `src/bytes.rs`, `src/encode.rs`: the binary layout as spec functions, and the writers proved
  to produce exactly those bytes.
- `src/decode.rs`: the readers, proved to compute the spec decoders exactly, errors included.
- `src/roundtrip.rs`: proofs that reading what was written gives back the same board or world,
  whatever bytes follow it, for values already in the form that reading produces (text in the
  table's own spellings, no exit stored as board 0, programs bound to stats 1 to 32768).
- `src/elements.rs`: element ids, names and parameter aliases.
- `src/listing.rs`: the plain-text listing of a world or board.
- `app/`: copies of the error and element types with `thiserror` and `num_enum` derives.

Element ids are given by `Element::id()` or `u8::from(element)`; the enum itself carries no
discriminants, so `element as u8` is not the element's id.
