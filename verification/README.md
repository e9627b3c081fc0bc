# packed_font

Pre-rendered, run-length packed antialiased fonts for microcontrollers with
large displays, with the packing, unpacking and text layout proved correct
with Verus.

- `src/rle.rs`: the packed bitmap format (alternating runs of uncovered and
  covered coverage units), the packer `compress`, the `Unpacker`, and the
  proof that unpacking gives back every pixel reduced to 4 bits.
- `src/structs.rs`: glyph and font metrics, their stored form, the character set.
- `src/font.rs`: `PackedFont`, glyph lookup through the offset table, glyph rasters.
- `src/pack.rs`: building a packed font glyph by glyph, and the proof that each
  glyph is found again as it was stored.
- `src/blend.rs`: mixing foreground and background colours by grade.
- `src/geometry.rs`, `src/text.rs`: text positions, baselines, glyph cells,
  background fills and string layout.
- `app/`: the `embedded-graphics` drawing and text renderer, and the packing of
  TrueType/OpenType fonts with `skrifa` and `tiny-skia`.
