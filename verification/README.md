# openjph-core (verified building blocks)

Building blocks of an HTJ2K (JPEG 2000 Part 15) codec and of its
command-line tools, written in Verus with their behaviour stated as
contracts and proved.

- `src/codestream/`: the bit writer and reader with 0xFF byte stuffing
  (and the laws that what is written is read back), signed/unsigned
  sample conversions, the codestream parameter object with its main
  header writer and reader (and the law that what is written is read
  back), and the tile, tile-component, resolution and subband geometry.
- `src/params.rs`: the SIZ, COD, QCD, NLT and SOT marker parameters.
- `src/args.rs`: the `{w,h}` / `{x,y}` argument syntax of the tools.
- `src/img_io/`: PGM/PPM and DPX headers, raw sample layouts and codecs,
  format choice, with the laws that written lines and headers read back.
- `src/tools.rs`: how the compressor's settings configure a codestream,
  and which output files the expander can write.
- `app/`: the `ojph_compress` / `ojph_expand` programs (one binary that
  acts as either by its name, or by a subcommand): argument handling and
  file access around the library.
