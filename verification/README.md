# A verified TIFF decoder

A decoder for TIFF images held in memory, written in Verus. Each public
function states in its contract what it returns for every input, over
mathematical models of the file's bytes, and Verus proves the code against it.

## Layout

- `src/stream.rs`: integers of either byte order, and the cursor over the
  file's bytes.
- `src/tags.rs`: tag numbers, field types and the enumerations of tag values.
- `src/ifd.rs`: directory entries and their values, read from the file.
- `src/tag_reader.rs`: looking tags up in a directory and converting values.
- `src/image.rs`: the attributes of an image, its strips and tiles, and the
  expansion of one chunk into samples.
- `src/samples.rs`: decoding samples from bytes, the horizontal predictor and
  color inversion, row by row.
- `src/packbits.rs`: PackBits decompression.
- `src/result.rs`: the samples a decoding hands out.
- `src/decoder.rs`: the decoder itself: header, directories, tags, strips,
  tiles and whole images.
- `app/lib.rs`: opening files, and the floating-point side of TIFF (float
  tags, float samples as numbers, inverting float grayscale), which the
  library carries as bits.

Besides the contracts, the library proves laws that span functions, among
them: decoding the whole image puts every strip and tile where reading it
alone gives it; the chunks of an image do not overlap; undoing horizontal
prediction gives back a differenced row; inverting colors twice changes
nothing; reading images never returns to a directory already read; no
decoding result exceeds the decoding buffer limit; the next image is missing
exactly where there is no next directory; over any sequence of calls, the
byte order stays the one the header names and no directory is read twice;
`get_tag_u64` reads a tag as `get_tag_unsigned` does before converting it. Each call that moves the read position says where it leaves
it, and those that do not keep it.

Compression other than none and PackBits is reported as unsupported.
