# rdsd2pcm

Verified core of a DSD (1-bit, SACD-style) to PCM conversion stack.

`src/` is the library, checked by Verus:

- `bits` – bit reversal of DSD bytes (MSB-first / LSB-first).
- `decimator` – the byte history ring of the table decimator, its output
  boundaries and table lookups, and the choice of precomputed filter table.
- `buffer` – conversion options and errors, input-rate checks, the conversion
  plan, output capacity, channel splitting, 24-bit sample packing.
- `converter` – one decimator per channel, fed on the planar or the direct
  path, with the proof that both paths agree.
- `dst` – DST stream geometry (channels, rates, frame size). This is a model
  of the DST decoder's configuration built from its constants (at most six
  channels, DSD64/128/256, 1/75 s frames); the decoder itself, and the exact
  rules and messages with which it rejects a configuration, are not part of
  this crate, so the model stands until that source can be checked against it.
- `codec` – decoder set-up decisions and packet sizes.
- `dsd_file` – container formats and what DSF/DSDIFF headers imply.
- `dither` – dither kinds and the xorshift state of floating-point dither.

`app/` holds what Verus does not check: floating-point filtering, sample
encoding and dither, file access, and error types with `Display`.
