# validate_encoding

Validates the encoding of a text file and looks for mojibake (garbled text)
typical of Nordic and Western European files: decoding errors, UTF-8 read as
Latin-1, and Latin-1 read as UTF-8. It reports the detected encoding with a
confidence, the encodings the bytes are valid in, what git knows of the
committed version, and every warning found.

Layout:

- `src/` is the library, written in Verus and verified:
  - `charset.rs`: encodings of `encoding_rs` and the decoding calls made on them;
  - `detect.rs`: detection (with `chardetng`) and the confidence in it;
  - `mojibake.rs`: line numbers, the three checks, and the binary-file test;
  - `git.rs`: summing up what git reported about a file;
  - `output.rs`: the report and its rendering as terminal text;
  - `validate.rs`: validation of a file from its bytes;
  - `text.rs`: numerals, padding and joining of text.
- `app/` is the command-line program and the MCP tool around it: file and
  git I/O, argument parsing, and JSON output.
- `tests/` exercises the library's public functions.
