# simdjson

A JSON tape builder in two stages, verified with Verus.

- **Stage 1** (`src/stage1_find_marks.rs`) scans the document in blocks of 64
  bytes with bit-parallel word operations (odd backslash runs by carry
  propagation, string regions by prefix parity, nibble-table classification)
  and lists its structural positions. Its contract states the list exactly, by a
  position-by-position definition of escapes, strings, structural bytes and atom
  starts.
- **Stage 2** (`src/stage2_build_tape.rs`) walks the structural positions with a
  state machine and writes the tape into a `ParsedJson`
  (`src/parsed_json.rs`); strings are decoded into the string buffer
  (`src/utils/string_parsing.rs`). Its contract states the result and the tape
  for every document. A parse writes from the start of the tape and of the
  string buffer and leaves what lies past its write positions as it was.
- `src/json_parser.rs` chains the two stages; `src/parsed_json_iterator.rs`
  starts a walk over a finished tape.

`app/` holds what works on raw buffers: the padded copy of a document that ends
near a page boundary, memory allocation, and the displayable error type.
