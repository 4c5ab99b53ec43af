# picojson

A minimal JSON parser for resource-constrained environments, written and
proved in Verus: a non-recursive tokenizer that tracks nesting in a bit
stack, and parsers on top of it that hand out events.

- `tokenizer`, `bitstack`: the byte-at-a-time tokenizer and its nesting
  stack; `tokenizer_laws` proves that splitting the input into chunks does
  not change what the tokenizer reports (the same events at the same bytes,
  each chunk counting positions from its own start), and that the depth
  follows the container events.
- `slice_parser`, `pull_parser`: pull parsers over an input slice.
- `stream_parser`, `stream_content_builder`, `chunk_reader`: input read
  through a `Reader` into one buffer.
- `push_parser`, `push_content_builder`: input written in chunks, events
  handed to a handler.
- `copy_on_escape`, `stream_buffer`, `direct_buffer`, `escape_processor`,
  `json_number`, `int_parser`: strings, escapes and numbers (integers are
  parsed to `i64`; a number with a fraction or exponent stays text by
  default, and `parse_float_with` refuses, skips or truncates it instead).

Strings are borrowed from the input where they can be, and unescaped into a
caller's scratch buffer where they have escapes (or, for the push parser,
span chunks).
