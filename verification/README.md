# ddv

A terminal viewer and editor for DynamoDB tables, whose decisions are proved
with Verus.

- `src/` is the verified library: the data model of items and attribute
  values; reading and writing items as typed and plain JSON, and the proof
  that the JSON text written for an item reads back as that item, up to the
  sign of a zero (resting on three premises about the outside crates, stated,
  not proved: `serde_json` reads a printed document back with each object's
  members in ascending key order, `rust_decimal` parses the text it prints
  for a decimal back to that decimal, and base64 decodes what it encoded); key condition expressions, item keys, the order of loaded items
  and the paging of query results; the AWS profile list; the profile picker, the
  query form with its pattern picker, and the item editor, each a state
  machine from key press to action; the application's status line and its
  short help, loading
  state and the effects that follow a completed call; and the configuration
  with its defaults.
- `app/` is the terminal program around it: argument parsing, the
  configuration and AWS files, the DynamoDB client and its conversions, the
  clipboard, drawing with `ratatui`, and the event loop that performs what the
  library decides.
- `tests/` exercises the library on concrete values.

The outside crates the library calls (`serde_json`, `rust_decimal`, `base64`,
`tui-input`, and a few std functions) are reached through small trusted
wrappers; each states what it assumes of the call in its doc comment.
