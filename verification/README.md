# ebkit

Decoding of event-camera recordings, verified with Verus.

- `src/header.rs`: the ASCII header of a RAW file (`% <key> <value>\n` lines
  up to `% end\n`), read into `Metadata`; `src/header_laws.rs` proves where
  the header ends, that what it consumed is a run of `% ...\n` lines, and
  that the data after it does not change how it is read.
- `src/evt/`: the EVT 2.0 stream: words (`word.rs`), their bit fields
  (`bitfield.rs`), the decode that a word enum's layout describes
  (`layout.rs`, with the proof that `Word` follows its layout), the checks
  a word enum's description passes, in the order they are made
  (`enum_layout.rs`), and the
  stateful decoder (`evt20.rs`), which keeps the last `EVT_TIME_HIGH` from
  one buffer to the next, with its laws (among them the word-by-word
  statement of what it emits).
- `src/metadata.rs`, `src/extra.rs`, `src/events.rs`: the records.
- `app/lib.rs`: the `EvtDecode` derive's handling of syntax trees; what it
  accepts and which error it reports first is `check_enum_layout`.
