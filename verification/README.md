# dlse_esd

A compiler and decompiler for the TalkESD state-machine files of Demon's
Souls, written in Verus. Decompiling turns a binary `.esd` file into a
Python-like `.esd.py` script; compiling turns such a script back into a
binary file.

## Layout

- `src/utils/`: big-endian reading and writing, the type table and id
  bookkeeping, the JSON function and event definitions, text helpers and the
  line reader and writer.
- `src/types/decompile/`: reading the binary objects (specified in
  `read_spec.rs`) and printing them as script lines (`text_spec.rs`,
  condition bytecode in `condition_spec.rs`).
- `src/types/compile/`: parsing script lines into objects (`tree_spec.rs`,
  conditions in `condition_spec.rs`, events in `event_spec.rs`) and writing
  them (`write_spec.rs`).
- `src/dlse_esd.rs`: whole files, from bytes to lines and from text to
  bytes.
- `src/laws.rs`: properties that tie the operations together: what a read
  gives back of a write, for the header and the leaf objects (buffers,
  evaluators, conditions, events); and what decompiling prints of what
  compiling accepted, for single lines (event calls, comparisons of a
  function with a number, map, state and target lines).
- `src/condition_laws.rs`: conditions made of comparisons joined by `and`
  and `or` in any order, without parentheses: from the tokens that compiling
  reads, the bytecode written decompiles to the same condition.
- `src/tokenize_laws.rs`: such a condition line, as the script reader gives
  it (spaces removed), splits into those tokens, so the line itself compiles
  to bytecode that decompiles to it (with spaces).
- `src/reference_laws.rs`: references to conditions and events read back
  under their new ids.
- `src/decompile_laws.rs`: a reference decompiles alike whether it holds its
  object or finds it stored under its id (always for events and conditions;
  for maps, states and transitions wherever the stored one decompiles).
- `src/renumbering_laws.rs`: writing gives old ids the new ids `1, 2, ...`,
  each once, through a whole file.
- `src/bookkeeping_laws.rs`: compiling keeps its transition ids and their
  targets in step, its tables of shared conditions and events hold each key
  once, and in a state a transition holds its object exactly at the first use
  of a new id; the transition index list of reading is covered beside its
  specification in `src/types/decompile/read_spec.rs`.
- Covered by tests only: whole files compiled and decompiled again, and
  conditions with parentheses, `not`, arithmetic or calls with more than one
  argument.
- `app/main.rs`: the command-line program, which reads and writes the files.
