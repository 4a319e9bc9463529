# jo

A process viewer for the terminal. The processes of the machine are shown as a
sorted table or as a tree, with a search over the lines, bars for the processors
and a few animations.

- `src/` is the core, verified with Verus: growing the process tree from what each
  process says of its parent, listing and sorting it, the search, the state machine
  that answers keys and measurements, the animations' switches, and what is drawn of
  a state. `src/laws.rs`, `src/rows.rs`, `src/search.rs` and others state, as proof
  functions, what holds of the core as a whole.
- `app/` is the program around it: files, measurements, the terminal and the tasks
  that bring events.
- `tests/` runs the core together with the crates that it calls.

Numbers that are measured in floating point are held in the core by their bit
patterns, which is enough to order and compare them; they are computed and printed in
`app/`.

Calls into other crates stand behind small functions marked
`#[verifier::external_body]`; the comment above each says which function it calls and
what is taken of it without proof.
