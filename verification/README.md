# rutis_agent

A coding agent for the terminal, and a bridge that brings language models to
another program. Its logic is a library written in Verus: every function says
what it does in `requires` and `ensures`, and Verus proves it.

- `src/` is the library. It does no I/O: it takes what was read and says what is
  to be done. `src/lib.rs` says which module holds what. Functions whose names
  begin with `law_` state what holds across several functions or over a whole
  session.
- `tests/` runs the library on concrete values, with the real outside crates.
- `app/` is the programs: the terminal, files, processes, connections and
  language models. One executable is all of them; the name under which it is
  called decides which:
  - `rutis-cli` – the agent in the terminal (`--scripted` needs no key),
  - `self-living` – an agent that goes on by itself,
  - `rutis-dsh up` – starts another program and serves it language models.

## The turn

`driver::AgentDriver` never waits. `followup` takes what the user says and
`advance` takes what happened since; both answer with a `Directive`: what to tell
observers, whether to write the session, and what to do next. A turn ends with an
answer or an error. A turn that is answered leaves what the user said and every
step: the model's words, and one result for each call. A failed turn leaves no
trace in the history: what was there before it is there again, but for messages
that a cut of a history too long has taken. The model only ever sees a history in
which every tool call has its result and every result its call.

## The bridge

`bridge::Bridge` keeps the books of a session in the same way: which calls are in
flight, what a frame means, and when the session is over. The first frame has to
be a greeting; a late answer is counted and dropped; the end of a session is kept
on record.
