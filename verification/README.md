# Corvus

An autonomous coding agent for the terminal. It talks to a language model, runs the tools that the
model calls for in a sandbox, asks a human before it runs anything risky, and shortens its history
when it outgrows the model.

The decisions are a library in Verus: executable Rust whose behaviour is stated in contracts and
proved. The program around it reads, writes and sends.

- `src/` is the library.
  - `message` and `pairing`: the transcript, who sees what of it, and the protocol of tool calls.
  - `operations/`: compaction, approval, tool execution and inference, each from a transcript to
    the effects that it asks for.
  - `engine` and `pipeline`: which operation has its way, and when a run ends.
  - `provider_error`, `render`, `events`: what faults mean, and what a human gets to see.
  - `session`, `sandbox`, `cli`: the layout of the session store, the shell tool, the command line.
  - `laws/`: what holds of the library as a whole.
- `tests/` runs the library on concrete values.
- `app/` is the program: the terminal, the network, the disk and the sandbox.

Items marked `external_body` or `assume_specification` state what is taken on trust of other crates
and of the standard library; the comment above each says what that is.
