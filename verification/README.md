# protoflow_blocks

Building blocks for flow-based programs, with their decision logic verified
in Verus.

- `src/` is the verified library: block tags and configurations, message
  codecs (hexadecimal, newline-terminated text, protocol buffer wrapper
  messages, CSV, JSON), text splitting
  and joining, and each block's behaviour as a state machine (what it keeps,
  and what it sends for each message, trigger or end of input). Contracts
  are stated over `Seq`, `int` and the views of the library's types; the
  laws (round trips, chunking, ordering) are public proof functions.
- `app/` runs the blocks: ports as channels, files, sockets and standard
  streams, threads and sleeps, configuration documents read with serde, the
  JSON reader and writer driven call by call, and arithmetic on floats.
- `tests/` exercises the library on concrete values.
