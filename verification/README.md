# lavish

The verified core of lavish, a schema-driven RPC toolkit whose payloads
travel as MessagePack.

- `src/msgpack.rs`: the byte layouts of the MessagePack headers and markers
  that the encoding uses, and the calls into `rmp` that write and read them.
- `src/facts.rs`: the `Factual` encoding. Strings, options, vectors and the
  sample structs are written under translation tables, which lay each struct
  out as the peer expects it, and read back from a `Reader` over a byte
  buffer. Every `write` states the exact bytes it appends, every `read`
  states what it returns, or which error it stops on and where it leaves the
  reader. `law_read_of_write` proves that reading what was written gives the
  value back, under tables that lay each struct out as it is read (the
  identity tables), for values whose lengths fit the format's 32-bit counts
  and whose options do not nest.
- `src/services/sample/`: the sample service's types, method names, the
  reading of calls by method name and the dispatch to registered handlers.
- `src/server.rs`, `src/client.rs`: what the sample server and client answer.
- `src/demo.rs`: the payload that the sample program encodes, and the emoji
  list that its benchmarks read from a JSON object.
- `app/`: the sample program (printing payloads, serde comparisons,
  benchmarks), the asynchronous helpers, and the reading of call payloads
  with `erased_serde`.
