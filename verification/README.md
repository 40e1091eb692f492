# udpcp

UDP file copy: a blast-and-NACK protocol with SHA-256 integrity.

The sender announces a file in an INIT packet, sends every chunk, and says DONE.
The receiver asks for the chunks it is missing with NACK packets, checks the
SHA-256 of the complete file, moves it into place and answers with FIN. In
protocol version 2 each chunk carries a digest of its own.

- `src/` is the verified library. It performs no input or output: datagrams,
  clock readings and the outcomes of file and socket operations go in, the next
  state and the next action come out. `receiver.rs` and `sender.rs` hold the two
  state machines, `recv.rs` and `send.rs` what they keep track of, `protocol.rs`
  and `init.rs` the wire format. `laws/` holds what is proved of them together.
- `app/` is the program around it: command line, sockets, files, signals.
- `tests/` runs the library, with whole transfers over a simulated network.

Three families of outside functions are trusted: SHA-256 of the `sha2` crate, JSON
objects of the `serde_json` crate, and UTF-8 decoding of the standard library.
