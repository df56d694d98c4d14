# sha256

A SHA-256 message digest written for small targets, verified with Verus.

- `src/spec.rs` defines SHA-256 as in FIPS 180-4: the word functions, the message
  schedule, the compression of a block, the padding and the digest of a message.
- `src/bytes.rs` converts between big-endian bytes and words, counts message bits, and
  renders bytes in hexadecimal.
- `src/buffer.rs` collects bytes into 64-byte blocks; `src/engine.rs` holds the
  compression state and the engine that pads and finishes a message.
- `src/digest.rs` holds the `Digest` interface, the `Sha256` digest, its abstract state
  `Sha256Model`, and the laws that relate its operations.
- `app/lib.rs` is the C entry point `hash`, which takes raw pointers.

The functions of the library are proved against their contracts: a new `Sha256`, given a
message and asked for its result, writes the SHA-256 digest of the message, and
`result_str` returns that digest in lower-case hexadecimal.
