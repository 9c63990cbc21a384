# send_multipart

Builds `multipart/form-data` request bodies, verified with Verus.

- `src/part.rs`, `src/multipart.rs`: the `Part` and `Multipart` builders and the writer of the body.
- `src/encoding.rs`: the wire format as spec functions over bytes; the writer's contracts speak of it.
- `src/boundary.rs`: boundaries from a `BoundaryGenerator`, a xorshift64 state seeded from std's
  `RandomState`; each boundary continues the generator's sequence.
- `src/header.rs`, `src/buffer.rs`: what the library relies on from `http` and `bytes`.
- `src/laws.rs`, `src/framing.rs`: properties of the library as a whole, among them that a body
  determines the parts it was written from.
- `app/`: the error type with `std::error::Error` (through `thiserror`), and a generator per
  thread behind `generate_random_boundary`, `empty_multipart` and `multipart_from_parts`.
