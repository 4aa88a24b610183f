# jewel

Vectors of byte lanes laid out like 256-bit SIMD registers, verified with Verus.

A vector of `len` bytes is stored in `ceil(len / 32)` words of 32 one-byte
lanes. The `Jewel` trait states every operation over the stored lanes as a
`Seq<u8>`; `AvxNx32x8` implements it.

- `src/lanes.rs`: the lane model and the per-lane operations.
- `src/vector.rs`: the `Jewel` trait with its contracts, and `AvxNx32x8`.
- `src/load.rs`: the buffered run write behind `slow_loadu`, and its proofs.
- `src/count.rs`: counting agreeing positions, with the blocked lane counters.
- `src/render.rs`: the text form of a vector.
- `src/laws.rs`: laws relating the operations.
