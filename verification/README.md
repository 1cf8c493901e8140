# tonemap

Headroom-adaptive tone mapping (SMPTE ST 2094-50 Section 6), with the tone
mapper's decisions verified by Verus.

- `src/binary32.rs`: single-precision numbers held as IEEE-754 bit patterns, the
  number each pattern denotes, and comparisons proved to follow that number.
- `src/select.rs`: the stable ordering of candidate rules by headroom and the
  choice of the two rules that bracket the target headroom.
- `src/tonemap.rs`: active rules, the tone mapper (rules, weights, identity
  decision) and what it owes a pixel and a buffer.
- `src/wrapper.rs`: the boxed handle handed to C++.
- `app/`: the floating-point arithmetic (component mixing, gain curves, weight
  interpolation, exponentiation) and the C++ bridge, on top of the project's
  `pchip` (gain curves) and `utils` (metadata types and validation) modules.
