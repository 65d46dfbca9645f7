# mpz_garble

Garbled circuits, authenticated garbling and the prime fields around them, verified with Verus.

- `src/half_gates`: half-gates garbling (ZRE15), with a garbler whose wires share slots
- `src/three_halves`: three-halves garbling (RR21)
- `src/auth_gen.rs`, `src/auth_eval.rs`, `src/auth_laws.rs`: authenticated garbling (WRK17)
- `src/fpre.rs`, `src/triples.rs`: authenticated bits and triples
- `src/fcp`, `src/block_vole.rs`: compressed preprocessing and vector oblivious linear evaluation
- `src/gf2_128.rs`, `src/gf2_field.rs`: the field with 2^128 elements
- `src/store`: memory stores and the messages of a flush
- `src/fields`: the Goldilocks and Mersenne fields, transforms and interpolation

Hashes are closures that the caller hands in; what a garbled circuit evaluates to is proved for
every hash. What holds across functions is stated in the `laws` modules. Random draws go through
`src/rng.rs`.

`tests` runs the library, `app` holds transport, error messages, threads and oblivious transfer.
