# poseidon_tweak

A tweakable hash function over the KoalaBear field, made of the Poseidon2 permutation, with
contracts that Verus proves.

- `src/field.rs`, `packed.rs`, `array.rs`: field elements, packed ones, arrays of them
- `src/digits.rs`, `tweak.rs`: integers in base p, and tweaks written with them
- `src/permutation.rs`, `compress.rs`, `sponge.rs`: the permutation and what is built on it
- `src/tweak_hash.rs`, `consistency.rs`: the hash function, chains, and lengths that fit together
- `src/prf.rs`, `parallel.rs`, `tree.rs`, `simd_utils.rs`: layers and leaves of the tree, in batches
- `src/random.rs`: random parameters and hash values

Every contract of a batched computation states the result lane by lane as the scalar hash. The
permutation, the packed field, the thread pool and the random generator come from other crates;
the functions that call them are marked `external_body`, and their doc comments say what is
relied on.

`app/` draws random values from any generator.
