# frogbyte_ecs

Entity Component System for Frogbyte, written in Verus: every function of the
library carries a contract that the verifier proves.

- `src/entity/`: generational `Entity` handles and the `EntityAllocator`
  that creates, removes and reuses entity slots.
- `src/component/`: the `Component` marker trait, type identity and
  type-erased values (`erased.rs`, the trusted boundary to `std::any`),
  the single-type column `BlobVec`, and `ComponentSet`, the component
  tuples that fill an archetype row.
- `src/archetype/`: `ArchetypeKey`, the canonical sorted set of component
  types, and `Archetype`, which keeps entity rows and component rows aligned.
- `src/typed_storage.rs`: `MyStorage`, a statically typed growable buffer.
- `tests/`: the test suite. `app/`: the program, and the component types with
  floating-point fields.
