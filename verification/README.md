# Type matching for a front end

A verified library for the type matching of a compiler front end: the table of local types
that type inference fills (type parameters, the type values they are bound to, the classes of
unified type parameters and the classes that type parameter equations make), the unification
of two types with the reasons why they may not match, the uniqueness and sharing of types, and
the check of casts between types.

Layout:

- `src/types.rs`: flags, local types, trait names and type values, with their models.
- `src/text.rs`, `src/subst.rs`: the text of a type value and the substitution of type values
  for type parameters.
- `src/union_find.rs`: the classes of unified indices.
- `src/entries.rs`: type parameter entries, local type entries, equation class entries and
  types with their type parameters.
- `src/local_types.rs`: the table of local types and its operations.
- `src/env.rs`: the declarations that matching consults (type variables, traits, builtins).
- `src/type_matcher.rs`: matching, uniqueness and sharing, casting.
- `src/display.rs`: the text of a type value with the meaning that a table gives it.
- `src/laws.rs`: laws that relate several operations.
- `app/lib.rs`: `Display` for the reasons why types do not match.
