# studio_core

The core of a building-modelling studio: an element store with transactions and
undo/redo, element categories and their small enumerations, project parameters, door
families, materials and the material library, natural ordering of names, and the names
and labels the application shows. The library is written in Verus and proved against its
contracts.

Layout:

- `src/document.rs` — elements, transactions (`begin`, edits, `commit`/`rollback`), the undo
  and redo stacks, and the laws relating them (undo after commit restores, undo then redo
  is the identity, rebuilding from the listed elements gives the same elements, a raised
  stamp is new).
- `src/element.rs`, `src/params.rs`, `src/doors.rs`, `src/generate.rs`, `src/sketch.rs`,
  `src/detail.rs`, `src/compound.rs`, `src/plans.rs`, `src/sun.rs` — element identities and
  their text, categories, enumerations with labels and parsing, parameter definitions and
  keys, door families and loading door types, the ends and loops of a sketch, the order of
  an elevation marker's views, the day of the year.
- `src/material.rs`, `src/library.rs` — materials implied by names, built-in materials,
  texture addresses.
- `src/ops.rs`, `src/names.rs`, `src/natural.rs`, `src/units.rs` — grid and sheet numbering,
  marks, dates, scale labels, property rows, free names, the natural order of names, and
  lengths and areas as text.
- `src/text.rs`, `src/digits.rs` — character, white-space and decimal-digit helpers.
- `app/` — what stays outside the proofs: content stamps from a process-wide counter, the
  derived-data cache, running a transaction around a closure, levels by elevation, the
  sun's position, and serializable copies of the library's types.
- `tests/` — tests of the library from outside.

Element data and parameter values are type parameters of the store; the application's
element kinds, their geometry and its validation (floating point) are supplied by the
caller, which hands the store one check result per touched element when it commits.
