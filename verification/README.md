# stellar_guesser

The verified core of Stellar Guesser, a quiz about the night sky.

`src/` is a Verus library; every function in it carries a contract that
Verus proves:

- `parser`, `filter`, `check`: the question filter language
  (`OR(AND(CONSTELLATION(VIR, LEP), DEC(17, 98)), CATALOGUE(MESSIER))`), its
  parser and error messages, and whether a sky object meets a filter.
- `query`, `packs`: the lines of a question pack query, the conditions built
  from the basic settings, and the stored form of question packs, with a
  proof that reading the stored form gives the packs back whenever no name,
  query, description or settings text holds a divider that the reading
  splits it at (`&|||&` and `&||||&` for the first three, all four for
  settings) or forms one with the divider next to it; and a proof that a
  query line reads back as it was written.
- `basic_lines`: a proof that every line the basic question settings
  generate splits into question type, settings and filter, and that its
  filter parses.
- `names`: expansion of designations with optional parts (`1{ 2}{ 3}`), with
  a proof that a name written `seg0{t0}seg1...` has one variant per mask,
  in mask order.
- `answers`, `questions`: the names an object may be given as an answer,
  the judgement of typed answers, and how each kind of question is answered
  and moved on from.
- `textures`, `cube`: mipmap chains and the cube's index buffer.
- `game`, `input`, `setup`: game progress, the switched-off
  constellations, key events and held keys, the first-start walkthrough.
- `renderers`, `sky`: which drawn objects are hidden, and the categories and
  colours of the sky data files.
- `settings`, `files`, `authors`, `enums`, `objects`, `text`: stored
  settings lists, directory listings and the check that a file lies inside
  its base directory, the credits line, enumerations and string helpers.

`app/` holds what stays outside the proofs: file and console I/O, serde
records, and the comparisons of floating-point coordinates and magnitudes.
`tests/` runs the library on concrete values.
