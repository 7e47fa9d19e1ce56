# hiker

A small language for stating architectural intent in `.tent` files — sorts,
typed relations, and laws over them — with a checker that makes incoherent
intent a compile error, an interpreter for laws, and a conformance pass that
evaluates the laws over facts extracted from a real codebase.

Layout:

- `src/` — the verified library: `lexer` (with its layout laws in `layout`), `parser` (with the AST in `ast`),
  `checker`, `eval`, `facts`, `verify`, the command pipelines in `pipeline`,
  the target list in `backends`, and message-building helpers in `text`.
  Each stage's behaviour is stated as specification functions over the
  models of its inputs, and each public function is proved to agree with
  them; the `law_*` proof functions state properties across stages.
- `app/` — the command-line program (`check`, `gen`, `verify`): file reading,
  JSON decoding of `facts.json`, and printing.
- `tests/` — tests of the library on concrete inputs.
