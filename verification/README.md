# whiskc

A compiler front end for Whisk, a small language of functions over `int`, `bool` and
`()`, written in Verus. Every stage is verified against its contract:

- `lexer`, `scan`, `token`, `location`: characters to tokens. The tokens of a source are
  a function of the source (`scan::nth_token`); peeking never consumes; tokens come in
  source order without overlap, and the end-of-file token repeats once reached.
- `parsing`: tokens to a syntax tree (`ast`), with a Pratt parser for expressions. Every
  parser only moves forward, takes at least one token when it succeeds and records at
  least one error when it fails; parsed expressions respect operator precedence, and
  operators of equal precedence group to the left (`parsing::expr::binds_above`); an
  operator expression reads exactly its tokens (`op_tokens`), and these two facts fix the
  tree (`lemma_op_parse_unique`). Lists record each element and report a missing
  separator just after the element before it.
- `symbol_table`, `ids`: nested tables of symbols under random identifiers; what is
  entered is read back.
- `ast_resolved`: name and type resolution, with the typing rules stated once
  (`ast_resolved::rules`). Resolution keeps operations as they are; constant folding
  (`compute`, `constant_fold`) is a separate pass that the command does not run.
- `cfg`: control-flow graphs built from the resolved tree (`cfg::construct`), and their
  text form (`cfg::display`). Blocks are only ever added, every branch goes to a block of
  its function, and registers and blocks are numbered by first mention; a function's
  graph is what building its body gives (`construct::function_lowered`).

`app/main.rs` is the command: it reads a source file, runs the stages, and writes the
text of the graph next to it with the extension `wir`.
