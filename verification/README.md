# colourme

Renders configuration templates from a colour scheme. A template holds
expressions such as `{{ hex:darken(colors.primary, 0.5) || hex:#000000 }}`;
each is tokenized, parsed into alternatives, and evaluated against the scheme's
TOML table, and the first alternative that succeeds replaces the expression.

The library under `src/` is verified with Verus:

- `lexer`, `token`: tokens of an expression (`lex_from` is the model).
- `parser`, `ast`: alternatives separated by `||` (`spec_parse`).
- `toml_model`: the TOML values that evaluation reads, and reading them from text.
- `value`, `functions`, `evaluator`: evaluation of an expression and its format.
- `engine`: resolution of a block, trying alternatives in order.
- `template`: finding, resolving and substituting the expressions of a template.
- `replay`: the laws that make the request/answer protocol sound.
- `config`, `colourscheme`: the configuration entries (from TOML text) and the
  built-in scheme.
- `text`: decimal notation, escaping and string helpers.

Colour arithmetic and single-precision numbers are not computed by the library:
evaluation hands out a `Request` and is run again with the `Answer` appended,
until it is done. `app/main.rs` performs the requests with the colour library,
reads the files and writes the results.
