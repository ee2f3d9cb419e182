# env_function

Envelope functions (of time, previous value, frequency, velocity and four
parameters) written as s-expressions, such as `(linear (sin (const-mul arg
440.0)) 0.5 0.0)`.

`src/` is the verified library:

- `parser::lexer` turns text into tokens, tracking lines and columns and
  reporting errors with the text of the offending line;
- `parser::ast` parses tokens into s-expressions;
- `parser::convert` turns s-expressions into `EnvFunction` trees;
- `parser` chains the three (`parse_func`, `parse_env_batch`);
- `parser::filler` describes where lexing passes between tokens and what
  blanks and comments inserted there do;
- `parser::error` holds the errors and their messages;
- `func` holds the `EnvFunction` tree, whose numbers are kept as the decimal
  literals they were written as (`Numeral`).

Each stage is specified by a spec function (`lex`, `parse_at`, `convert`,
`parse_text`, `batch_text`) that its code is proved to compute. Proved properties include:
every numeral of a parsed function is a float literal (`lemma_parsed_numerals_are_literals`),
the lexer ends at the line and column reached by counting the input's
characters (`lemma_lex_position`), and the parser reads nothing after the
s-expression it returns (`lemma_parse_extend`), and blanks and comments
inserted between tokens change neither the tokens nor what the text parses
to (`lemma_fillers_between_tokens`,
`lemma_fillers_between_tokens_parse_the_same`).

`app/` holds what works on `f32` values: the `f32` form of the tree, its
evaluation with the polynomial approximations of the sigmoid, sine and
cosine, the algebraic simplifier, and the conversion of a parsed tree to
`f32` values.
