# Boolean functions

A library for Boolean functions represented as truth tables and expression trees,
with a tokenizer and a parser for Boolean expressions, CSV reading and writing of
tables, and drawing of tables as text. The functions of the library are verified with
Verus against contracts over mathematical models, except a few trusted wrappers whose
contracts Verus believes: `string_push` (`String::push`), `read_csv_records` (the `csv`
reader), `draw_ascii`, `draw_modern`, `draw_markdown` and `draw_empty` (`tabled`), `biguint_from_usize` (`num_bigint::BigUint::from`), and
`multipeek_of`, `multipeek_peek`, `multipeek_reset` and `multipeek_next`
(`itertools::MultiPeek`). The text that `tabled` draws, the
records that `csv` reads and what a `MultiPeek` holds are named by uninterpreted spec
functions.

## Layout

- `src/parser/`: the tokenizer (`tokenize`) and the parser (`parse_tokens`, `parse`)
  of expressions such as `a & (b | !c)`, each specified by a spec function of the text.
- `src/expressions.rs`: expression trees, their value on a valuation and their variables.
- `src/table/`: truth tables: evaluation, negation and the binary operations,
  restriction, substitution, quantification and derivatives, essential inputs,
  semantic comparison, the iterators over domain, image, relation and support, the
  conversions from and to expressions, CSV, and drawing.
- `src/traits.rs`: the operations that Boolean functions share (`BooleanFunction`,
  `Evaluate`, `GatherLiterals`, `PowerSet`, `SemanticEq`, `Implication`, `Equality`,
  `Parse`); `src/table/boolean_function.rs` implements `BooleanFunction` for tables.
- `src/power_set.rs`: all the valuations of a set of variables.
- `src/valuation.rs`, `src/literals.rs`, `src/utils.rs`: valuations, sorted sets of
  names, and the numbering of rows.
- `app/`: reading a table from a CSV file, `Display` for tables, and error types with
  `std::error::Error`.

The laws of the library (what the operations keep, and how evaluation of a result
relates to evaluation of its arguments) are public proof functions named `law_...`.
