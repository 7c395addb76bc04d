# popvars

Populates a text template once for each row of a table of variables.

A template is plain text with `{{ expressions }}`, which read a field of the current
row or of a record that the row refers to (`{{country.code}}`), and `{@ blocks @}`,
which loop over the records of a table (`{@ for c in country where team = "Allies" @}`)
or test a condition (`{@ if age >= 18 @}`). Tables come from CSV text: the `vars`
table gives one output per row, and named tables are found by their `$id` field.

## Layout

- `src/expr/grammar.rs` states the template grammar over sequences of characters;
  `src/expr/parsing.rs` is the parser, proved to follow it.
- `src/expr/eval.rs` states and implements what expressions and comparisons read.
- `src/definition.rs` and `src/table.rs` hold the tables, the search by `$id` and
  the selection of the records that a loop goes over; CSV text is read with the
  `csv` crate.
- `src/template.rs` compiles a parsed template and populates it; `src/lib.rs`
  populates it with every row of `vars`.
- `app/main.rs` is the command line program: it reads the files and prints the
  outputs.
