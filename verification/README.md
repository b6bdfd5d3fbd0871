# prql-sql

Translation of resolved PRQL queries into SQL, verified with Verus.

A query arrives as a list of tables, each a pipeline of transforms. The library cuts the
pipelines into pieces that each fit into one `SELECT`, names the pieces, translates each of
them into a SQL tree, and prints the whole. `sqlparser` prints the tree and `sqlformat` lays
the text out; what is taken on trust of these two crates stands in `src/print.rs`.

Three passes over pipelines are the caller's: unfolding groups, finding the takes in groups
that amount to distinct rows, and materializing columns. `query::translate` takes them as
functions. It asks that each pass can be called on what the passes before it may leave of the
query, and that what may be left in the end can be translated. It can if its expressions do not
coalesce and its numbers do not overflow: that is `law_domain` for expressions, and
`law_domain_of_a_select`, `law_domain_of_tables` and `law_domain_of_queries` for the rest. Of
every result that the passes may lead to it then says what the result is.

- `src/ast.rs`: the PRQL tree.
- `src/error.rs`: errors, and outcomes of a translation.
- `src/text.rs`: text as a sequence of characters.
- `src/sql.rs`: the SQL tree, and how strongly its expressions bind.
- `src/ident.rs`: identifiers and their quoting.
- `src/print.rs`: printing.
- `src/expr.rs`: expressions.
- `src/range.rs`: the ranges of `take`.
- `src/pipeline.rs`: cutting pipelines and naming the pieces.
- `src/query.rs`: whole queries.
- `app/`: floating point literals and printable errors.

Properties that span functions are stated and proved as functions whose names start with
`law_`, at the end of the module they belong to.
