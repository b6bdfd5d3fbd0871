//! Translation of resolved PRQL queries into SQL.
//!
//! A query arrives as a list of tables, each a pipeline of transforms. It is cut into
//! pipelines that each fit into one `SELECT`, each of those becomes a SQL query, and the
//! whole is printed by `sqlparser` and laid out by `sqlformat`.
//!
//! - [`ast`]: the PRQL tree that is translated.
//! - [`error`]: the errors, and the outcome of a translation in specifications.
//! - [`text`]: text as a sequence of characters: splitting, replacing, numbers.
//! - [`sql`]: the SQL tree that is produced, and how strongly its expressions bind.
//! - [`ident`]: identifiers and their quoting.
//! - [`print`]: printing a SQL tree.
//! - [`expr`]: expressions.
//! - [`range`]: the ranges of `take`.
//! - [`pipeline`]: cutting pipelines, and naming the pieces.
//! - [`query`]: whole queries.
//! - [`reading`]: laws of translated expressions: what each has to do with its parts.
//! - [`clauses`]: laws of translated queries: which transforms each clause comes from.

pub mod ast;
pub mod clauses;
pub mod error;
pub mod expr;
pub mod ident;
pub mod pipeline;
pub mod print;
pub mod query;
pub mod range;
pub mod reading;
pub mod sql;
pub mod text;
