//! The messages of errors.

use prql_sql::error::Error;

#[test]
fn messages() {
    let messages = [
        (Error::NoTables, "No tables?"),
        (Error::NoPipelines, "No pipelines?"),
        (Error::FrameNotProvided, "frame not provided?"),
        (Error::JoinWithoutFrom, "Cannot use `join` without `from`"),
        (Error::RangeEndBeforeStart, "Range end is before its start."),
        (
            Error::RangeRequiresBothBounds,
            "range requires both bounds to be used this way",
        ),
        (Error::NotALiteral, "expected a literal"),
        (Error::NotAnInteger, "expected an integer"),
        (
            Error::NotASinglePartIdent,
            "join expected An identifier with only one part; no `.`, \
             but found A multipart identifier",
        ),
        (
            Error::UnsupportedIntervalUnit("weeks".to_string()),
            "Unsupported interval unit: weeks",
        ),
        (
            Error::UnsupportedExpr("Empty".to_string()),
            "Can't convert to sql_ast::Expr; Empty",
        ),
        (Error::Pass("no such column".to_string()), "no such column"),
    ];
    for (error, message) in messages {
        assert_eq!(error.message(), message);
    }
}
