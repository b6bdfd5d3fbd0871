//! Printing every kind of node.

use prql_sql::ast::Quote;
use prql_sql::print::{expr_to_text, query_to_text, window_to_text};
use prql_sql::sql::{
    BinaryOperator, Cte, DataType, DateTimeField, Function, Ident, OrderByExpr, Select,
    SelectItem, SelectQuery, SqlExpr, SqlQuery, SqlValue, TableFactor, TableWithJoins, Top,
    UnaryOperator, WindowFrame, WindowFrameBound, WindowFrameUnits, WindowSpec, With,
};

fn plain(value: &str) -> Ident {
    Ident {
        value: value.to_string(),
        quote_style: None,
    }
}

fn name(value: &str) -> SqlExpr {
    SqlExpr::Identifier(plain(value))
}

fn boxed(value: &str) -> Box<SqlExpr> {
    Box::new(name(value))
}

#[test]
fn quotation_marks() {
    let quoted = |quote| {
        expr_to_text(&SqlExpr::Identifier(Ident {
            value: "a b".to_string(),
            quote_style: Some(quote),
        }))
    };
    assert_eq!(quoted(Quote::Single), "'a b'");
    assert_eq!(quoted(Quote::Double), "\"a b\"");
    assert_eq!(quoted(Quote::Backtick), "`a b`");
    assert_eq!(quoted(Quote::Bracket), "[a b]");
    assert_eq!(
        expr_to_text(&SqlExpr::CompoundIdentifier(vec![
            plain("a"),
            Ident {
                value: "B".to_string(),
                quote_style: Some(Quote::Double),
            },
        ])),
        "a.\"B\""
    );
}

#[test]
fn binary_operators() {
    let ops = [
        (BinaryOperator::Plus, "+"),
        (BinaryOperator::Minus, "-"),
        (BinaryOperator::Multiply, "*"),
        (BinaryOperator::Divide, "/"),
        (BinaryOperator::Modulo, "%"),
        (BinaryOperator::StringConcat, "||"),
        (BinaryOperator::Gt, ">"),
        (BinaryOperator::Lt, "<"),
        (BinaryOperator::GtEq, ">="),
        (BinaryOperator::LtEq, "<="),
        (BinaryOperator::Eq, "="),
        (BinaryOperator::NotEq, "<>"),
        (BinaryOperator::And, "AND"),
        (BinaryOperator::Or, "OR"),
        (BinaryOperator::BitwiseOr, "|"),
        (BinaryOperator::BitwiseAnd, "&"),
        (BinaryOperator::BitwiseXor, "^"),
    ];
    for (op, sign) in ops {
        assert_eq!(
            expr_to_text(&SqlExpr::BinaryOp {
                left: boxed("a"),
                op,
                right: boxed("b"),
            }),
            format!("a {} b", sign)
        );
    }
}

#[test]
fn unary_operators() {
    let ops = [
        (UnaryOperator::Plus, "+a"),
        (UnaryOperator::Minus, "-a"),
        (UnaryOperator::Not, "NOT a"),
        (UnaryOperator::PGBitwiseNot, "~a"),
        (UnaryOperator::PGSquareRoot, "|/a"),
        (UnaryOperator::PGCubeRoot, "||/a"),
        (UnaryOperator::PGPostfixFactorial, "a!"),
        (UnaryOperator::PGPrefixFactorial, "!!a"),
        (UnaryOperator::PGAbs, "@a"),
    ];
    for (op, text) in ops {
        assert_eq!(
            expr_to_text(&SqlExpr::UnaryOp {
                op,
                expr: boxed("a"),
            }),
            text
        );
    }
}

#[test]
fn other_expressions() {
    assert_eq!(expr_to_text(&SqlExpr::IsNull(boxed("a"))), "a IS NULL");
    assert_eq!(
        expr_to_text(&SqlExpr::IsNotNull(boxed("a"))),
        "a IS NOT NULL"
    );
    assert_eq!(expr_to_text(&SqlExpr::Nested(boxed("a"))), "(a)");
    assert_eq!(
        expr_to_text(&SqlExpr::Value(SqlValue::Number("5".to_string(), true))),
        "5L"
    );
    assert_eq!(
        expr_to_text(&SqlExpr::Value(SqlValue::Boolean(false))),
        "false"
    );
    assert_eq!(
        expr_to_text(&SqlExpr::Value(SqlValue::Interval {
            value: boxed("n"),
            leading_field: DateTimeField::Hour,
        })),
        "INTERVAL n HOUR"
    );
    assert_eq!(
        expr_to_text(&SqlExpr::TypedString {
            data_type: DataType::Timestamp,
            value: "x".to_string(),
        }),
        "TIMESTAMP 'x'"
    );
    let call = |distinct, special| {
        expr_to_text(&SqlExpr::Function(Function {
            name: vec![plain("s"), plain("f")],
            args: vec![name("a"), name("b")],
            distinct,
            special,
        }))
    };
    assert_eq!(call(false, false), "s.f(a, b)");
    assert_eq!(call(true, false), "s.f(DISTINCT a, b)");
    assert_eq!(call(false, true), "s.f");
}

#[test]
fn windows_with_orders() {
    let spec = WindowSpec {
        partition_by: vec![],
        order_by: vec![
            OrderByExpr {
                expr: name("a"),
                asc: Some(true),
                nulls_first: Some(true),
            },
            OrderByExpr {
                expr: name("b"),
                asc: Some(false),
                nulls_first: Some(false),
            },
        ],
        window_frame: Some(WindowFrame {
            units: WindowFrameUnits::Range,
            start_bound: WindowFrameBound::Preceding(Some(1)),
            end_bound: Some(WindowFrameBound::Following(None)),
        }),
    };
    assert_eq!(
        window_to_text(&spec),
        "ORDER BY a ASC NULLS FIRST, b DESC NULLS LAST \
         RANGE BETWEEN 1 PRECEDING AND UNBOUNDED FOLLOWING"
    );
}

fn select(column: &str, table: &str, top: Option<Top>) -> SelectQuery {
    SelectQuery {
        body: Select {
            distinct: false,
            top,
            projection: vec![SelectItem::UnnamedExpr(name(column))],
            from: vec![TableWithJoins {
                relation: TableFactor {
                    name: vec![plain(table)],
                    alias: None,
                },
                joins: vec![],
            }],
            selection: None,
            group_by: vec![],
            having: None,
        },
        order_by: vec![],
        limit: None,
        offset: None,
    }
}

#[test]
fn limits_at_the_top() {
    let top = |with_ties, percent, quantity| {
        query_to_text(&SqlQuery {
            with: None,
            query: select(
                "a",
                "t",
                Some(Top {
                    with_ties,
                    percent,
                    quantity,
                }),
            ),
        })
    };
    assert_eq!(
        top(true, true, Some(name("n"))),
        "SELECT TOP (n) PERCENT WITH TIES a FROM t"
    );
    assert_eq!(top(false, false, None), "SELECT TOP a FROM t");
}

#[test]
fn named_queries() {
    let with = |recursive| {
        query_to_text(&SqlQuery {
            with: Some(With {
                recursive,
                cte_tables: vec![Cte {
                    alias: plain("c"),
                    query: select("a", "t", None),
                }],
            }),
            query: select("b", "c", None),
        })
    };
    assert_eq!(with(false), "WITH c AS (SELECT a FROM t) SELECT b FROM c");
    assert_eq!(
        with(true),
        "WITH RECURSIVE c AS (SELECT a FROM t) SELECT b FROM c"
    );
}
