//! Expressions.

use prql_sql::ast::{
    BinOp, ColumnSort, Dialect, Expr, ExprKind, FuncCall, InterpolateItem, Interval, Literal,
    Quote, Range, SortDirection, UnOp, WindowKind, Windowed,
};
use prql_sql::error::Error;
use prql_sql::expr::{
    expr_of_i64, filter_of_filters, range_ident, s_string_ident, top_of_i64,
    translate_column_sort, translate_expr_kind, translate_func_call, translate_operand,
    translate_select_item, try_into_exprs, try_into_is_null, try_into_window_frame, window_ident,
};
use prql_sql::print::{expr_to_text, window_to_text};
use prql_sql::sql::{
    BinaryOperator, DataType, DateTimeField, Function, Ident, OrderByExpr, SelectItem, SqlExpr,
    SqlValue, Top, UnaryOperator, WindowFrame, WindowFrameBound, WindowFrameUnits, WindowSpec,
};

fn ident(name: &str) -> Expr {
    Expr::from(ExprKind::Ident(name.to_string()))
}

fn integer(n: i64) -> Expr {
    Expr::from(ExprKind::Literal(Literal::Integer(n)))
}

fn null() -> Expr {
    Expr::from(ExprKind::Literal(Literal::Null))
}

fn binary(left: Expr, op: BinOp, right: Expr) -> Expr {
    Expr::from(ExprKind::Binary {
        left: Box::new(left),
        op,
        right: Box::new(right),
    })
}

fn unary(op: UnOp, expr: Expr) -> Expr {
    Expr::from(ExprKind::Unary {
        op,
        expr: Box::new(expr),
    })
}

fn plain(value: &str) -> Ident {
    Ident {
        value: value.to_string(),
        quote_style: None,
    }
}

fn sql(expr: &Expr) -> SqlExpr {
    translate_expr_kind(&expr.kind, &Dialect::Generic.handler()).unwrap()
}

fn text(expr: &Expr) -> String {
    expr_to_text(&sql(expr))
}

fn error(expr: &Expr) -> Error {
    translate_expr_kind(&expr.kind, &Dialect::Generic.handler()).unwrap_err()
}

#[test]
fn test_try_from_s_string_to_expr() -> Result<(), Error> {
    let dialect = Dialect::Generic.handler();
    let ast = Expr::from(ExprKind::SString(vec![
        InterpolateItem::String("SUM(".to_string()),
        InterpolateItem::Expr(Box::new(ident("col"))),
        InterpolateItem::String(")".to_string()),
    ]));
    let expr: SqlExpr = translate_expr_kind(&ast.kind, &dialect)?;
    assert_eq!(
        expr,
        SqlExpr::Identifier(Ident {
            value: "SUM(col)".to_string(),
            quote_style: None,
        })
    );
    Ok(())
}

#[test]
fn literals() {
    let literal = |l: Literal| text(&Expr::from(ExprKind::Literal(l)));
    assert_eq!(literal(Literal::Null), "NULL");
    assert_eq!(literal(Literal::Integer(-12)), "-12");
    assert_eq!(literal(Literal::Float("3.25".to_string())), "3.25");
    assert_eq!(literal(Literal::Boolean(true)), "true");
    assert_eq!(literal(Literal::String("it's".to_string())), "'it''s'");
    assert_eq!(
        literal(Literal::Date("2011-02-01".to_string())),
        "DATE '2011-02-01'"
    );
    assert_eq!(literal(Literal::Time("08:30".to_string())), "TIME '08:30'");
    assert_eq!(
        literal(Literal::Timestamp("2011-02-01T08:30".to_string())),
        "TIMESTAMP '2011-02-01T08:30'"
    );
    assert_eq!(
        sql(&Expr::from(ExprKind::Literal(Literal::Date(
            "2011-02-01".to_string()
        )))),
        SqlExpr::TypedString {
            data_type: DataType::Date,
            value: "2011-02-01".to_string(),
        }
    );
}

#[test]
fn operators() {
    let ops = [
        (BinOp::Mul, "*"),
        (BinOp::Div, "/"),
        (BinOp::Mod, "%"),
        (BinOp::Add, "+"),
        (BinOp::Sub, "-"),
        (BinOp::Eq, "="),
        (BinOp::Ne, "<>"),
        (BinOp::Gt, ">"),
        (BinOp::Lt, "<"),
        (BinOp::Gte, ">="),
        (BinOp::Lte, "<="),
        (BinOp::And, "AND"),
        (BinOp::Or, "OR"),
    ];
    for (op, sign) in ops {
        assert_eq!(
            text(&binary(ident("a"), op, ident("b"))),
            format!("a {} b", sign)
        );
    }
    assert_eq!(text(&unary(UnOp::Neg, ident("a"))), "-a");
    assert_eq!(text(&unary(UnOp::Not, ident("a"))), "NOT a");
    assert_eq!(text(&ident("t.Name")), "t.\"Name\"");
}

#[test]
fn operands_in_parentheses() {
    let sum = || binary(ident("a"), BinOp::Add, ident("b"));
    assert_eq!(
        text(&binary(sum(), BinOp::Mul, ident("c"))),
        "(a + b) * c"
    );
    assert_eq!(
        text(&binary(ident("c"), BinOp::Mul, sum())),
        "c * (a + b)"
    );
    assert_eq!(
        text(&binary(
            binary(ident("a"), BinOp::Mul, ident("b")),
            BinOp::Add,
            ident("c")
        )),
        "a * b + c"
    );
    assert_eq!(text(&unary(UnOp::Neg, sum())), "-(a + b)");
    assert_eq!(
        text(&unary(
            UnOp::Not,
            binary(ident("a"), BinOp::Or, ident("b"))
        )),
        "NOT (a OR b)"
    );
    assert_eq!(
        text(&unary(UnOp::Not, binary(ident("a"), BinOp::Eq, integer(1)))),
        "NOT a = 1"
    );
    // Operands of the same strength are not put in parentheses.
    assert_eq!(
        text(&binary(ident("c"), BinOp::Sub, sum())),
        "c - a + b"
    );
}

#[test]
fn operand_strength() {
    let dialect = Dialect::Generic.handler();
    let sum = binary(integer(1), BinOp::Add, integer(2));
    let strength = BinaryOperator::Plus.binding_strength();
    assert_eq!(strength, 10);
    let bare = translate_operand(&sum.kind, strength, &dialect).unwrap();
    assert_eq!(expr_to_text(&bare), "1 + 2");
    let nested = translate_operand(&sum.kind, strength + 1, &dialect).unwrap();
    assert_eq!(expr_to_text(&nested), "(1 + 2)");
}

#[test]
fn strengths() {
    let value = || Box::new(SqlExpr::Value(SqlValue::Null));
    for op in [
        BinaryOperator::Modulo,
        BinaryOperator::Multiply,
        BinaryOperator::Divide,
    ] {
        assert_eq!(op.binding_strength(), 11);
    }
    for op in [BinaryOperator::Minus, BinaryOperator::Plus] {
        assert_eq!(op.binding_strength(), 10);
    }
    for op in [
        BinaryOperator::Gt,
        BinaryOperator::Lt,
        BinaryOperator::GtEq,
        BinaryOperator::LtEq,
        BinaryOperator::Eq,
        BinaryOperator::NotEq,
    ] {
        assert_eq!(op.binding_strength(), 6);
    }
    assert_eq!(BinaryOperator::And.binding_strength(), 3);
    assert_eq!(BinaryOperator::Or.binding_strength(), 2);
    assert_eq!(BinaryOperator::StringConcat.binding_strength(), 9);
    assert_eq!(UnaryOperator::Minus.binding_strength(), 13);
    assert_eq!(UnaryOperator::Plus.binding_strength(), 13);
    assert_eq!(UnaryOperator::Not.binding_strength(), 4);
    assert_eq!(UnaryOperator::PGAbs.binding_strength(), 9);
    let like = |negated| SqlExpr::Like {
        negated,
        expr: value(),
        pattern: value(),
        escape_char: None,
    };
    assert_eq!(like(false).binding_strength(), 7);
    let ilike = SqlExpr::ILike {
        negated: false,
        expr: value(),
        pattern: value(),
        escape_char: Some('#'),
    };
    assert_eq!(ilike.binding_strength(), 7);
    assert_eq!(SqlExpr::IsNull(value()).binding_strength(), 5);
    assert_eq!(SqlExpr::IsNotNull(value()).binding_strength(), 5);
    assert_eq!(SqlExpr::Nested(value()).binding_strength(), 20);
    assert_eq!(expr_to_text(&like(true)), "NULL NOT LIKE NULL");
    assert_eq!(expr_to_text(&ilike), "NULL ILIKE NULL ESCAPE '#'");
}

#[test]
fn comparison_with_null() {
    assert_eq!(text(&binary(ident("a"), BinOp::Eq, null())), "a IS NULL");
    assert_eq!(text(&binary(null(), BinOp::Eq, ident("a"))), "a IS NULL");
    assert_eq!(
        text(&binary(ident("a"), BinOp::Ne, null())),
        "a IS NOT NULL"
    );
    assert_eq!(text(&binary(null(), BinOp::Eq, null())), "NULL IS NULL");
    assert_eq!(
        text(&binary(
            binary(ident("a"), BinOp::And, ident("b")),
            BinOp::Ne,
            null()
        )),
        "(a AND b) IS NOT NULL"
    );
    assert_eq!(
        text(&binary(
            binary(ident("a"), BinOp::Add, ident("b")),
            BinOp::Eq,
            null()
        )),
        "a + b IS NULL"
    );
    assert_eq!(text(&binary(ident("a"), BinOp::Gt, null())), "a > NULL");
    let dialect = Dialect::Generic.handler();
    assert_eq!(
        try_into_is_null(BinOp::Eq, &ident("a"), &ident("b"), &dialect),
        Ok(None)
    );
    assert_eq!(
        try_into_is_null(BinOp::Add, &ident("a"), &null(), &dialect),
        Ok(None)
    );
}

#[test]
fn ranges_between_values() {
    let range = |start: Option<i64>, end: Option<i64>| {
        Expr::from(ExprKind::Range(Range::from_ints(start, end)))
    };
    assert_eq!(text(&range(Some(1), Some(5))), "1 AND 5");
    assert_eq!(error(&range(None, Some(5))), Error::RangeRequiresBothBounds);
    assert_eq!(error(&range(Some(1), None)), Error::RangeRequiresBothBounds);
    assert_eq!(
        range_ident("a", "b"),
        SqlExpr::Identifier(plain("a AND b"))
    );
}

#[test]
fn interpolated_strings() {
    let items = || {
        vec![
            InterpolateItem::String("hello ".to_string()),
            InterpolateItem::Expr(Box::new(binary(ident("a"), BinOp::Add, integer(1)))),
        ]
    };
    assert_eq!(text(&Expr::from(ExprKind::SString(items()))), "hello a + 1");
    assert_eq!(
        text(&Expr::from(ExprKind::FString(items()))),
        "CONCAT('hello ', a + 1)"
    );
    assert_eq!(
        s_string_ident(&vec!["a".to_string(), " b".to_string(), String::new()]),
        SqlExpr::Identifier(plain("a b"))
    );
    let failing = vec![
        InterpolateItem::String("x".to_string()),
        InterpolateItem::Expr(Box::new(Expr::from(ExprKind::Range(Range::unbounded())))),
    ];
    assert_eq!(
        error(&Expr::from(ExprKind::FString(failing))),
        Error::RangeRequiresBothBounds
    );
}

#[test]
fn intervals() {
    let interval = |n: i64, unit: &str| {
        Expr::from(ExprKind::Interval(Interval {
            n,
            unit: unit.to_string(),
        }))
    };
    assert_eq!(text(&interval(10, "years")), "INTERVAL 10 YEAR");
    assert_eq!(text(&interval(2, "months")), "INTERVAL 2 MONTH");
    assert_eq!(text(&interval(3, "days")), "INTERVAL 3 DAY");
    assert_eq!(text(&interval(4, "hours")), "INTERVAL 4 HOUR");
    assert_eq!(text(&interval(5, "minutes")), "INTERVAL 5 MINUTE");
    assert_eq!(text(&interval(6, "seconds")), "INTERVAL 6 SECOND");
    assert_eq!(
        sql(&interval(3, "days")),
        SqlExpr::Value(SqlValue::Interval {
            value: Box::new(SqlExpr::Value(SqlValue::Number("3".to_string(), false))),
            leading_field: DateTimeField::Day,
        })
    );
    assert_eq!(
        error(&interval(1, "weeks")),
        Error::UnsupportedIntervalUnit("weeks".to_string())
    );
}

#[test]
fn unsupported_expressions_are_shown() {
    assert_eq!(
        error(&Expr::from(ExprKind::Empty)),
        Error::UnsupportedExpr("Empty".to_string())
    );
    assert_eq!(
        error(&Expr::from(ExprKind::List(vec![]))),
        Error::UnsupportedExpr("List([])".to_string())
    );
}

fn windowed(sort: Vec<ColumnSort>, window: (WindowKind, Range)) -> Expr {
    Expr::from(ExprKind::Windowed(Windowed {
        expr: Box::new(Expr::from(ExprKind::SString(vec![
            InterpolateItem::String("SUM(x)".to_string()),
        ]))),
        group: vec![ident("g")],
        sort,
        window,
    }))
}

fn by_day() -> Vec<ColumnSort> {
    vec![ColumnSort {
        direction: SortDirection::Desc,
        column: ident("day"),
    }]
}

#[test]
fn windows() {
    assert_eq!(
        text(&windowed(vec![], (WindowKind::Rows, Range::unbounded()))),
        "SUM(x) OVER (PARTITION BY g)"
    );
    assert_eq!(
        text(&windowed(
            by_day(),
            (WindowKind::Range, Range::from_ints(None, Some(0)))
        )),
        "SUM(x) OVER (PARTITION BY g ORDER BY day DESC)"
    );
    // All rows are not what SQL assumes of a sorted window.
    assert_eq!(
        text(&windowed(by_day(), (WindowKind::Rows, Range::unbounded()))),
        "SUM(x) OVER (PARTITION BY g ORDER BY day DESC \
         ROWS BETWEEN UNBOUNDED PRECEDING AND UNBOUNDED FOLLOWING)"
    );
    assert_eq!(
        text(&windowed(
            vec![],
            (WindowKind::Range, Range::from_ints(Some(-2), Some(3)))
        )),
        "SUM(x) OVER (PARTITION BY g RANGE BETWEEN 2 PRECEDING AND 3 FOLLOWING)"
    );
    assert_eq!(
        window_ident("f(x)", "ORDER BY y"),
        SqlExpr::Identifier(plain("f(x) OVER (ORDER BY y)"))
    );
    let frame = Range {
        start: Some(Box::new(ident("a"))),
        end: None,
    };
    assert_eq!(
        error(&windowed(vec![], (WindowKind::Rows, frame))),
        Error::NotALiteral
    );
}

#[test]
fn window_frames() {
    assert_eq!(
        try_into_window_frame(&(WindowKind::Rows, Range::from_ints(Some(-3), Some(0)))),
        Ok(WindowFrame {
            units: WindowFrameUnits::Rows,
            start_bound: WindowFrameBound::Preceding(Some(3)),
            end_bound: Some(WindowFrameBound::CurrentRow),
        })
    );
    assert_eq!(
        try_into_window_frame(&(WindowKind::Range, Range::from_ints(None, Some(4)))),
        Ok(WindowFrame {
            units: WindowFrameUnits::Range,
            start_bound: WindowFrameBound::Preceding(None),
            end_bound: Some(WindowFrameBound::Following(Some(4))),
        })
    );
    assert_eq!(
        try_into_window_frame(&(
            WindowKind::Rows,
            Range {
                start: Some(Box::new(null())),
                end: None,
            }
        )),
        Err(Error::NotAnInteger)
    );
    let spec = WindowSpec {
        partition_by: vec![sql(&ident("a")), sql(&ident("b"))],
        order_by: vec![],
        window_frame: Some(WindowFrame {
            units: WindowFrameUnits::Rows,
            start_bound: WindowFrameBound::CurrentRow,
            end_bound: None,
        }),
    };
    assert_eq!(window_to_text(&spec), "PARTITION BY a, b ROWS CURRENT ROW");
}

#[test]
fn function_calls() {
    let call = FuncCall {
        name: Box::new(ident("lower")),
        args: vec![ident("a"), integer(2)],
    };
    let function = translate_func_call(&call, &Dialect::Generic.handler()).unwrap();
    assert_eq!(
        function,
        Function {
            name: vec![plain("lower")],
            args: vec![sql(&ident("a")), sql(&integer(2))],
            distinct: false,
            special: false,
        }
    );
    assert_eq!(expr_to_text(&SqlExpr::Function(function)), "lower(a, 2)");
}

#[test]
fn lists_and_orders() {
    let dialect = Dialect::Generic.handler();
    assert_eq!(
        try_into_exprs(&vec![ident("a"), integer(1)], &dialect),
        Ok(vec![sql(&ident("a")), sql(&integer(1))])
    );
    let failing = vec![ident("a"), Expr::from(ExprKind::Empty)];
    assert_eq!(
        try_into_exprs(&failing, &dialect),
        Err(Error::UnsupportedExpr("Empty".to_string()))
    );
    let order = |direction| {
        translate_column_sort(
            &ColumnSort {
                direction,
                column: ident("a"),
            },
            &dialect,
        )
    };
    assert_eq!(
        order(SortDirection::Asc),
        Ok(OrderByExpr {
            expr: sql(&ident("a")),
            asc: None,
            nulls_first: None,
        })
    );
    assert_eq!(
        order(SortDirection::Desc),
        Ok(OrderByExpr {
            expr: sql(&ident("a")),
            asc: Some(false),
            nulls_first: None,
        })
    );
}

#[test]
fn columns_with_names() {
    let mysql = Dialect::MySql.handler();
    assert_eq!(
        translate_select_item(&ident("a"), &mysql),
        Ok(SelectItem::UnnamedExpr(sql(&ident("a"))))
    );
    let named = Expr {
        kind: ExprKind::Ident("a".to_string()),
        alias: Some("The A".to_string()),
    };
    assert_eq!(
        translate_select_item(&named, &mysql),
        Ok(SelectItem::ExprWithAlias {
            expr: sql(&ident("a")),
            alias: Ident {
                value: "The A".to_string(),
                quote_style: Some(Quote::Backtick),
            },
        })
    );
}

#[test]
fn conjunctions() {
    let dialect = Dialect::Generic.handler();
    assert_eq!(filter_of_filters(vec![], &dialect), Ok(None));
    let a = binary(ident("a"), BinOp::Or, ident("b"));
    let b = binary(ident("c"), BinOp::Eq, null());
    let c = binary(ident("d"), BinOp::And, ident("e"));
    let one = filter_of_filters(vec![&a], &dialect).unwrap().unwrap();
    assert_eq!(expr_to_text(&one), "a OR b");
    let all = filter_of_filters(vec![&a, &b, &c], &dialect)
        .unwrap()
        .unwrap();
    assert_eq!(expr_to_text(&all), "(a OR b) AND c IS NULL AND d AND e");
    let empty = Expr::from(ExprKind::Empty);
    assert_eq!(
        filter_of_filters(vec![&a, &empty, &b], &dialect),
        Err(Error::UnsupportedExpr("Empty".to_string()))
    );
}

#[test]
fn limits_as_expressions() {
    assert_eq!(
        expr_of_i64(10),
        SqlExpr::Value(SqlValue::Number("10".to_string(), false))
    );
    assert_eq!(
        expr_of_i64(4294967295),
        SqlExpr::Value(SqlValue::Number("4294967295".to_string(), false))
    );
    assert_eq!(
        expr_of_i64(4294967296),
        SqlExpr::Value(SqlValue::Number("4294967296".to_string(), true))
    );
    assert_eq!(
        expr_of_i64(-1),
        SqlExpr::Value(SqlValue::Number("-1".to_string(), true))
    );
    for n in [0, 1, -1, 4294967295, 4294967296, i64::MIN, i64::MAX] {
        assert_eq!(
            expr_of_i64(n),
            SqlExpr::Value(SqlValue::Number(n.to_string(), n.leading_zeros() < 32))
        );
    }
    assert_eq!(expr_to_text(&expr_of_i64(4294967296)), "4294967296L");
    assert_eq!(
        top_of_i64(7),
        Top {
            with_ties: false,
            percent: false,
            quantity: Some(SqlExpr::Value(SqlValue::Number("7".to_string(), false))),
        }
    );
}
