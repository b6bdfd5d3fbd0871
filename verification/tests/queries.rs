//! Whole queries.

use std::rc::Rc;

use prql_sql::ast::{
    BinOp, ColumnSort, Context, Dialect, Expr, ExprKind, Frame, JoinFilter, JoinSide, Literal,
    MaterializationContext, MaterializedFrame, Query, QueryDef, Range, SortDirection, Table,
    TableRef, Transform, TransformKind,
};
use prql_sql::error::Error;
use prql_sql::pipeline::AtomicTable;
use prql_sql::print::query_to_text;
use prql_sql::query::{
    filter_of_pipeline, finish, join_braces, materialize_tables, query_of_tables,
    sql_query_of_atomic_table, table_factor_of_table_ref, table_to_sql_cte, translate,
    translate_join, translate_query,
};
use prql_sql::sql::{Ident, JoinConstraint, JoinOperator, SqlExpr, SqlQuery, SqlValue, TableFactor};

fn ident(name: &str) -> Expr {
    Expr::from(ExprKind::Ident(name.to_string()))
}

fn integer(n: i64) -> Expr {
    Expr::from(ExprKind::Literal(Literal::Integer(n)))
}

fn binary(left: Expr, op: BinOp, right: Expr) -> Expr {
    Expr::from(ExprKind::Binary {
        left: Box::new(left),
        op,
        right: Box::new(right),
    })
}

fn step(kind: TransformKind) -> Transform {
    Transform {
        kind,
        is_complex: false,
        ty: Rc::new(Frame {
            columns: vec![],
            sort: vec![],
        }),
        span: None,
    }
}

fn table_ref(name: &str) -> TableRef {
    TableRef {
        name: name.to_string(),
        alias: None,
        declared_at: None,
        ty: None,
    }
}

fn from(name: &str) -> Transform {
    step(TransformKind::From(table_ref(name)))
}

fn filter(condition: Expr) -> Transform {
    step(TransformKind::Filter(Box::new(condition)))
}

fn take(start: Option<i64>, end: Option<i64>) -> Transform {
    step(TransformKind::Take {
        range: Range::from_ints(start, end),
        by: vec![],
        sort: vec![],
    })
}

fn aggregate(by: Vec<Expr>) -> Transform {
    step(TransformKind::Aggregate {
        assigns: vec![],
        by,
    })
}

fn join(side: JoinSide, name: &str, filter: JoinFilter) -> Transform {
    step(TransformKind::Join {
        side,
        with: table_ref(name),
        filter,
    })
}

fn columns(names: Vec<&str>) -> MaterializedFrame {
    MaterializedFrame {
        columns: names.into_iter().map(ident).collect(),
        sort: vec![],
    }
}

fn atomic(pipeline: Vec<Transform>, frame: MaterializedFrame) -> AtomicTable {
    AtomicTable {
        name: None,
        pipeline,
        frame: Some(frame),
    }
}

fn printed(table: &AtomicTable, dialect: Dialect) -> String {
    let query = sql_query_of_atomic_table(table, &dialect.handler()).unwrap();
    query_to_text(&SqlQuery { with: None, query })
}

fn refused(table: &AtomicTable) -> Error {
    sql_query_of_atomic_table(table, &Dialect::Generic.handler()).unwrap_err()
}

fn plain(value: &str) -> Ident {
    Ident {
        value: value.to_string(),
        quote_style: None,
    }
}

#[test]
fn every_clause() {
    let table = atomic(
        vec![
            step(TransformKind::From(TableRef {
                name: "public.employees".to_string(),
                alias: Some("e".to_string()),
                declared_at: None,
                ty: None,
            })),
            join(
                JoinSide::Left,
                "salaries",
                JoinFilter::On(vec![binary(
                    ident("e.id"),
                    BinOp::Eq,
                    ident("salaries.id"),
                )]),
            ),
            filter(binary(ident("age"), BinOp::Gt, integer(40))),
            filter(binary(ident("a"), BinOp::Or, ident("b"))),
            aggregate(vec![ident("country"), ident("City")]),
            filter(binary(ident("n"), BinOp::Gt, integer(2))),
            step(TransformKind::Sort(vec![])),
            take(Some(3), Some(12)),
            step(TransformKind::Unique),
        ],
        MaterializedFrame {
            columns: vec![
                ident("country"),
                Expr {
                    kind: ExprKind::Ident("n".to_string()),
                    alias: Some("Count".to_string()),
                },
            ],
            sort: vec![
                ColumnSort {
                    direction: SortDirection::Desc,
                    column: ident("n"),
                },
                ColumnSort {
                    direction: SortDirection::Asc,
                    column: ident("country"),
                },
            ],
        },
    );
    assert_eq!(
        printed(&table, Dialect::Generic),
        "SELECT DISTINCT country, n AS \"Count\" FROM public.employees AS e \
         LEFT JOIN salaries ON e.id = salaries.id WHERE age > 40 AND (a OR b) \
         GROUP BY country, \"City\" HAVING n > 2 ORDER BY n DESC, country LIMIT 10 OFFSET 2"
    );
    assert_eq!(
        printed(&table, Dialect::MsSql),
        "SELECT DISTINCT TOP (10) country, n AS \"Count\" FROM public.employees AS e \
         LEFT JOIN salaries ON e.id = salaries.id WHERE age > 40 AND (a OR b) \
         GROUP BY country, \"City\" HAVING n > 2 ORDER BY n DESC, country OFFSET 2"
    );
}

#[test]
fn bare_select() {
    let table = atomic(vec![from("t")], columns(vec!["*"]));
    assert_eq!(printed(&table, Dialect::Generic), "SELECT * FROM t");
}

#[test]
fn joins_go_to_the_last_table() {
    let table = atomic(
        vec![
            from("a"),
            from("b"),
            join(JoinSide::Inner, "c", JoinFilter::On(vec![])),
            join(
                JoinSide::Full,
                "d",
                JoinFilter::Using(vec![ident("x"), ident("Y")]),
            ),
            join(JoinSide::Right, "e", JoinFilter::Using(vec![ident("x")])),
        ],
        columns(vec!["*"]),
    );
    assert_eq!(
        printed(&table, Dialect::Generic),
        "SELECT * FROM a, b JOIN c ON true FULL JOIN d USING(x, \"Y\") RIGHT JOIN e USING(x)"
    );
}

#[test]
fn filters_after_no_aggregation_select_rows() {
    let table = atomic(
        vec![
            from("t"),
            filter(ident("a")),
            filter(ident("b")),
            take(None, Some(5)),
        ],
        columns(vec!["*"]),
    );
    assert_eq!(
        printed(&table, Dialect::Generic),
        "SELECT * FROM t WHERE a AND b LIMIT 5"
    );
}

#[test]
fn ranges_are_aggregated() {
    let table = atomic(
        vec![
            from("t"),
            take(Some(1), Some(10)),
            take(Some(5), None),
        ],
        columns(vec!["*"]),
    );
    assert_eq!(
        printed(&table, Dialect::Generic),
        "SELECT * FROM t LIMIT 6 OFFSET 4"
    );
    let table = atomic(vec![from("t"), take(Some(9), None)], columns(vec!["*"]));
    assert_eq!(printed(&table, Dialect::Generic), "SELECT * FROM t OFFSET 8");
}

#[test]
fn refused_tables() {
    let empty = || Expr::from(ExprKind::Empty);
    let shown = Error::UnsupportedExpr("Empty".to_string());
    assert_eq!(
        refused(&AtomicTable::from(vec![from("t")])),
        Error::FrameNotProvided
    );
    assert_eq!(
        refused(&atomic(
            vec![join(JoinSide::Inner, "a", JoinFilter::On(vec![]))],
            columns(vec!["*"])
        )),
        Error::JoinWithoutFrom
    );
    assert_eq!(
        refused(&atomic(
            vec![
                from("t"),
                join(
                    JoinSide::Inner,
                    "a",
                    JoinFilter::Using(vec![ident("t.id")])
                )
            ],
            columns(vec!["*"])
        )),
        Error::NotASinglePartIdent
    );
    assert_eq!(
        refused(&atomic(
            vec![
                from("t"),
                join(JoinSide::Inner, "a", JoinFilter::Using(vec![integer(1)]))
            ],
            columns(vec!["*"])
        )),
        Error::NotASinglePartIdent
    );
    assert_eq!(
        refused(&atomic(
            vec![from("t"), filter(empty())],
            columns(vec!["*"])
        )),
        shown
    );
    assert_eq!(
        refused(&atomic(
            vec![from("t"), take(Some(5), Some(6)), take(Some(5), Some(6))],
            columns(vec!["*"])
        )),
        Error::RangeEndBeforeStart
    );
    assert_eq!(
        refused(&atomic(vec![from("t"), aggregate(vec![empty()])], columns(vec!["*"]))),
        shown
    );
    assert_eq!(
        refused(&atomic(
            vec![from("t")],
            MaterializedFrame {
                columns: vec![empty()],
                sort: vec![],
            }
        )),
        shown
    );
    // The order of clauses decides which error is reported.
    assert_eq!(
        refused(&atomic(
            vec![
                filter(empty()),
                take(Some(6), Some(5)),
                join(JoinSide::Inner, "a", JoinFilter::On(vec![]))
            ],
            columns(vec!["*"])
        )),
        Error::JoinWithoutFrom
    );
}

#[test]
fn single_parts_of_queries() {
    let generic = Dialect::Generic.handler();
    assert_eq!(
        table_factor_of_table_ref(
            &TableRef {
                name: "a.b".to_string(),
                alias: Some("The B".to_string()),
                declared_at: None,
                ty: None,
            },
            &generic
        ),
        TableFactor {
            name: vec![plain("a"), plain("b")],
            alias: Some(plain("The B")),
        }
    );
    let t = join(JoinSide::Inner, "a", JoinFilter::On(vec![]));
    let j = translate_join(&t.kind, &generic).unwrap();
    assert_eq!(
        j.join_operator,
        JoinOperator::Inner(JoinConstraint::On(SqlExpr::Value(SqlValue::Boolean(true))))
    );
    assert_eq!(filter_of_pipeline(&[from("t")], &generic), Ok(None));
    let cte = table_to_sql_cte(
        &AtomicTable {
            name: Some(table_ref("Table 1")),
            pipeline: vec![from("t")],
            frame: Some(columns(vec!["*"])),
        },
        &generic,
    )
    .unwrap();
    assert_eq!(cte.alias.value, "Table 1");
    assert!(cte.alias.quote_style.is_some());
}

#[test]
fn tables_become_named_queries() {
    let generic = Dialect::Generic.handler();
    assert_eq!(query_of_tables(vec![], &generic), Err(Error::NoTables));
    let named = |name: &str, pipeline: Vec<Transform>| AtomicTable {
        name: Some(table_ref(name)),
        pipeline,
        frame: Some(columns(vec!["*"])),
    };
    let one = query_of_tables(vec![named("", vec![from("t")])], &generic).unwrap();
    assert!(one.with.is_none());
    let query = query_of_tables(
        vec![
            named("table_0", vec![from("t"), take(None, Some(1))]),
            named("table_1", vec![from("table_0")]),
            named("", vec![from("table_1")]),
        ],
        &generic,
    )
    .unwrap();
    assert_eq!(
        query_to_text(&query),
        "WITH table_0 AS (SELECT * FROM t LIMIT 1), table_1 AS (SELECT * FROM table_0) \
         SELECT * FROM table_1"
    );
    let failing = query_of_tables(
        vec![
            named("table_0", vec![take(Some(2), Some(1))]),
            AtomicTable::from(vec![]),
        ],
        &generic,
    );
    assert_eq!(failing, Err(Error::RangeEndBeforeStart));
}

fn same(pipeline: Vec<Transform>) -> Result<Vec<Transform>, Error> {
    Ok(pipeline)
}

fn same_with_context(
    pipeline: Vec<Transform>,
    context: MaterializationContext,
) -> Result<(Vec<Transform>, MaterializationContext), Error> {
    Ok((pipeline, context))
}

fn all_columns(
    pipeline: Vec<Transform>,
    context: MaterializationContext,
    _table: Option<usize>,
) -> Result<(Vec<Transform>, MaterializedFrame, MaterializationContext), Error> {
    Ok((pipeline, columns(vec!["*"]), context))
}

fn query(dialect: Dialect, main_pipeline: Vec<Transform>, tables: Vec<Table>) -> Query {
    Query {
        def: QueryDef { dialect },
        main_pipeline,
        tables,
    }
}

fn context() -> Context {
    Context {
        declarations: vec![],
    }
}

#[test]
fn laid_out_queries() {
    let sql = translate(
        query(
            Dialect::Generic,
            vec![
                from("employees"),
                take(None, Some(20)),
                filter(binary(
                    ident("country"),
                    BinOp::Eq,
                    Expr::from(ExprKind::Literal(Literal::String("USA".to_string()))),
                )),
            ],
            vec![],
        ),
        context(),
        &same,
        &same_with_context,
        &all_columns,
    )
    .unwrap();
    assert_eq!(
        sql,
        "WITH table_0 AS (\n  SELECT\n    *\n  FROM\n    employees\n  LIMIT\n    20\n)\n\
         SELECT\n  *\nFROM\n  table_0\nWHERE\n  country = 'USA'"
    );
}

#[test]
fn tables_of_a_query_come_first() {
    let tree = translate_query(
        query(
            Dialect::Generic,
            vec![from("newest")],
            vec![Table {
                id: Some(0),
                name: "newest".to_string(),
                pipeline: vec![from("t"), take(None, Some(3))],
            }],
        ),
        context(),
        &same,
        &same_with_context,
        &all_columns,
    )
    .unwrap();
    assert_eq!(
        query_to_text(&tree),
        "WITH newest AS (SELECT * FROM t LIMIT 3) SELECT * FROM newest"
    );
}

#[test]
fn templates_survive_the_layout() {
    let sql = translate(
        query(Dialect::Generic, vec![from("{{ ref('stg') }}")], vec![]),
        context(),
        &same,
        &same_with_context,
        &all_columns,
    )
    .unwrap();
    assert_eq!(sql, "SELECT\n  *\nFROM\n  {{ ref('stg') }}");
    assert_eq!(join_braces("{ { a } } { b }"), "{{ a }} { b }");
}

#[test]
fn finishing_prints_and_lays_out() {
    let select = sql_query_of_atomic_table(
        &atomic(vec![from("t")], columns(vec!["a", "b"])),
        &Dialect::Generic.handler(),
    )
    .unwrap();
    assert_eq!(
        finish(&SqlQuery {
            with: None,
            query: select,
        }),
        "SELECT\n  a,\n  b\nFROM\n  t"
    );
}

#[test]
fn declarations_go_from_table_to_table() {
    let tables = vec![
        AtomicTable {
            name: Some(TableRef {
                name: "a".to_string(),
                alias: None,
                declared_at: Some(4),
                ty: None,
            }),
            pipeline: vec![from("x")],
            frame: None,
        },
        AtomicTable::from(vec![from("y")]),
    ];
    let count = |pipeline: Vec<Transform>,
                 mut context: MaterializationContext,
                 id: Option<usize>|
     -> Result<(Vec<Transform>, MaterializedFrame, MaterializationContext), Error> {
        let n = context.declare_table("z".to_string()) as i64;
        let frame = MaterializedFrame {
            columns: vec![integer(n), integer(id.map_or(-1, |i| i as i64))],
            sort: vec![],
        };
        Ok((pipeline, frame, context))
    };
    let done = materialize_tables(tables, MaterializationContext::default(), &count).unwrap();
    assert_eq!(done.len(), 2);
    assert_eq!(done[0].name.as_ref().unwrap().name, "a");
    assert!(done[1].name.is_none());
    assert_eq!(
        done[0].frame.as_ref().unwrap().columns,
        vec![integer(0), integer(4)]
    );
    assert_eq!(
        done[1].frame.as_ref().unwrap().columns,
        vec![integer(1), integer(-1)]
    );
}

#[test]
fn failures_of_whole_queries() {
    let run = |main: Vec<Transform>| {
        translate(
            query(Dialect::Generic, main, vec![]),
            context(),
            &same,
            &same_with_context,
            &all_columns,
        )
    };
    assert_eq!(run(vec![]), Err(Error::NoPipelines));
    assert_eq!(
        run(vec![from("t"), take(Some(2), Some(1))]),
        Err(Error::RangeEndBeforeStart)
    );
    let failing = |_: Vec<Transform>,
                   _: MaterializationContext,
                   _: Option<usize>|
     -> Result<(Vec<Transform>, MaterializedFrame, MaterializationContext), Error> {
        Err(Error::Pass("materialize".to_string()))
    };
    assert_eq!(
        translate(
            query(Dialect::Generic, vec![from("t")], vec![]),
            context(),
            &same,
            &same_with_context,
            &failing,
        ),
        Err(Error::Pass("materialize".to_string()))
    );
}

#[test]
fn named_queries_in_order() {
    let sort = || step(TransformKind::Sort(vec![]));
    let cut = |source: &str| vec![from(source), take(None, Some(5)), sort()];
    let table = |name: &str, pipeline: Vec<Transform>| Table {
        id: None,
        name: name.to_string(),
        pipeline,
    };
    let tree = translate_query(
        query(
            Dialect::Generic,
            cut("third"),
            vec![
                table("first", cut("x")),
                table("second", vec![from("first")]),
                table("third", cut("second")),
            ],
        ),
        context(),
        &same,
        &same_with_context,
        &all_columns,
    )
    .unwrap();
    let with = tree.with.unwrap();
    assert!(!with.recursive);
    let names: Vec<String> = with
        .cte_tables
        .into_iter()
        .map(|cte| cte.alias.value)
        .collect();
    assert_eq!(
        names,
        vec!["table_0", "first", "second", "table_1", "third", "table_2"]
    );
}

#[test]
fn empty_tables_of_a_query_are_refused() {
    let r = translate_query(
        query(
            Dialect::Generic,
            vec![from("t")],
            vec![Table {
                id: None,
                name: "t".to_string(),
                pipeline: vec![],
            }],
        ),
        context(),
        &same,
        &same_with_context,
        &all_columns,
    );
    assert_eq!(r, Err(Error::NoPipelines));
}

#[test]
fn edge_of_the_domain() {
    // The largest numbers are still counted.
    let table = atomic(
        vec![
            from("t"),
            filter(binary(ident("a"), BinOp::Eq, integer(i64::MIN))),
            take(Some(2), None),
            take(None, Some(i64::MAX - 2)),
        ],
        columns(vec!["*"]),
    );
    assert_eq!(
        printed(&table, Dialect::Generic),
        "SELECT * FROM t WHERE a = -9223372036854775808 LIMIT 9223372036854775805L OFFSET 1"
    );
}
