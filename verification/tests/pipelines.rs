//! Cutting pipelines and naming the pieces.

use std::rc::Rc;

use prql_sql::ast::{
    BinOp, ColumnSort, Declaration, Expr, ExprKind, Frame, FrameColumn, JoinFilter, JoinSide,
    Literal, MaterializationContext, Range, SortDirection, Table, TableRef, Transform,
    TransformKind, Ty,
};
use prql_sql::error::Error;
use prql_sql::pipeline::{
    atomic_pipelines_of_pipeline, atomic_tables_of_tables, into_tables, name_pieces,
    split_pipeline, try_prepend_with_from, AtomicTable,
};

fn ident(name: &str) -> Expr {
    Expr::from(ExprKind::Ident(name.to_string()))
}

fn frame(column: usize) -> Rc<Frame> {
    Rc::new(Frame {
        columns: vec![FrameColumn::Unnamed(column)],
        sort: vec![],
    })
}

fn step(kind: TransformKind) -> Transform {
    Transform {
        kind,
        is_complex: false,
        ty: frame(0),
        span: None,
    }
}

fn table_ref(name: &str) -> TableRef {
    TableRef {
        name: name.to_string(),
        alias: None,
        declared_at: None,
        ty: None,
    }
}

fn from(name: &str) -> Transform {
    step(TransformKind::From(table_ref(name)))
}

fn filter(column: &str, value: &str) -> Transform {
    step(TransformKind::Filter(Box::new(Expr::from(
        ExprKind::Binary {
            left: Box::new(ident(column)),
            op: BinOp::Eq,
            right: Box::new(Expr::from(ExprKind::Literal(Literal::String(
                value.to_string(),
            )))),
        },
    ))))
}

fn complex_filter(column: &str) -> Transform {
    let mut t = filter(column, "x");
    t.is_complex = true;
    t
}

fn aggregate(column: &str) -> Transform {
    step(TransformKind::Aggregate {
        assigns: vec![ident(column)],
        by: vec![],
    })
}

fn sort(column: &str) -> Transform {
    step(TransformKind::Sort(vec![ColumnSort {
        direction: SortDirection::Asc,
        column: ident(column),
    }]))
}

fn take(n: i64) -> Transform {
    step(TransformKind::Take {
        range: Range::from_ints(None, Some(n)),
        by: vec![],
        sort: vec![],
    })
}

fn join(name: &str) -> Transform {
    step(TransformKind::Join {
        side: JoinSide::Inner,
        with: table_ref(name),
        filter: JoinFilter::Using(vec![ident("id")]),
    })
}

fn select(column: &str) -> Transform {
    step(TransformKind::Select(vec![ident(column)]))
}

fn same(pipeline: Vec<Transform>) -> Result<Vec<Transform>, Error> {
    Ok(pipeline)
}

fn same_with_context(
    pipeline: Vec<Transform>,
    context: MaterializationContext,
) -> Result<(Vec<Transform>, MaterializationContext), Error> {
    Ok((pipeline, context))
}

fn lengths(tables: &[AtomicTable]) -> Vec<usize> {
    tables.iter().map(|t| t.pipeline.len()).collect()
}

#[test]
fn test_ctes_of_pipeline() {
    let context = MaterializationContext::default();

    // One aggregate, take at the end
    let pipeline = vec![
        from("employees"),
        filter("country", "USA"),
        aggregate("sal"),
        sort("sal"),
        take(20),
    ];
    let (queries, context) =
        atomic_pipelines_of_pipeline(pipeline, context, &same, &same_with_context).unwrap();
    assert_eq!(queries.len(), 1);

    // One aggregate, but take at the top
    let pipeline = vec![
        from("employees"),
        take(20),
        filter("country", "USA"),
        aggregate("sal"),
        sort("sal"),
    ];
    let (queries, context) =
        atomic_pipelines_of_pipeline(pipeline, context, &same, &same_with_context).unwrap();
    assert_eq!(queries.len(), 2);

    // A take, then two aggregates
    let pipeline = vec![
        from("employees"),
        take(20),
        filter("country", "USA"),
        aggregate("sal"),
        aggregate("sal"),
        sort("sal"),
    ];
    let (queries, context) =
        atomic_pipelines_of_pipeline(pipeline, context, &same, &same_with_context).unwrap();
    assert_eq!(queries.len(), 3);

    // A take, then a select
    let pipeline = vec![from("employees"), take(20), select("first_name")];
    let (queries, _) =
        atomic_pipelines_of_pipeline(pipeline, context, &same, &same_with_context).unwrap();
    assert_eq!(queries.len(), 1);
}

#[test]
fn passes_run_before_cutting() {
    let un_group = |mut p: Vec<Transform>| -> Result<Vec<Transform>, Error> {
        p.push(take(5));
        Ok(p)
    };
    let take_to_distinct = |mut p: Vec<Transform>,
                            c: MaterializationContext|
     -> Result<(Vec<Transform>, MaterializationContext), Error> {
        p.push(sort("a"));
        Ok((p, c))
    };
    let (tables, _) = atomic_pipelines_of_pipeline(
        vec![from("t")],
        MaterializationContext::default(),
        &un_group,
        &take_to_distinct,
    )
    .unwrap();
    assert_eq!(lengths(&tables), vec![2, 1]);
    assert!(tables.iter().all(|t| t.name.is_none() && t.frame.is_none()));
}

#[test]
fn failing_passes_are_reported() {
    let failing = |_: Vec<Transform>| -> Result<Vec<Transform>, Error> {
        Err(Error::Pass("groups".to_string()))
    };
    let r = atomic_pipelines_of_pipeline(
        vec![from("t")],
        MaterializationContext::default(),
        &failing,
        &same_with_context,
    );
    assert_eq!(r.err(), Some(Error::Pass("groups".to_string())));
    let failing = |_: Vec<Transform>,
                   _: MaterializationContext|
     -> Result<(Vec<Transform>, MaterializationContext), Error> {
        Err(Error::Pass("takes".to_string()))
    };
    let r = atomic_pipelines_of_pipeline(
        vec![from("t")],
        MaterializationContext::default(),
        &same,
        &failing,
    );
    assert_eq!(r.err(), Some(Error::Pass("takes".to_string())));
}

#[test]
fn joins_come_first() {
    assert_eq!(lengths(&split_pipeline(vec![from("a"), join("b"), join("c")])), vec![3]);
    for earlier in [
        filter("x", "y"),
        aggregate("x"),
        sort("x"),
        take(1),
    ] {
        let tables = split_pipeline(vec![from("a"), earlier, join("b")]);
        assert_eq!(lengths(&tables), vec![2, 1]);
        assert_eq!(tables[1].pipeline[0], join("b"));
    }
}

#[test]
fn filters_go_before_and_after_the_aggregation() {
    let tables = split_pipeline(vec![
        from("a"),
        filter("x", "y"),
        filter("x", "z"),
        aggregate("x"),
        filter("x", "y"),
        sort("x"),
        filter("x", "w"),
        take(1),
        take(2),
    ]);
    assert_eq!(lengths(&tables), vec![9]);
    assert_eq!(lengths(&split_pipeline(vec![take(1), filter("x", "y")])), vec![1, 1]);
    assert_eq!(lengths(&split_pipeline(vec![sort("x"), aggregate("x")])), vec![1, 1]);
    assert_eq!(lengths(&split_pipeline(vec![take(1), sort("x")])), vec![1, 1]);
}

#[test]
fn filters_on_windows_stand_apart() {
    let tables = split_pipeline(vec![from("a"), complex_filter("x"), complex_filter("y")]);
    assert_eq!(lengths(&tables), vec![1, 1, 1]);
    // No empty piece comes of one at the start.
    let tables = split_pipeline(vec![complex_filter("x"), filter("y", "z")]);
    assert_eq!(lengths(&tables), vec![2]);
}

#[test]
fn pieces_make_up_the_pipeline() {
    let pipeline = || {
        vec![
            from("a"),
            take(1),
            filter("x", "y"),
            join("b"),
            aggregate("x"),
            sort("x"),
            aggregate("y"),
            select("y"),
        ]
    };
    let mut joined = vec![];
    for table in split_pipeline(pipeline()) {
        assert!(!table.pipeline.is_empty());
        joined.extend(table.pipeline);
    }
    assert_eq!(joined, pipeline());
    assert!(split_pipeline(vec![]).is_empty());
}

#[test]
fn main_pipeline_is_the_last_table() {
    let tables = into_tables(
        vec![from("a")],
        vec![Table {
            id: Some(3),
            name: "a".to_string(),
            pipeline: vec![from("b"), take(1)],
        }],
    )
    .unwrap();
    assert_eq!(tables.len(), 2);
    assert_eq!(tables[0].id, Some(3));
    assert_eq!(tables[0].name, "a");
    assert_eq!(tables[0].pipeline, vec![from("b"), take(1)]);
    assert_eq!(tables[1].id, None);
    assert_eq!(tables[1].name, "");
    assert_eq!(tables[1].pipeline, vec![from("a")]);
}

#[test]
fn prepending_a_table() {
    let mut pipeline = vec![take(1)];
    try_prepend_with_from(&mut pipeline, None);
    assert_eq!(pipeline, vec![take(1)]);
    try_prepend_with_from(&mut pipeline, Some((table_ref("t"), frame(7))));
    assert_eq!(pipeline.len(), 2);
    assert_eq!(
        pipeline[0],
        Transform {
            kind: TransformKind::From(TableRef {
                name: "t".to_string(),
                alias: None,
                declared_at: None,
                ty: Some(Ty::Table(frame(7))),
            }),
            is_complex: false,
            ty: frame(7),
            span: None,
        }
    );
    assert_eq!(pipeline[1], take(1));
}

#[test]
fn pieces_read_on_under_generated_names() {
    let tables = vec![
        Table {
            id: Some(40),
            name: "newest".to_string(),
            pipeline: vec![from("a"), take(1), sort("x"), take(2), sort("y")],
        },
        Table {
            id: None,
            name: String::new(),
            pipeline: vec![from("newest"), take(3), filter("x", "y")],
        },
    ];
    let (atomics, context) = atomic_tables_of_tables(
        tables,
        MaterializationContext {
            declarations: vec![Declaration::Table("a".to_string())],
        },
        &same,
        &same_with_context,
    )
    .unwrap();
    let names: Vec<&str> = atomics
        .iter()
        .map(|t| t.name.as_ref().unwrap().name.as_str())
        .collect();
    assert_eq!(names, vec!["table_0", "table_1", "newest", "table_2", ""]);
    let ids: Vec<Option<usize>> = atomics
        .iter()
        .map(|t| t.name.as_ref().unwrap().declared_at)
        .collect();
    assert_eq!(ids, vec![Some(1), Some(2), Some(40), Some(3), None]);
    assert_eq!(
        context.declarations,
        vec![
            Declaration::Table("a".to_string()),
            Declaration::Table("table_0".to_string()),
            Declaration::Table("table_1".to_string()),
            Declaration::Table("table_2".to_string()),
        ]
    );
    let reads: Vec<Option<&str>> = atomics
        .iter()
        .map(|t| match &t.pipeline[0].kind {
            TransformKind::From(table) => Some(table.name.as_str()),
            _ => None,
        })
        .collect();
    assert_eq!(
        reads,
        vec![
            Some("a"),
            Some("table_0"),
            Some("table_1"),
            Some("newest"),
            Some("table_2"),
        ]
    );
    assert_eq!(lengths(&atomics), vec![2, 3, 2, 2, 2]);
    assert!(atomics.iter().all(|t| t.frame.is_none()));
}

#[test]
fn empty_tables_are_refused() {
    let r = atomic_tables_of_tables(
        vec![Table {
            id: None,
            name: String::new(),
            pipeline: vec![],
        }],
        MaterializationContext::default(),
        &same,
        &same_with_context,
    );
    assert_eq!(r.err(), Some(Error::NoPipelines));
}

#[test]
fn naming_one_piece_declares_nothing() {
    let mut atomics: Vec<AtomicTable> = vec![];
    let mut index = 0;
    let mut context = MaterializationContext::default();
    let pieces = vec![AtomicTable::from(vec![from("a")])];
    let r = name_pieces(
        &mut atomics,
        &mut index,
        &mut context,
        pieces,
        "t".to_string(),
        Some(9),
    );
    assert_eq!(r, Ok(()));
    assert_eq!(index, 0);
    assert!(context.declarations.is_empty());
    assert_eq!(atomics.len(), 1);
    assert_eq!(
        atomics[0].name,
        Some(TableRef {
            name: "t".to_string(),
            alias: None,
            declared_at: Some(9),
            ty: None,
        })
    );
    assert_eq!(atomics[0].pipeline, vec![from("a")]);
}

/// One transform of each sort that matters for cutting.
fn transform(n: usize) -> Transform {
    match n {
        0 => from("a"),
        1 => join("b"),
        2 => filter("x", "y"),
        3 => complex_filter("x"),
        4 => aggregate("x"),
        5 => sort("x"),
        _ => take(1),
    }
}

/// Whether one transform can come after another one in a `SELECT`.
fn can_follow(earlier: usize, later: usize) -> bool {
    match later {
        1 => ![2, 3, 4, 5, 6].contains(&earlier),
        2 => earlier != 6,
        3 => false,
        4 => ![4, 5, 6].contains(&earlier),
        5 => earlier != 6,
        _ => true,
    }
}

fn fits(piece: &[usize]) -> bool {
    (0..piece.len()).all(|j| (0..j).all(|i| can_follow(piece[i], piece[j])))
}

/// The smallest number of parts that fit.
fn fewest(pipeline: &[usize]) -> usize {
    if pipeline.is_empty() {
        return 0;
    }
    (1..=pipeline.len())
        .filter(|n| fits(&pipeline[..*n]))
        .map(|n| 1 + fewest(&pipeline[n..]))
        .min()
        .unwrap()
}

#[test]
fn pieces_fit_and_are_few() {
    for code in 0..7usize.pow(4) {
        let mut pipeline = vec![];
        let mut rest = code;
        for _ in 0..4 {
            pipeline.push(rest % 7);
            rest /= 7;
        }
        let tables = split_pipeline(pipeline.iter().map(|n| transform(*n)).collect());
        assert_eq!(tables.len(), fewest(&pipeline));
        let mut start = 0;
        for table in &tables {
            let end = start + table.pipeline.len();
            assert!(fits(&pipeline[start..end]));
            assert!(end == pipeline.len() || !fits(&pipeline[start..end + 1]));
            start = end;
        }
        assert_eq!(start, pipeline.len());
    }
}

#[test]
fn one_more_table_changes_nothing_before_it() {
    let table = |name: &str, n: i64| Table {
        id: None,
        name: name.to_string(),
        pipeline: vec![from("a"), take(n), sort("x"), take(n), sort("y")],
    };
    let cut = |tables: Vec<Table>| {
        atomic_tables_of_tables(
            tables,
            MaterializationContext::default(),
            &same,
            &same_with_context,
        )
        .unwrap()
        .0
    };
    let fewer = cut(vec![table("a", 1), table("b", 2)]);
    let more = cut(vec![table("a", 1), table("b", 2), table("c", 3)]);
    assert_eq!(fewer.len(), 6);
    assert_eq!(more.len(), 9);
    for (earlier, later) in fewer.iter().zip(&more) {
        assert_eq!(earlier.name, later.name);
        assert_eq!(earlier.pipeline, later.pipeline);
    }
}
