//! Whole queries.

use crate::ast::{
    Context, DialectHandler, Expr, ExprKind, JoinFilter, JoinSide, MaterializationContext,
    MaterializedFrame, Query, Range, Table, TableRef, Transform, TransformKind,
};
use crate::error::{
    agrees, agrees_list, agrees_option, carried, collect, lemma_collect_done, lemma_collect_step,
    lemma_collect_stops, lemma_collect_undefined, Error, ErrorView, Outcome,
};
use crate::expr::{
    all_of, expr_of_i64, exprs_sql, filter_of_filters, filter_sql, kinds, law_domain,
    law_operands_are_parenthesized, limit_number, number, select_item, sorts_sql, top, top_of_i64,
    translatable, translate_column_sorts, translate_select_item, try_into_exprs,
};
use crate::ident::{ident_part, ident_parts, plain, translate_ident, translate_ident_part};
use crate::pipeline::{
    always_empty, atomic_tables_of_tables, atomized, atomizing_fails, can_cut_tables, cut_tables,
    into_tables, law_empty_tables_are_refused, law_names_in_order, law_pieces_are_named,
    piece_name, AtomicTable, Stage,
};
use crate::print::{join_operator, laid_out, lay_out, query_text, query_to_text};
use crate::range::{
    aggregated, law_one_range_for_all, law_skip_and_limit_take_the_range, limited, range_of,
    range_of_ranges, skip_and_limit, skip_and_limit_of, starts_at_a_row, taken_in_turn,
};
use crate::sql::{
    group_views, views, well_nested, Cte, CteView, ExprView, Ident, IdentView, Join, JoinConstraint,
    JoinConstraintView, JoinOperator, JoinView, QueryView, Select, SelectItem, SelectItemView,
    SelectQuery, SelectQueryView, SelectView, SqlExpr, SqlQuery, SqlValue, TableFactor,
    TableFactorView, TableWithJoins, TableWithJoinsView, ValueView, With, WithView,
};
use crate::text::{int_to_text, replace_all, replaced};
use vstd::prelude::*;

verus! {

broadcast use group_views;

// ---------------------------------------------------------------------------
// Tables and joins
// ---------------------------------------------------------------------------

/// A table, under its alias if it has one.
pub open spec fn table_factor(table: TableRef, h: DialectHandler) -> TableFactorView {
    TableFactorView {
        name: ident_parts(table.name@, h),
        alias: match table.alias {
            Some(alias) => Some(plain(alias@)),
            None => None,
        },
    }
}

/// Translates a reference to a table.
pub fn table_factor_of_table_ref(table_ref: &TableRef, dialect: &DialectHandler) -> (r: TableFactor)
    ensures
        r@ == table_factor(*table_ref, *dialect),
{
    TableFactor {
        name: translate_ident(table_ref.name.clone(), dialect),
        alias: match &table_ref.alias {
            Some(alias) => Some(Ident::new(alias.clone())),
            None => None,
        },
    }
}

/// The column that a join is made by, which has to be named by an identifier of one part.
pub open spec fn using_column(column: Expr, h: DialectHandler) -> Outcome<IdentView> {
    match column.kind {
        ExprKind::Ident(name) => if ident_parts(name@, h).len() == 1 {
            Outcome::Done(ident_parts(name@, h)[0])
        } else {
            Outcome::Fail(ErrorView::NotASinglePartIdent)
        },
        _ => Outcome::Fail(ErrorView::NotASinglePartIdent),
    }
}

/// The columns that a join is made by.
pub open spec fn using_columns(columns: Seq<Expr>, h: DialectHandler) -> Seq<Outcome<IdentView>> {
    Seq::new(columns.len(), |i: int| using_column(columns[i], h))
}

/// The condition of a join. Without conditions all rows match.
pub open spec fn join_constraint(filter: JoinFilter, h: DialectHandler) -> Outcome<
    JoinConstraintView,
> {
    match filter {
        JoinFilter::On(conditions) => match filter_sql(kinds(conditions@), h) {
            Outcome::Done(Some(e)) => Outcome::Done(JoinConstraintView::On(e)),
            Outcome::Done(None) => Outcome::Done(
                JoinConstraintView::On(ExprView::Value(ValueView::Boolean(true))),
            ),
            other => carried(other),
        },
        JoinFilter::Using(columns) => match collect(using_columns(columns@, h)) {
            Outcome::Done(idents) => Outcome::Done(JoinConstraintView::Using(idents)),
            other => carried(other),
        },
    }
}

/// A join.
pub open spec fn join_sql(kind: TransformKind, h: DialectHandler) -> Outcome<JoinView>
    recommends
        kind is Join,
{
    let constraint = join_constraint(kind->Join_filter, h);
    match constraint {
        Outcome::Done(c) => Outcome::Done(
            JoinView {
                relation: table_factor(kind->Join_with, h),
                join_operator: join_operator(kind->Join_side, c),
            },
        ),
        other => carried(other),
    }
}

fn translate_using(columns: &Vec<Expr>, dialect: &DialectHandler) -> (r: Result<Vec<Ident>, Error>)
    ensures
        agrees_list(r, collect(using_columns(columns@, *dialect))),
{
    let mut idents: Vec<Ident> = Vec::new();
    let mut i: usize = 0;
    let ghost all = using_columns(columns@, *dialect);
    proof {
        assert(all.take(0) =~= seq![]);
    }
    while i < columns.len()
        invariant
            i <= columns@.len(),
            all == using_columns(columns@, *dialect),
            collect(all.take(i as int)) == Outcome::Done(views(idents@)),
        decreases columns.len() - i,
    {
        proof {
            lemma_collect_step(all, i as int);
            lemma_collect_stops(all, i + 1);
        }
        match &columns[i].kind {
            ExprKind::Ident(name) => {
                let mut parts = translate_ident(name.clone(), dialect);
                let ghost named = parts@;
                if parts.len() != 1 {
                    return Err(Error::NotASinglePartIdent);
                }
                proof {
                    assert(views(named)[0] == named[0]@);
                }
                match parts.pop() {
                    Some(ident) => {
                        idents.push(ident);
                    },
                    None => {},
                }
            },
            _ => {
                return Err(Error::NotASinglePartIdent);
            },
        }
        i += 1;
    }
    proof {
        assert(all.take(i as int) =~= all);
    }
    Ok(idents)
}

fn refs(exprs: &Vec<Expr>) -> (r: Vec<&Expr>)
    ensures
        kinds(r@.unref()) == kinds(exprs@),
{
    let mut r: Vec<&Expr> = Vec::new();
    let mut i: usize = 0;
    while i < exprs.len()
        invariant
            i <= exprs@.len(),
            r@.len() == i,
            forall|j: int| 0 <= j < i ==> *(#[trigger] r@[j]) == exprs@[j],
        decreases exprs.len() - i,
    {
        r.push(&exprs[i]);
        i += 1;
    }
    proof {
        assert(kinds(r@.unref()) =~= kinds(exprs@));
    }
    r
}

/// Translates a join.
pub fn translate_join(t: &TransformKind, dialect: &DialectHandler) -> (r: Result<Join, Error>)
    requires
        t is Join,
        join_sql(*t, *dialect) !is Undefined,
    ensures
        agrees(r, join_sql(*t, *dialect)),
{
    match t {
        TransformKind::Join { side, with, filter } => {
            let constraint = match filter {
                JoinFilter::On(nodes) => match filter_of_filters(refs(nodes), dialect) {
                    Ok(Some(e)) => JoinConstraint::On(e),
                    Ok(None) => JoinConstraint::On(SqlExpr::Value(SqlValue::Boolean(true))),
                    Err(e) => {
                        return Err(e);
                    },
                },
                JoinFilter::Using(nodes) => match translate_using(nodes, dialect) {
                    Ok(idents) => JoinConstraint::Using(idents),
                    Err(e) => {
                        return Err(e);
                    },
                },
            };
            Ok(
                Join {
                    relation: table_factor_of_table_ref(with, dialect),
                    join_operator: match side {
                        JoinSide::Inner => JoinOperator::Inner(constraint),
                        JoinSide::Left => JoinOperator::LeftOuter(constraint),
                        JoinSide::Right => JoinOperator::RightOuter(constraint),
                        JoinSide::Full => JoinOperator::FullOuter(constraint),
                    },
                },
            )
        },
        _ => vstd::pervasive::unreached(),
    }
}

// ---------------------------------------------------------------------------
// What a pipeline says of each clause
// ---------------------------------------------------------------------------

/// The tables that a pipeline reads.
pub open spec fn froms(pipeline: Seq<Transform>, h: DialectHandler) -> Seq<TableFactorView>
    decreases pipeline.len(),
{
    if pipeline.len() == 0 {
        seq![]
    } else {
        let before = froms(pipeline.drop_last(), h);
        match pipeline.last().kind {
            TransformKind::From(table) => before.push(table_factor(table, h)),
            _ => before,
        }
    }
}

/// The joins of a pipeline.
pub open spec fn joins(pipeline: Seq<Transform>, h: DialectHandler) -> Seq<Outcome<JoinView>>
    decreases pipeline.len(),
{
    if pipeline.len() == 0 {
        seq![]
    } else {
        let before = joins(pipeline.drop_last(), h);
        match pipeline.last().kind {
            TransformKind::Join { .. } => before.push(join_sql(pipeline.last().kind, h)),
            _ => before,
        }
    }
}

/// The conditions that a pipeline filters by.
pub open spec fn conditions(pipeline: Seq<Transform>) -> Seq<ExprKind>
    decreases pipeline.len(),
{
    if pipeline.len() == 0 {
        seq![]
    } else {
        let before = conditions(pipeline.drop_last());
        match pipeline.last().kind {
            TransformKind::Filter(condition) => before.push(condition.kind),
            _ => before,
        }
    }
}

/// The ranges that a pipeline takes.
pub open spec fn ranges(pipeline: Seq<Transform>) -> Seq<Range>
    decreases pipeline.len(),
{
    if pipeline.len() == 0 {
        seq![]
    } else {
        let before = ranges(pipeline.drop_last());
        match pipeline.last().kind {
            TransformKind::Take { range, .. } => before.push(range),
            _ => before,
        }
    }
}

/// Where the first aggregation of a pipeline stands, or the length of the pipeline if there is
/// none.
pub open spec fn aggregate_position(pipeline: Seq<Transform>) -> int
    decreases pipeline.len(),
{
    if pipeline.len() == 0 {
        0
    } else {
        let before = aggregate_position(pipeline.drop_last());
        if before < pipeline.len() - 1 || pipeline.last().kind is Aggregate {
            before
        } else {
            pipeline.len() as int
        }
    }
}

/// What the first aggregation groups by.
pub open spec fn grouping(pipeline: Seq<Transform>) -> Seq<Expr> {
    if aggregate_position(pipeline) < pipeline.len() {
        pipeline[aggregate_position(pipeline)].kind->Aggregate_by@
    } else {
        seq![]
    }
}

/// A transform of a pipeline keeps only distinct rows.
pub open spec fn is_distinct(pipeline: Seq<Transform>) -> bool {
    exists|i: int| 0 <= i < pipeline.len() && (#[trigger] pipeline[i]).kind is Unique
}

fn froms_of(pipeline: &Vec<Transform>, dialect: &DialectHandler) -> (r: Vec<TableFactor>)
    ensures
        views(r@) == froms(pipeline@, *dialect),
{
    let mut r: Vec<TableFactor> = Vec::new();
    let mut i: usize = 0;
    let ghost all = pipeline@;
    proof {
        assert(all.take(0) =~= seq![]);
    }
    while i < pipeline.len()
        invariant
            i <= all.len(),
            all == pipeline@,
            views(r@) == froms(all.take(i as int), *dialect),
        decreases pipeline.len() - i,
    {
        proof {
            assert(all.take(i + 1).drop_last() =~= all.take(i as int));
        }
        if let TransformKind::From(table) = &pipeline[i].kind {
            r.push(table_factor_of_table_ref(table, dialect));
        }
        i += 1;
    }
    proof {
        assert(all.take(i as int) =~= all);
    }
    r
}

/// Once the joins of the first transforms are not translated, those of the whole pipeline are
/// not.
proof fn lemma_joins_stop(pipeline: Seq<Transform>, n: int, h: DialectHandler)
    requires
        0 <= n <= pipeline.len(),
    ensures
        collect(joins(pipeline.take(n), h)) is Fail ==> collect(joins(pipeline, h)) == collect(
            joins(pipeline.take(n), h),
        ),
        collect(joins(pipeline.take(n), h)) is Undefined ==> collect(
            joins(pipeline, h),
        ) is Undefined,
    decreases pipeline.len() - n,
{
    if n == pipeline.len() {
        assert(pipeline.take(n) =~= pipeline);
    } else {
        lemma_joins_step(pipeline, n, h);
        lemma_joins_stop(pipeline, n + 1, h);
    }
}

/// One more transform.
proof fn lemma_joins_step(pipeline: Seq<Transform>, n: int, h: DialectHandler)
    requires
        0 <= n < pipeline.len(),
    ensures
        collect(joins(pipeline.take(n + 1), h)) == if pipeline[n].kind is Join {
            match collect(joins(pipeline.take(n), h)) {
                Outcome::Done(v) => match join_sql(pipeline[n].kind, h) {
                    Outcome::Done(j) => Outcome::Done(v.push(j)),
                    other => carried(other),
                },
                other => other,
            }
        } else {
            collect(joins(pipeline.take(n), h))
        },
{
    assert(pipeline.take(n + 1).drop_last() =~= pipeline.take(n));
    let before = joins(pipeline.take(n), h);
    if pipeline[n].kind is Join {
        let j = join_sql(pipeline[n].kind, h);
        assert(before.push(j).drop_last() =~= before);
    }
}

fn joins_of(pipeline: &Vec<Transform>, dialect: &DialectHandler) -> (r: Result<Vec<Join>, Error>)
    requires
        collect(joins(pipeline@, *dialect)) !is Undefined,
    ensures
        agrees_list(r, collect(joins(pipeline@, *dialect))),
{
    let mut r: Vec<Join> = Vec::new();
    let mut i: usize = 0;
    let ghost all = pipeline@;
    proof {
        assert(all.take(0) =~= seq![]);
    }
    while i < pipeline.len()
        invariant
            i <= all.len(),
            all == pipeline@,
            collect(joins(all, *dialect)) !is Undefined,
            collect(joins(all.take(i as int), *dialect)) == Outcome::Done(views(r@)),
        decreases pipeline.len() - i,
    {
        proof {
            lemma_joins_step(all, i as int, *dialect);
            lemma_joins_stop(all, i + 1, *dialect);
        }
        if let TransformKind::Join { .. } = &pipeline[i].kind {
            match translate_join(&pipeline[i].kind, dialect) {
                Ok(j) => {
                    r.push(j);
                },
                Err(e) => {
                    return Err(e);
                },
            }
        }
        i += 1;
    }
    proof {
        assert(all.take(i as int) =~= all);
    }
    Ok(r)
}

/// Translates the conditions that a pipeline filters by.
pub fn filter_of_pipeline(pipeline: &[Transform], dialect: &DialectHandler) -> (r: Result<
    Option<SqlExpr>,
    Error,
>)
    requires
        filter_sql(conditions(pipeline@), *dialect) !is Undefined,
    ensures
        agrees_option(r, filter_sql(conditions(pipeline@), *dialect)),
{
    let mut filters: Vec<&Expr> = Vec::new();
    let mut i: usize = 0;
    let ghost all = pipeline@;
    proof {
        assert(all.take(0) =~= seq![]);
        assert(kinds(filters@.unref()) =~= seq![]);
    }
    while i < pipeline.len()
        invariant
            i <= all.len(),
            all == pipeline@,
            kinds(filters@.unref()) == conditions(all.take(i as int)),
        decreases pipeline.len() - i,
    {
        proof {
            assert(all.take(i + 1).drop_last() =~= all.take(i as int));
        }
        if let TransformKind::Filter(filter) = &pipeline[i].kind {
            let ghost before = kinds(filters@.unref());
            filters.push(filter);
            proof {
                assert(kinds(filters@.unref()) =~= before.push(filter.kind));
            }
        }
        i += 1;
    }
    proof {
        assert(all.take(i as int) =~= all);
    }
    filter_of_filters(filters, dialect)
}

fn ranges_of(pipeline: &Vec<Transform>) -> (r: Vec<&Range>)
    ensures
        r@.unref() == ranges(pipeline@),
{
    let mut r: Vec<&Range> = Vec::new();
    let mut i: usize = 0;
    let ghost all = pipeline@;
    proof {
        assert(all.take(0) =~= seq![]);
        assert(r@.unref() =~= seq![]);
    }
    while i < pipeline.len()
        invariant
            i <= all.len(),
            all == pipeline@,
            r@.unref() == ranges(all.take(i as int)),
        decreases pipeline.len() - i,
    {
        proof {
            assert(all.take(i + 1).drop_last() =~= all.take(i as int));
        }
        if let TransformKind::Take { range, .. } = &pipeline[i].kind {
            let ghost before = r@.unref();
            r.push(range);
            proof {
                assert(r@.unref() =~= before.push(*range));
            }
        }
        i += 1;
    }
    proof {
        assert(all.take(i as int) =~= all);
    }
    r
}

/// The place that is found is that of the first aggregation.
pub proof fn lemma_aggregate_position(pipeline: Seq<Transform>)
    ensures
        0 <= aggregate_position(pipeline) <= pipeline.len(),
        forall|i: int|
            0 <= i < aggregate_position(pipeline) ==> (#[trigger] pipeline[i]).kind !is Aggregate,
        aggregate_position(pipeline) < pipeline.len() ==> pipeline[aggregate_position(
            pipeline,
        )].kind is Aggregate,
    decreases pipeline.len(),
{
    if pipeline.len() > 0 {
        let shorter = pipeline.drop_last();
        lemma_aggregate_position(shorter);
        assert forall|i: int| 0 <= i < aggregate_position(pipeline) implies (
        #[trigger] pipeline[i]).kind !is Aggregate by {
            if i < shorter.len() {
                assert(shorter[i] == pipeline[i]);
            }
        }
    }
}

fn aggregate_position_of(pipeline: &Vec<Transform>) -> (r: usize)
    ensures
        r == aggregate_position(pipeline@),
        r <= pipeline@.len(),
{
    proof {
        lemma_aggregate_position(pipeline@);
    }
    let mut i: usize = 0;
    while i < pipeline.len()
        invariant
            i <= aggregate_position(pipeline@) <= pipeline@.len(),
            forall|j: int|
                0 <= j < aggregate_position(pipeline@) ==> (
                #[trigger] pipeline@[j]).kind !is Aggregate,
            aggregate_position(pipeline@) < pipeline@.len() ==> pipeline@[aggregate_position(
                pipeline@,
            )].kind is Aggregate,
        decreases pipeline.len() - i,
    {
        if let TransformKind::Aggregate { .. } = &pipeline[i].kind {
            return i;
        }
        i += 1;
    }
    i
}

fn exec_is_distinct(pipeline: &Vec<Transform>) -> (b: bool)
    ensures
        b == is_distinct(pipeline@),
{
    let mut i: usize = 0;
    while i < pipeline.len()
        invariant
            i <= pipeline@.len(),
            forall|j: int| 0 <= j < i ==> (#[trigger] pipeline@[j]).kind !is Unique,
        decreases pipeline.len() - i,
    {
        if let TransformKind::Unique = &pipeline[i].kind {
            return true;
        }
        i += 1;
    }
    false
}

// ---------------------------------------------------------------------------
// One pipeline as one query
// ---------------------------------------------------------------------------

/// The tables that are read, with the joins at the last of them.
pub open spec fn from_clause(tables: Seq<TableFactorView>, joins: Seq<JoinView>) -> Seq<
    TableWithJoinsView,
> {
    Seq::new(
        tables.len(),
        |i: int|
            TableWithJoinsView {
                relation: tables[i],
                joins: if i == tables.len() - 1 {
                    joins
                } else {
                    seq![]
                },
            },
    )
}

/// The columns of a `SELECT`.
pub open spec fn select_items(columns: Seq<Expr>, h: DialectHandler) -> Seq<
    Outcome<SelectItemView>,
> {
    Seq::new(columns.len(), |i: int| select_item(columns[i], h))
}

/// How many rows to skip, and how many to return, for the ranges of a pipeline.
pub open spec fn limits(pipeline: Seq<Transform>) -> Outcome<(i64, Option<i64>)> {
    match range_of(ranges(pipeline)) {
        Outcome::Done(range) => skip_and_limit(range),
        other => carried(other),
    }
}

/// The conditions before the first aggregation.
pub open spec fn where_conditions(pipeline: Seq<Transform>) -> Seq<ExprKind> {
    conditions(pipeline.take(aggregate_position(pipeline)))
}

/// The conditions after the first aggregation.
pub open spec fn having_conditions(pipeline: Seq<Transform>) -> Seq<ExprKind> {
    conditions(pipeline.skip(aggregate_position(pipeline)))
}

/// What a pipeline is translated to. The first clause that cannot be translated decides.
pub open spec fn query_sql(
    pipeline: Seq<Transform>,
    frame: Option<MaterializedFrame>,
    h: DialectHandler,
) -> Outcome<SelectQueryView> {
    let tables = froms(pipeline, h);
    let joined = collect(joins(pipeline, h));
    let selection = filter_sql(where_conditions(pipeline), h);
    let having = filter_sql(having_conditions(pipeline), h);
    let limits = limits(pipeline);
    let order_by = collect(sorts_sql(frame->0.sort@, h));
    let projection = collect(select_items(frame->0.columns@, h));
    let group_by = collect(exprs_sql(grouping(pipeline), h));
    if frame is None {
        Outcome::Fail(ErrorView::FrameNotProvided)
    } else if joined !is Done {
        carried(joined)
    } else if joined->Done_0.len() > 0 && tables.len() == 0 {
        Outcome::Fail(ErrorView::JoinWithoutFrom)
    } else if selection !is Done {
        carried(selection)
    } else if having !is Done {
        carried(having)
    } else if limits !is Done {
        carried(limits)
    } else if order_by !is Done {
        carried(order_by)
    } else if projection !is Done {
        carried(projection)
    } else if group_by !is Done {
        carried(group_by)
    } else {
        let (skip, limit) = limits->Done_0;
        Outcome::Done(
            SelectQueryView {
                body: SelectView {
                    distinct: is_distinct(pipeline),
                    top: if h.use_top && limit is Some {
                        Some(top(limit->0 as int))
                    } else {
                        None
                    },
                    projection: projection->Done_0,
                    from: from_clause(tables, joined->Done_0),
                    selection: selection->Done_0,
                    group_by: group_by->Done_0,
                    having: having->Done_0,
                },
                order_by: order_by->Done_0,
                limit: if !h.use_top && limit is Some {
                    Some(limit_number(limit->0 as int))
                } else {
                    None
                },
                offset: if skip == 0 {
                    None
                } else {
                    Some(number(skip as int))
                },
            },
        )
    }
}

fn from_clause_of(tables: Vec<TableFactor>, joins: Vec<Join>) -> (r: Vec<TableWithJoins>)
    ensures
        views(r@) == from_clause(views(tables@), views(joins@)),
{
    let ghost all = tables@;
    let mut from: Vec<TableWithJoins> = Vec::new();
    for table in it: tables
        invariant
            it.seq() == all,
            from@.len() == it.index(),
            forall|j: int|
                0 <= j < it.index() ==> (#[trigger] from@[j])@ == (TableWithJoinsView {
                    relation: all[j]@,
                    joins: seq![],
                }),
    {
        from.push(TableWithJoins { relation: table, joins: Vec::new() });
    }
    match from.pop() {
        Some(last) => {
            let ghost before = from@;
            from.push(TableWithJoins { relation: last.relation, joins });
            proof {
                assert(forall|j: int| 0 <= j < before.len() ==> from@[j] == #[trigger] before[j]);
            }
        },
        None => {},
    }
    proof {
        assert(views(from@) =~= from_clause(views(tables@), views(joins@)));
    }
    from
}

fn select_items_of(columns: &Vec<Expr>, dialect: &DialectHandler) -> (r: Result<
    Vec<SelectItem>,
    Error,
>)
    requires
        collect(select_items(columns@, *dialect)) !is Undefined,
    ensures
        agrees_list(r, collect(select_items(columns@, *dialect))),
{
    let mut items: Vec<SelectItem> = Vec::new();
    let mut i: usize = 0;
    let ghost all = select_items(columns@, *dialect);
    proof {
        assert(all.take(0) =~= seq![]);
    }
    while i < columns.len()
        invariant
            i <= columns@.len(),
            all == select_items(columns@, *dialect),
            collect(all) !is Undefined,
            collect(all.take(i as int)) == Outcome::Done(views(items@)),
        decreases columns.len() - i,
    {
        proof {
            lemma_collect_step(all, i as int);
            lemma_collect_stops(all, i + 1);
        }
        match translate_select_item(&columns[i], dialect) {
            Ok(item) => {
                items.push(item);
            },
            Err(e) => {
                return Err(e);
            },
        }
        i += 1;
    }
    proof {
        assert(all.take(i as int) =~= all);
    }
    Ok(items)
}

fn group_by_of(pipeline: &Vec<Transform>, aggregate_position: usize, dialect: &DialectHandler) -> (r:
    Result<Vec<SqlExpr>, Error>)
    requires
        aggregate_position == self::aggregate_position(pipeline@),
        collect(exprs_sql(grouping(pipeline@), *dialect)) !is Undefined,
    ensures
        agrees_list(r, collect(exprs_sql(grouping(pipeline@), *dialect))),
{
    proof {
        lemma_aggregate_position(pipeline@);
    }
    if aggregate_position < pipeline.len() {
        match &pipeline[aggregate_position].kind {
            TransformKind::Aggregate { by, .. } => try_into_exprs(by, dialect),
            _ => vstd::pervasive::unreached(),
        }
    } else {
        let none: Vec<Expr> = Vec::new();
        proof {
            assert(none@ =~= seq![]);
        }
        try_into_exprs(&none, dialect)
    }
}

/// Translates a table whose pipeline fits into one `SELECT`.
pub fn sql_query_of_atomic_table(table: &AtomicTable, dialect: &DialectHandler) -> (r: Result<
    SelectQuery,
    Error,
>)
    requires
        query_sql(table.pipeline@, table.frame, *dialect) !is Undefined,
    ensures
        agrees(r, query_sql(table.pipeline@, table.frame, *dialect)),
{
    let frame = match &table.frame {
        Some(frame) => frame,
        None => {
            return Err(Error::FrameNotProvided);
        },
    };
    let from = froms_of(&table.pipeline, dialect);
    let joins = match joins_of(&table.pipeline, dialect) {
        Ok(joins) => joins,
        Err(e) => {
            return Err(e);
        },
    };
    if joins.len() > 0 && from.len() == 0 {
        return Err(Error::JoinWithoutFrom);
    }
    let from = from_clause_of(from, joins);

    // Conditions before the aggregation select rows, those after it select groups.
    let aggregate_position = aggregate_position_of(&table.pipeline);
    let all = table.pipeline.as_slice();
    let before = vstd::slice::slice_subrange(all, 0, aggregate_position);
    let after = vstd::slice::slice_subrange(all, aggregate_position, all.len());
    proof {
        assert(before@ =~= table.pipeline@.take(aggregate_position as int));
        assert(after@ =~= table.pipeline@.skip(aggregate_position as int));
    }
    let selection = match filter_of_pipeline(before, dialect) {
        Ok(filter) => filter,
        Err(e) => {
            return Err(e);
        },
    };
    let having = match filter_of_pipeline(after, dialect) {
        Ok(filter) => filter,
        Err(e) => {
            return Err(e);
        },
    };

    let take = match range_of_ranges(ranges_of(&table.pipeline)) {
        Ok(range) => range,
        Err(e) => {
            return Err(e);
        },
    };
    let (skip, limit) = skip_and_limit_of(&take);
    let offset = if skip == 0 {
        None
    } else {
        Some(expr_of_int(skip))
    };

    let order_by = match translate_column_sorts(&frame.sort, dialect) {
        Ok(order_by) => order_by,
        Err(e) => {
            return Err(e);
        },
    };
    let projection = match select_items_of(&frame.columns, dialect) {
        Ok(items) => items,
        Err(e) => {
            return Err(e);
        },
    };
    let group_by = match group_by_of(&table.pipeline, aggregate_position, dialect) {
        Ok(exprs) => exprs,
        Err(e) => {
            return Err(e);
        },
    };
    let (top, limit) = match limit {
        Some(n) => if dialect.use_top {
            (Some(top_of_i64(n)), None)
        } else {
            (None, Some(expr_of_i64(n)))
        },
        None => (None, None),
    };
    let distinct = exec_is_distinct(&table.pipeline);
    let body = Select { distinct, top, projection, from, selection, group_by, having };
    Ok(SelectQuery { body, order_by, limit, offset })
}

fn expr_of_int(n: i64) -> (r: SqlExpr)
    ensures
        r@ == number(n as int),
{
    SqlExpr::Value(SqlValue::Number(int_to_text(n), false))
}

// ---------------------------------------------------------------------------
// Tables as queries with names
// ---------------------------------------------------------------------------

/// What a table is translated to where other tables read it. It has to have a name.
pub open spec fn cte_sql(table: AtomicTable, h: DialectHandler) -> Outcome<CteView> {
    match table.name {
        Some(name) => match query_sql(table.pipeline@, table.frame, h) {
            Outcome::Done(query) => Outcome::Done(
                CteView { alias: ident_part(name.name@, h), query },
            ),
            other => carried(other),
        },
        None => Outcome::Undefined,
    }
}

/// Translates a table that other tables read.
pub fn table_to_sql_cte(table: &AtomicTable, dialect: &DialectHandler) -> (r: Result<Cte, Error>)
    requires
        cte_sql(*table, *dialect) !is Undefined,
    ensures
        agrees(r, cte_sql(*table, *dialect)),
{
    let name = match &table.name {
        Some(name) => name.name.clone(),
        None => vstd::pervasive::unreached(),
    };
    let alias = translate_ident_part(name, dialect);
    match sql_query_of_atomic_table(table, dialect) {
        Ok(query) => Ok(Cte { alias, query }),
        Err(e) => Err(e),
    }
}

/// What tables are translated to where other tables read them.
pub open spec fn ctes_sql(tables: Seq<AtomicTable>, h: DialectHandler) -> Seq<Outcome<CteView>> {
    Seq::new(tables.len(), |i: int| cte_sql(tables[i], h))
}

/// What a list of tables is translated to. The last table is the query, and it can read the
/// others by their names.
pub open spec fn tables_sql(tables: Seq<AtomicTable>, h: DialectHandler) -> Outcome<QueryView> {
    let ctes = collect(ctes_sql(tables.drop_last(), h));
    let query = query_sql(tables.last().pipeline@, tables.last().frame, h);
    if tables.len() == 0 {
        Outcome::Fail(ErrorView::NoTables)
    } else if ctes !is Done {
        carried(ctes)
    } else if query !is Done {
        carried(query)
    } else {
        Outcome::Done(
            QueryView {
                with: if ctes->Done_0.len() == 0 {
                    None
                } else {
                    Some(WithView { recursive: false, cte_tables: ctes->Done_0 })
                },
                query: query->Done_0,
            },
        )
    }
}

fn ctes_of(tables: &Vec<AtomicTable>, dialect: &DialectHandler) -> (r: Result<Vec<Cte>, Error>)
    requires
        collect(ctes_sql(tables@, *dialect)) !is Undefined,
    ensures
        agrees_list(r, collect(ctes_sql(tables@, *dialect))),
{
    let ghost all = ctes_sql(tables@, *dialect);
    let mut ctes: Vec<Cte> = Vec::new();
    let mut i: usize = 0;
    proof {
        assert(all.take(0) =~= seq![]);
    }
    while i < tables.len()
        invariant
            i <= tables@.len(),
            all == ctes_sql(tables@, *dialect),
            collect(all) !is Undefined,
            collect(all.take(i as int)) == Outcome::Done(views(ctes@)),
        decreases tables.len() - i,
    {
        proof {
            lemma_collect_step(all, i as int);
            lemma_collect_stops(all, i + 1);
        }
        match table_to_sql_cte(&tables[i], dialect) {
            Ok(cte) => {
                ctes.push(cte);
            },
            Err(e) => {
                return Err(e);
            },
        }
        i += 1;
    }
    proof {
        assert(all.take(i as int) =~= all);
    }
    Ok(ctes)
}

/// Translates a list of tables, of which the last is the query.
pub fn query_of_tables(tables: Vec<AtomicTable>, dialect: &DialectHandler) -> (r: Result<
    SqlQuery,
    Error,
>)
    requires
        tables_sql(tables@, *dialect) !is Undefined,
    ensures
        agrees(r, tables_sql(tables@, *dialect)),
{
    let mut ctes = tables;
    let main_query = match ctes.pop() {
        Some(table) => table,
        None => {
            return Err(Error::NoTables);
        },
    };
    proof {
        assert(ctes@ =~= tables@.drop_last());
    }
    let ctes = match ctes_of(&ctes, dialect) {
        Ok(ctes) => ctes,
        Err(e) => {
            return Err(e);
        },
    };
    let query = match sql_query_of_atomic_table(&main_query, dialect) {
        Ok(query) => query,
        Err(e) => {
            return Err(e);
        },
    };
    let with = if ctes.len() == 0 {
        None
    } else {
        Some(With { recursive: false, cte_tables: ctes })
    };
    Ok(SqlQuery { with, query })
}

// ---------------------------------------------------------------------------
// Materializing
// ---------------------------------------------------------------------------

/// The identifier that a table is declared under.
pub open spec fn table_id(table: AtomicTable) -> Option<usize> {
    match table.name {
        Some(name) => name.declared_at,
        None => None,
    }
}

/// A table is materialized: its pipeline is rewritten and its frame is found. This is a pass
/// that the caller provides.
pub open spec fn table_materialized<M>(
    materialize: M,
    table: AtomicTable,
    before: MaterializationContext,
    after: MaterializationContext,
    r: AtomicTable,
) -> bool where
    M: Fn(Vec<Transform>, MaterializationContext, Option<usize>) -> Result<
        (Vec<Transform>, MaterializedFrame, MaterializationContext),
        Error,
    >,
 {
    &&& r.name == table.name
    &&& r.frame is Some
    &&& call_ensures(
        materialize,
        (table.pipeline, before, table_id(table)),
        Ok((r.pipeline, r.frame->0, after)),
    )
}

/// Tables are materialized one after the other, each with the declarations that the one before
/// it left.
pub open spec fn tables_materialized<M>(
    materialize: M,
    tables: Seq<AtomicTable>,
    contexts: Seq<MaterializationContext>,
    r: Seq<AtomicTable>,
) -> bool where
    M: Fn(Vec<Transform>, MaterializationContext, Option<usize>) -> Result<
        (Vec<Transform>, MaterializedFrame, MaterializationContext),
        Error,
    >,
 {
    &&& r.len() == tables.len()
    &&& contexts.len() == tables.len() + 1
    &&& forall|k: int|
        0 <= k < tables.len() ==> table_materialized(
            materialize,
            #[trigger] tables[k],
            contexts[k],
            contexts[k + 1],
            r[k],
        )
}

/// The pass can be called on each of the tables, with whatever declarations those before it may
/// leave.
pub open spec fn can_materialize<M>(
    materialize: M,
    tables: Seq<AtomicTable>,
    context: MaterializationContext,
) -> bool where
    M: Fn(Vec<Transform>, MaterializationContext, Option<usize>) -> Result<
        (Vec<Transform>, MaterializedFrame, MaterializationContext),
        Error,
    >,
 {
    forall|n: int, contexts: Seq<MaterializationContext>, r: Seq<AtomicTable>|
        0 <= n < tables.len() && #[trigger] tables_materialized(
            materialize,
            tables.take(n),
            contexts,
            r,
        ) && contexts[0] == context ==> call_requires(
            materialize,
            (tables[n].pipeline, contexts[n], table_id(tables[n])),
        )
}

/// The tables come out of materializing like this.
pub open spec fn materialized<M>(
    materialize: M,
    tables: Seq<AtomicTable>,
    context: MaterializationContext,
    r: Seq<AtomicTable>,
) -> bool where
    M: Fn(Vec<Transform>, MaterializationContext, Option<usize>) -> Result<
        (Vec<Transform>, MaterializedFrame, MaterializationContext),
        Error,
    >,
 {
    exists|contexts: Seq<MaterializationContext>| #[trigger]
        tables_materialized(materialize, tables, contexts, r) && contexts[0] == context
}

/// Some of the tables are materialized, and the next one fails.
pub open spec fn materializing_fails<M>(
    materialize: M,
    tables: Seq<AtomicTable>,
    context: MaterializationContext,
    e: Error,
) -> bool where
    M: Fn(Vec<Transform>, MaterializationContext, Option<usize>) -> Result<
        (Vec<Transform>, MaterializedFrame, MaterializationContext),
        Error,
    >,
 {
    exists|n: int, contexts: Seq<MaterializationContext>, r: Seq<AtomicTable>|
        0 <= n < tables.len() && #[trigger] tables_materialized(
            materialize,
            tables.take(n),
            contexts,
            r,
        ) && contexts[0] == context && call_ensures(
            materialize,
            (tables[n].pipeline, contexts[n], table_id(tables[n])),
            Err(e),
        )
}

fn table_id_of(table: &AtomicTable) -> (r: Option<usize>)
    ensures
        r == table_id(*table),
{
    match &table.name {
        Some(name) => name.declared_at,
        None => None,
    }
}

/// Materializes tables one after the other.
pub fn materialize_tables<M>(
    tables: Vec<AtomicTable>,
    context: MaterializationContext,
    materialize: &M,
) -> (r: Result<Vec<AtomicTable>, Error>) where
    M: Fn(Vec<Transform>, MaterializationContext, Option<usize>) -> Result<
        (Vec<Transform>, MaterializedFrame, MaterializationContext),
        Error,
    >,

    requires
        can_materialize(*materialize, tables@, context),
    ensures
        match r {
            Ok(v) => materialized(*materialize, tables@, context, v@),
            Err(e) => materializing_fails(*materialize, tables@, context, e),
        },
{
    let ghost all = tables@;
    let mut current = context;
    let ghost mut contexts = seq![context];
    let mut done: Vec<AtomicTable> = Vec::new();
    proof {
        assert(all.take(0) =~= seq![]);
    }
    for t in it: tables
        invariant
            it.seq() == all,
            all == tables@,
            can_materialize(*materialize, all, context),
            tables_materialized(*materialize, all.take(it.index() as int), contexts, done@),
            contexts[0] == context,
            contexts.last() == current,
    {
        let ghost n = it.index() as int;
        let ghost earlier = done@;
        let table_id = table_id_of(&t);
        match materialize(t.pipeline, current, table_id) {
            Ok((pipeline, frame, c)) => {
                let table = AtomicTable { name: t.name, frame: Some(frame), pipeline };
                proof {
                    assert(table_materialized(*materialize, t, current, c, table));
                    let longer = contexts.push(c);
                    let tables = all.take(n + 1);
                    assert forall|k: int| 0 <= k < tables.len() implies table_materialized(
                        *materialize,
                        #[trigger] tables[k],
                        longer[k],
                        longer[k + 1],
                        earlier.push(table)[k],
                    ) by {
                        if k < n {
                            assert(table_materialized(
                                *materialize,
                                all.take(n)[k],
                                contexts[k],
                                contexts[k + 1],
                                earlier[k],
                            ));
                        }
                    }
                    contexts = longer;
                }
                current = c;
                done.push(table);
            },
            Err(e) => {
                return Err(e);
            },
        }
    }
    proof {
        assert(all.take(all.len() as int) =~= all);
    }
    Ok(done)
}

// ---------------------------------------------------------------------------
// Queries
// ---------------------------------------------------------------------------

/// The tables of a query. The main pipeline is the last of them, and has no name.
pub open spec fn query_tables(query: Query, tables: Seq<Table>) -> bool {
    &&& tables.len() == query.tables@.len() + 1
    &&& tables.drop_last() == query.tables@
    &&& tables.last().id is None
    &&& tables.last().name@ == Seq::<char>::empty()
    &&& tables.last().pipeline == query.main_pipeline
}

/// The atomic tables are in the domain of the translation: they can be materialized, and what
/// may come of it can be translated.
pub open spec fn atomics_translatable<M>(
    materialize: M,
    atomics: Seq<AtomicTable>,
    context: MaterializationContext,
    h: DialectHandler,
) -> bool where
    M: Fn(Vec<Transform>, MaterializationContext, Option<usize>) -> Result<
        (Vec<Transform>, MaterializedFrame, MaterializationContext),
        Error,
    >,
 {
    &&& can_materialize(materialize, atomics, context)
    &&& forall|tables: Seq<AtomicTable>| #[trigger]
        materialized(materialize, atomics, context, tables) ==> tables_sql(tables, h) !is Undefined
}

/// The tables are in the domain of the translation: they can be cut, and what may come of it is.
pub open spec fn tables_translatable<G, D, M>(
    un_group: G,
    take_to_distinct: D,
    materialize: M,
    tables: Seq<Table>,
    context: MaterializationContext,
    h: DialectHandler,
) -> bool where
    G: Fn(Vec<Transform>) -> Result<Vec<Transform>, Error>,
    D: Fn(Vec<Transform>, MaterializationContext) -> Result<
        (Vec<Transform>, MaterializationContext),
        Error,
    >,
    M: Fn(Vec<Transform>, MaterializationContext, Option<usize>) -> Result<
        (Vec<Transform>, MaterializedFrame, MaterializationContext),
        Error,
    >,
 {
    &&& can_cut_tables(un_group, take_to_distinct, tables, context)
    &&& forall|atomics: Seq<AtomicTable>, after: MaterializationContext| #[trigger]
        atomized(un_group, take_to_distinct, tables, context, atomics, after)
            ==> atomics_translatable(materialize, atomics, after, h)
}

/// The query is in the domain of the translation: each pass can be called on what the passes
/// before it may leave of this query, and what may be left in the end can be translated.
pub open spec fn query_translatable<G, D, M>(
    un_group: G,
    take_to_distinct: D,
    materialize: M,
    query: Query,
    context: Context,
) -> bool where
    G: Fn(Vec<Transform>) -> Result<Vec<Transform>, Error>,
    D: Fn(Vec<Transform>, MaterializationContext) -> Result<
        (Vec<Transform>, MaterializationContext),
        Error,
    >,
    M: Fn(Vec<Transform>, MaterializationContext, Option<usize>) -> Result<
        (Vec<Transform>, MaterializedFrame, MaterializationContext),
        Error,
    >,
 {
    forall|tables: Seq<Table>| #[trigger]
        query_tables(query, tables) ==> tables_translatable(
            un_group,
            take_to_distinct,
            materialize,
            tables,
            MaterializationContext { declarations: context.declarations },
            query.def.dialect.handled(),
        )
}

/// What translating the atomic tables comes to: they are materialized, and then translated.
pub open spec fn atomics_translated<M>(
    materialize: M,
    atomics: Seq<AtomicTable>,
    context: MaterializationContext,
    h: DialectHandler,
    r: Result<SqlQuery, Error>,
) -> bool where
    M: Fn(Vec<Transform>, MaterializationContext, Option<usize>) -> Result<
        (Vec<Transform>, MaterializedFrame, MaterializationContext),
        Error,
    >,
 {
    ||| r is Err && materializing_fails(materialize, atomics, context, r->Err_0)
    ||| exists|tables: Seq<AtomicTable>| #[trigger]
        materialized(materialize, atomics, context, tables) && agrees(r, tables_sql(tables, h))
}

/// What translating the tables comes to: they are cut, and the pieces are translated.
pub open spec fn tables_translated<G, D, M>(
    un_group: G,
    take_to_distinct: D,
    materialize: M,
    tables: Seq<Table>,
    context: MaterializationContext,
    h: DialectHandler,
    r: Result<SqlQuery, Error>,
) -> bool where
    G: Fn(Vec<Transform>) -> Result<Vec<Transform>, Error>,
    D: Fn(Vec<Transform>, MaterializationContext) -> Result<
        (Vec<Transform>, MaterializationContext),
        Error,
    >,
    M: Fn(Vec<Transform>, MaterializationContext, Option<usize>) -> Result<
        (Vec<Transform>, MaterializedFrame, MaterializationContext),
        Error,
    >,
 {
    ||| r is Err && atomizing_fails(un_group, take_to_distinct, tables, context, r->Err_0)
    ||| exists|atomics: Seq<AtomicTable>, after: MaterializationContext| #[trigger]
        atomized(un_group, take_to_distinct, tables, context, atomics, after)
            && atomics_translated(materialize, atomics, after, h, r)
}

/// What translating a query comes to.
pub open spec fn translated<G, D, M>(
    un_group: G,
    take_to_distinct: D,
    materialize: M,
    query: Query,
    context: Context,
    r: Result<SqlQuery, Error>,
) -> bool where
    G: Fn(Vec<Transform>) -> Result<Vec<Transform>, Error>,
    D: Fn(Vec<Transform>, MaterializationContext) -> Result<
        (Vec<Transform>, MaterializationContext),
        Error,
    >,
    M: Fn(Vec<Transform>, MaterializationContext, Option<usize>) -> Result<
        (Vec<Transform>, MaterializedFrame, MaterializationContext),
        Error,
    >,
 {
    exists|tables: Seq<Table>| #[trigger]
        query_tables(query, tables) && tables_translated(
            un_group,
            take_to_distinct,
            materialize,
            tables,
            MaterializationContext { declarations: context.declarations },
            query.def.dialect.handled(),
            r,
        )
}

/// Translates a query into a SQL tree. Three passes are the caller's: unfolding groups, finding
/// the takes in them that amount to distinct rows, and materializing.
pub fn translate_query<G, D, M>(
    query: Query,
    context: Context,
    un_group: &G,
    take_to_distinct: &D,
    materialize: &M,
) -> (r: Result<SqlQuery, Error>) where
    G: Fn(Vec<Transform>) -> Result<Vec<Transform>, Error>,
    D: Fn(Vec<Transform>, MaterializationContext) -> Result<
        (Vec<Transform>, MaterializationContext),
        Error,
    >,
    M: Fn(Vec<Transform>, MaterializationContext, Option<usize>) -> Result<
        (Vec<Transform>, MaterializedFrame, MaterializationContext),
        Error,
    >,

    requires
        query_translatable(*un_group, *take_to_distinct, *materialize, query, context),
    ensures
        translated(*un_group, *take_to_distinct, *materialize, query, context, r),
{
    let dialect = query.def.dialect.handler();
    let tables = match into_tables(query.main_pipeline, query.tables) {
        Ok(tables) => tables,
        Err(e) => {
            return Err(e);
        },
    };
    proof {
        assert(query_tables(query, tables@));
    }
    let context = MaterializationContext::from(context);
    let ghost all = tables@;
    let ghost start = context;
    let (atomics, context) = match atomic_tables_of_tables(
        tables,
        context,
        un_group,
        take_to_distinct,
    ) {
        Ok(made) => made,
        Err(e) => {
            return Err(e);
        },
    };
    proof {
        assert(atomized(*un_group, *take_to_distinct, all, start, atomics@, context));
    }
    let ghost pieces = atomics@;
    let ghost declared = context;
    let tables = match materialize_tables(atomics, context, materialize) {
        Ok(tables) => tables,
        Err(e) => {
            return Err(e);
        },
    };
    proof {
        assert(materialized(*materialize, pieces, declared, tables@));
    }
    query_of_tables(tables, &dialect)
}

/// A laid out text with the braces of templates put together again: the layout separates two
/// braces that follow each other.
pub open spec fn braced(s: Seq<char>) -> Seq<char> {
    replaced(replaced(s, "{ {"@, "{{"@), "} }"@, "}}"@)
}

/// Puts the braces of templates together again.
pub fn join_braces(s: &str) -> (r: String)
    ensures
        r@ == braced(s@),
{
    proof {
        reveal_strlit("{ {");
        reveal_strlit("} }");
    }
    let opened = replace_all(s, "{ {", "{{");
    replace_all(opened.as_str(), "} }", "}}")
}

/// The text of a query.
pub open spec fn finished(query: QueryView) -> Seq<char> {
    braced(laid_out(query_text(query)))
}

/// Prints a query and lays it out.
pub fn finish(query: &SqlQuery) -> (r: String)
    ensures
        r@ == finished(query@),
{
    let printed = query_to_text(query);
    let formatted = lay_out(printed.as_str());
    join_braces(formatted.as_str())
}

/// Translates a query into SQL. Three passes are the caller's: unfolding groups, finding the
/// takes in them that amount to distinct rows, and materializing.
pub fn translate<G, D, M>(
    query: Query,
    context: Context,
    un_group: &G,
    take_to_distinct: &D,
    materialize: &M,
) -> (r: Result<String, Error>) where
    G: Fn(Vec<Transform>) -> Result<Vec<Transform>, Error>,
    D: Fn(Vec<Transform>, MaterializationContext) -> Result<
        (Vec<Transform>, MaterializationContext),
        Error,
    >,
    M: Fn(Vec<Transform>, MaterializationContext, Option<usize>) -> Result<
        (Vec<Transform>, MaterializedFrame, MaterializationContext),
        Error,
    >,

    requires
        query_translatable(*un_group, *take_to_distinct, *materialize, query, context),
    ensures
        match r {
            Ok(text) => exists|sql: SqlQuery|
                #![trigger translated(
                    *un_group,
                    *take_to_distinct,
                    *materialize,
                    query,
                    context,
                    Ok(sql),
                )]
                translated(*un_group, *take_to_distinct, *materialize, query, context, Ok(sql))
                    && text@ == finished(sql@),
            Err(e) => translated(
                *un_group,
                *take_to_distinct,
                *materialize,
                query,
                context,
                Err(e),
            ),
        },
{
    match translate_query(query, context, un_group, take_to_distinct, materialize) {
        Ok(sql) => {
            let text = finish(&sql);
            proof {
                assert(translated(
                    *un_group,
                    *take_to_distinct,
                    *materialize,
                    query,
                    context,
                    Ok(sql),
                ));
            }
            Ok(text)
        },
        Err(e) => Err(e),
    }
}

// ---------------------------------------------------------------------------
// Laws
// ---------------------------------------------------------------------------

/// The conditions of two pipelines are those of both, one after the other.
proof fn lemma_conditions_concat(a: Seq<Transform>, b: Seq<Transform>)
    ensures
        conditions(a + b) == conditions(a) + conditions(b),
    decreases b.len(),
{
    if b.len() == 0 {
        assert(a + b =~= a);
        assert(conditions(a) + conditions(b) =~= conditions(a));
    } else {
        assert((a + b).drop_last() =~= a + b.drop_last());
        lemma_conditions_concat(a, b.drop_last());
        assert(conditions(a + b) =~= conditions(a) + conditions(b));
    }
}

/// Every condition of a pipeline is written, in order: those before the aggregation select
/// rows, and those after it select groups.
pub proof fn law_conditions_are_kept(pipeline: Seq<Transform>)
    ensures
        where_conditions(pipeline) + having_conditions(pipeline) == conditions(pipeline),
{
    lemma_aggregate_position(pipeline);
    let n = aggregate_position(pipeline);
    assert(pipeline.take(n) + pipeline.skip(n) =~= pipeline);
    lemma_conditions_concat(pipeline.take(n), pipeline.skip(n));
}

/// A pipeline that does not aggregate neither groups nor selects groups.
pub proof fn law_groups_come_from_aggregation(
    pipeline: Seq<Transform>,
    frame: Option<MaterializedFrame>,
    h: DialectHandler,
)
    requires
        forall|i: int| 0 <= i < pipeline.len() ==> (#[trigger] pipeline[i]).kind !is Aggregate,
        query_sql(pipeline, frame, h) is Done,
    ensures
        query_sql(pipeline, frame, h)->Done_0.body.having is None,
        query_sql(pipeline, frame, h)->Done_0.body.group_by.len() == 0,
{
    lemma_aggregate_position(pipeline);
    assert(aggregate_position(pipeline) == pipeline.len());
    assert(pipeline.skip(pipeline.len() as int) =~= seq![]);
}

/// A limit is written once, in the form that the dialect has.
pub proof fn law_one_limit(
    pipeline: Seq<Transform>,
    frame: Option<MaterializedFrame>,
    h: DialectHandler,
)
    requires
        query_sql(pipeline, frame, h) is Done,
    ensures
        ({
            let query = query_sql(pipeline, frame, h)->Done_0;
            let (_, limit) = limits(pipeline)->Done_0;
            &&& query.body.top is Some <==> h.use_top && limit is Some
            &&& query.limit is Some <==> !h.use_top && limit is Some
        }),
{
}

/// No join is lost: if there are any, there is a table that they are written at.
pub proof fn law_joins_are_kept(
    pipeline: Seq<Transform>,
    frame: Option<MaterializedFrame>,
    h: DialectHandler,
)
    requires
        query_sql(pipeline, frame, h) is Done,
        joins(pipeline, h).len() > 0,
    ensures
        ({
            let from = query_sql(pipeline, frame, h)->Done_0.body.from;
            &&& from.len() > 0
            &&& from.last().joins.len() == joins(pipeline, h).len()
            &&& forall|i: int|
                0 <= i < from.last().joins.len() ==> (#[trigger] joins(pipeline, h)[i])
                    == Outcome::Done(from.last().joins[i])
        }),
{
    lemma_collect_done(joins(pipeline, h));
}

/// Skipping and limiting leaves the rows that are left when the ranges of the pipeline are
/// taken in turn. The ranges do not start before the first row, and the limit is not negative.
pub proof fn law_limits_take_the_ranges<A>(rows: Seq<A>, pipeline: Seq<Transform>)
    requires
        forall|i: int|
            0 <= i < ranges(pipeline).len() ==> starts_at_a_row(#[trigger] ranges(pipeline)[i]),
        limits(pipeline) is Done,
        limits(pipeline)->Done_0.1 is Some ==> limits(pipeline)->Done_0.1->0 >= 0,
    ensures
        limited(rows, limits(pipeline)->Done_0.0 as int, limits(pipeline)->Done_0.1)
            == taken_in_turn(rows, ranges(pipeline)),
{
    law_one_range_for_all(rows, ranges(pipeline));
    law_skip_and_limit_take_the_range(rows, aggregated(ranges(pipeline))->Done_0);
}

/// In the conditions of a query too, an operand that holds together less strongly than its
/// operator binds stands in parentheses.
pub proof fn law_conditions_are_parenthesized(
    pipeline: Seq<Transform>,
    frame: Option<MaterializedFrame>,
    h: DialectHandler,
)
    requires
        query_sql(pipeline, frame, h) is Done,
    ensures
        query_sql(pipeline, frame, h)->Done_0.body.selection matches Some(e) ==> well_nested(e),
        query_sql(pipeline, frame, h)->Done_0.body.having matches Some(e) ==> well_nested(e),
{
    law_operands_are_parenthesized(all_of(where_conditions(pipeline)), h);
    law_operands_are_parenthesized(all_of(having_conditions(pipeline)), h);
}

/// Every table but the last becomes a query with the name of the table, in order. A single
/// table needs none.
pub proof fn law_tables_become_named_queries(tables: Seq<AtomicTable>, h: DialectHandler)
    requires
        tables_sql(tables, h) is Done,
    ensures
        ({
            let with = tables_sql(tables, h)->Done_0.with;
            &&& with is None <==> tables.len() == 1
            &&& with is Some ==> {
                &&& with->0.cte_tables.len() == tables.len() - 1
                &&& forall|i: int|
                    0 <= i < tables.len() - 1 ==> {
                        &&& (#[trigger] with->0.cte_tables[i]).alias == ident_part(
                            tables[i].name->0.name@,
                            h,
                        )
                        &&& query_sql(tables[i].pipeline@, tables[i].frame, h) == Outcome::Done(
                            with->0.cte_tables[i].query,
                        )
                    }
            }
        }),
{
    let ctes = ctes_sql(tables.drop_last(), h);
    lemma_collect_done(ctes);
    assert forall|i: int| 0 <= i < tables.len() - 1 implies {
        &&& (#[trigger] collect(ctes)->Done_0[i]).alias == ident_part(tables[i].name->0.name@, h)
        &&& query_sql(tables[i].pipeline@, tables[i].frame, h) == Outcome::Done(
            collect(ctes)->Done_0[i].query,
        )
    } by {
        assert(ctes[i] == Outcome::Done(collect(ctes)->Done_0[i]));
        assert(ctes[i] == cte_sql(tables[i], h));
    }
}

/// A query is translated to one named query for each piece of its tables but the last, and to
/// the query of the last piece. The named queries come in the order of the tables, under the
/// names of the tables and numbered names; there is none if there is only one piece.
pub proof fn law_named_queries<G, D, M>(
    un_group: G,
    take_to_distinct: D,
    materialize: M,
    query: Query,
    context: Context,
    sql: SqlQuery,
) where
    G: Fn(Vec<Transform>) -> Result<Vec<Transform>, Error>,
    D: Fn(Vec<Transform>, MaterializationContext) -> Result<
        (Vec<Transform>, MaterializationContext),
        Error,
    >,
    M: Fn(Vec<Transform>, MaterializationContext, Option<usize>) -> Result<
        (Vec<Transform>, MaterializedFrame, MaterializationContext),
        Error,
    >,

    requires
        translated(un_group, take_to_distinct, materialize, query, context, Ok(sql)),
    ensures
        exists|tables: Seq<Table>, stages: Seq<Stage>, atomics: Seq<AtomicTable>|
            {
                &&& query_tables(query, tables)
                &&& #[trigger] cut_tables(
                    un_group,
                    take_to_distinct,
                    tables,
                    MaterializationContext { declarations: context.declarations },
                    stages,
                    atomics,
                )
                &&& named_queries(sql@, tables, stages, atomics, query.def.dialect.handled())
            },
{
    let h = query.def.dialect.handled();
    let start = MaterializationContext { declarations: context.declarations };
    let r = Ok::<SqlQuery, Error>(sql);
    let tables = choose|tables: Seq<Table>| #[trigger]
        query_tables(query, tables) && tables_translated(
            un_group,
            take_to_distinct,
            materialize,
            tables,
            start,
            h,
            r,
        );
    let (atomics, after) = choose|atomics: Seq<AtomicTable>, after: MaterializationContext|
        #[trigger] atomized(un_group, take_to_distinct, tables, start, atomics, after)
            && atomics_translated(materialize, atomics, after, h, r);
    let out = choose|out: Seq<AtomicTable>| #[trigger]
        materialized(materialize, atomics, after, out) && agrees(r, tables_sql(out, h));
    let contexts = choose|contexts: Seq<MaterializationContext>| #[trigger]
        tables_materialized(materialize, atomics, contexts, out) && contexts[0] == after;
    let stages = choose|stages: Seq<Stage>| #[trigger]
        cut_tables(un_group, take_to_distinct, tables, start, stages, atomics)
            && stages.last().context == after;
    law_pieces_are_named(un_group, take_to_distinct, tables, start, atomics, after);
    law_tables_become_named_queries(out, h);
    assert forall|k: int, i: int|
        0 <= k < tables.len() && stages[k].count <= i < stages[k + 1].count && i < atomics.len()
            - 1 implies (#[trigger] sql@.with->0.cte_tables[i]).alias == ident_part(
        #[trigger] piece_name(tables, stages, k, i),
        h,
    ) by {
        law_names_in_order(un_group, take_to_distinct, tables, start, stages, atomics, k, i);
        assert(table_materialized(
            materialize,
            atomics[i],
            contexts[i],
            contexts[i + 1],
            out[i],
        ));
    }
    assert(named_queries(sql@, tables, stages, atomics, h));
}

/// There is one named query for each piece but the last, with its name.
pub open spec fn named_queries(
    sql: QueryView,
    tables: Seq<Table>,
    stages: Seq<Stage>,
    atomics: Seq<AtomicTable>,
    h: DialectHandler,
) -> bool {
    &&& atomics.len() >= 1
    &&& sql.with is None <==> atomics.len() == 1
    &&& sql.with matches Some(with) ==> {
        &&& !with.recursive
        &&& with.cte_tables.len() == atomics.len() - 1
    }
    &&& forall|k: int, i: int|
        0 <= k < tables.len() && stages[k].count <= i < stages[k + 1].count && i < atomics.len()
            - 1 ==> (#[trigger] sql.with->0.cte_tables[i]).alias == ident_part(
            #[trigger] piece_name(tables, stages, k, i),
            h,
        )
}

/// A query with a pipeline of which the passes leave no transform is refused.
pub proof fn law_empty_pipelines_are_refused<G, D, M>(
    un_group: G,
    take_to_distinct: D,
    materialize: M,
    query: Query,
    context: Context,
    r: Result<SqlQuery, Error>,
    pipeline: Vec<Transform>,
) where
    G: Fn(Vec<Transform>) -> Result<Vec<Transform>, Error>,
    D: Fn(Vec<Transform>, MaterializationContext) -> Result<
        (Vec<Transform>, MaterializationContext),
        Error,
    >,
    M: Fn(Vec<Transform>, MaterializationContext, Option<usize>) -> Result<
        (Vec<Transform>, MaterializedFrame, MaterializationContext),
        Error,
    >,

    requires
        translated(un_group, take_to_distinct, materialize, query, context, r),
        pipeline == query.main_pipeline || exists|i: int|
            0 <= i < query.tables@.len() && (#[trigger] query.tables@[i]).pipeline == pipeline,
        always_empty(un_group, take_to_distinct, pipeline),
    ensures
        r is Err,
{
    let h = query.def.dialect.handled();
    let start = MaterializationContext { declarations: context.declarations };
    let tables = choose|tables: Seq<Table>| #[trigger]
        query_tables(query, tables) && tables_translated(
            un_group,
            take_to_distinct,
            materialize,
            tables,
            start,
            h,
            r,
        );
    if r is Ok {
        let (atomics, after) = choose|atomics: Seq<AtomicTable>, after: MaterializationContext|
            #[trigger] atomized(un_group, take_to_distinct, tables, start, atomics, after)
                && atomics_translated(materialize, atomics, after, h, r);
        let k = if pipeline == query.main_pipeline {
            tables.len() - 1
        } else {
            choose|i: int|
                0 <= i < query.tables@.len() && (#[trigger] query.tables@[i]).pipeline == pipeline
        };
        assert(k < query.tables@.len() ==> tables[k] == tables.drop_last()[k]);
        law_empty_tables_are_refused(
            un_group,
            take_to_distinct,
            tables,
            start,
            atomics,
            after,
            k,
        );
    }
}

// ---------------------------------------------------------------------------
// The domain
// ---------------------------------------------------------------------------

/// Every expression of a list is in the domain of the translation.
pub open spec fn all_translatable(exprs: Seq<Expr>) -> bool {
    forall|i: int| 0 <= i < exprs.len() ==> translatable((#[trigger] exprs[i]).kind)
}

/// The expressions of a transform that are written are in the domain of the translation.
pub open spec fn transform_translatable(t: Transform) -> bool {
    match t.kind {
        TransformKind::Filter(condition) => translatable(condition.kind),
        TransformKind::Join { filter: JoinFilter::On(conditions), .. } => all_translatable(
            conditions@,
        ),
        TransformKind::Aggregate { by, .. } => all_translatable(by@),
        _ => true,
    }
}

/// The columns and the order of a frame are in the domain of the translation.
pub open spec fn frame_translatable(frame: MaterializedFrame) -> bool {
    &&& all_translatable(frame.columns@)
    &&& forall|i: int|
        0 <= i < frame.sort@.len() ==> translatable((#[trigger] frame.sort@[i]).column.kind)
}

/// The expressions of a pipeline and of its frame, if it has one, are in the domain of the
/// translation, and its ranges can be counted without overflow.
pub open spec fn select_translatable(
    pipeline: Seq<Transform>,
    frame: Option<MaterializedFrame>,
) -> bool {
    &&& forall|i: int| 0 <= i < pipeline.len() ==> transform_translatable(#[trigger] pipeline[i])
    &&& frame matches Some(f) ==> frame_translatable(f)
    &&& limits(pipeline) !is Undefined
}

/// A conjunction of translatable conditions is translatable.
proof fn lemma_filter_translatable(conditions: Seq<ExprKind>, h: DialectHandler)
    requires
        forall|i: int| 0 <= i < conditions.len() ==> translatable(#[trigger] conditions[i]),
    ensures
        filter_sql(conditions, h) !is Undefined,
        conditions.len() > 0 ==> translatable(all_of(conditions)),
    decreases conditions.len(),
{
    if conditions.len() > 1 {
        let shorter = conditions.drop_last();
        assert forall|i: int| 0 <= i < shorter.len() implies translatable(
            #[trigger] shorter[i],
        ) by {
            assert(translatable(conditions[i]));
        }
        lemma_filter_translatable(shorter, h);
        assert(translatable(conditions[conditions.len() - 1]));
    } else if conditions.len() == 1 {
        assert(translatable(conditions[0]));
    }
    if conditions.len() > 0 {
        law_domain(all_of(conditions), h);
    }
}

/// The conditions of a translatable pipeline are translatable.
proof fn lemma_conditions_translatable(pipeline: Seq<Transform>)
    requires
        forall|i: int| 0 <= i < pipeline.len() ==> transform_translatable(#[trigger] pipeline[i]),
    ensures
        forall|i: int|
            0 <= i < conditions(pipeline).len() ==> translatable(#[trigger] conditions(pipeline)[i]),
    decreases pipeline.len(),
{
    if pipeline.len() > 0 {
        let shorter = pipeline.drop_last();
        assert forall|i: int| 0 <= i < shorter.len() implies transform_translatable(
            #[trigger] shorter[i],
        ) by {
            assert(transform_translatable(pipeline[i]));
        }
        lemma_conditions_translatable(shorter);
        assert(transform_translatable(pipeline[pipeline.len() - 1]));
        assert forall|i: int| 0 <= i < conditions(pipeline).len() implies translatable(
            #[trigger] conditions(pipeline)[i],
        ) by {
            if i < conditions(shorter).len() {
                assert(translatable(conditions(shorter)[i]));
            }
        }
    }
}

/// The joins of a translatable pipeline are translated or refused.
proof fn lemma_joins_translatable(pipeline: Seq<Transform>, h: DialectHandler)
    requires
        forall|i: int| 0 <= i < pipeline.len() ==> transform_translatable(#[trigger] pipeline[i]),
    ensures
        collect(joins(pipeline, h)) !is Undefined,
    decreases pipeline.len(),
{
    if pipeline.len() > 0 {
        let shorter = pipeline.drop_last();
        assert forall|i: int| 0 <= i < shorter.len() implies transform_translatable(
            #[trigger] shorter[i],
        ) by {
            assert(transform_translatable(pipeline[i]));
        }
        lemma_joins_translatable(shorter, h);
        let last = pipeline[pipeline.len() - 1];
        assert(transform_translatable(last));
        if let TransformKind::Join { filter, .. } = last.kind {
            match filter {
                JoinFilter::On(conditions) => {
                    let all = kinds(conditions@);
                    assert forall|i: int| 0 <= i < all.len() implies translatable(
                        #[trigger] all[i],
                    ) by {
                        assert(translatable(conditions@[i].kind));
                    }
                    lemma_filter_translatable(all, h);
                },
                JoinFilter::Using(columns) => {
                    lemma_collect_undefined(using_columns(columns@, h));
                },
            }
            assert(joins(pipeline, h).drop_last() =~= joins(shorter, h));
        }
    }
}

/// A pipeline whose conditions, join conditions, groups, columns and order do not coalesce and
/// have no smallest integer as the bound of a window, and whose ranges can be counted without
/// overflow, is translated, or refused with an error.
pub proof fn law_domain_of_a_select(
    pipeline: Seq<Transform>,
    frame: Option<MaterializedFrame>,
    h: DialectHandler,
)
    requires
        select_translatable(pipeline, frame),
    ensures
        query_sql(pipeline, frame, h) !is Undefined,
{
    lemma_aggregate_position(pipeline);
    let n = aggregate_position(pipeline);
    let before = pipeline.take(n);
    let after = pipeline.skip(n);
    assert forall|i: int| 0 <= i < before.len() implies transform_translatable(
        #[trigger] before[i],
    ) by {
        assert(transform_translatable(pipeline[i]));
    }
    assert forall|i: int| 0 <= i < after.len() implies transform_translatable(
        #[trigger] after[i],
    ) by {
        assert(transform_translatable(pipeline[n + i]));
    }
    lemma_joins_translatable(pipeline, h);
    lemma_conditions_translatable(before);
    lemma_conditions_translatable(after);
    lemma_filter_translatable(where_conditions(pipeline), h);
    lemma_filter_translatable(having_conditions(pipeline), h);
    if n < pipeline.len() {
        assert(transform_translatable(pipeline[n]));
    }
    let by = exprs_sql(grouping(pipeline), h);
    assert forall|i: int| 0 <= i < by.len() implies (#[trigger] by[i]) !is Undefined by {
        law_domain(grouping(pipeline)[i].kind, h);
    }
    lemma_collect_undefined(by);
    if let Some(f) = frame {
        let columns = select_items(f.columns@, h);
        assert forall|i: int| 0 <= i < columns.len() implies (
        #[trigger] columns[i]) !is Undefined by {
            law_domain(f.columns@[i].kind, h);
        }
        lemma_collect_undefined(columns);
        let order = sorts_sql(f.sort@, h);
        assert forall|i: int| 0 <= i < order.len() implies (#[trigger] order[i]) !is Undefined by {
            law_domain(f.sort@[i].column.kind, h);
        }
        lemma_collect_undefined(order);
    }
}

/// Tables of which each is in the domain of the translation, and all but the last have a name,
/// are translated, or refused with an error.
pub proof fn law_domain_of_tables(tables: Seq<AtomicTable>, h: DialectHandler)
    requires
        forall|i: int|
            0 <= i < tables.len() ==> select_translatable(
                (#[trigger] tables[i]).pipeline@,
                tables[i].frame,
            ),
        forall|i: int| 0 <= i < tables.len() - 1 ==> (#[trigger] tables[i]).name is Some,
    ensures
        tables_sql(tables, h) !is Undefined,
{
    if tables.len() > 0 {
        let ctes = ctes_sql(tables.drop_last(), h);
        assert forall|i: int| 0 <= i < ctes.len() implies (#[trigger] ctes[i]) !is Undefined by {
            assert(tables[i].name is Some);
            law_domain_of_a_select(tables[i].pipeline@, tables[i].frame, h);
        }
        lemma_collect_undefined(ctes);
        let last = tables[tables.len() - 1];
        law_domain_of_a_select(last.pipeline@, last.frame, h);
    }
}

/// A query is in the domain of the translation if each pass can be called on what the passes
/// before it may leave of the query, and every table that may be left in the end is. That the
/// tables have names needs no premise.
pub proof fn law_domain_of_queries<G, D, M>(
    un_group: G,
    take_to_distinct: D,
    materialize: M,
    query: Query,
    context: Context,
) where
    G: Fn(Vec<Transform>) -> Result<Vec<Transform>, Error>,
    D: Fn(Vec<Transform>, MaterializationContext) -> Result<
        (Vec<Transform>, MaterializationContext),
        Error,
    >,
    M: Fn(Vec<Transform>, MaterializationContext, Option<usize>) -> Result<
        (Vec<Transform>, MaterializedFrame, MaterializationContext),
        Error,
    >,

    requires
        ({
            let start = MaterializationContext { declarations: context.declarations };
            forall|tables: Seq<Table>| #[trigger]
                query_tables(query, tables) ==> {
                    &&& can_cut_tables(un_group, take_to_distinct, tables, start)
                    &&& forall|atomics: Seq<AtomicTable>, after: MaterializationContext|
                        #[trigger] atomized(
                            un_group,
                            take_to_distinct,
                            tables,
                            start,
                            atomics,
                            after,
                        ) ==> {
                            &&& can_materialize(materialize, atomics, after)
                            &&& forall|out: Seq<AtomicTable>, i: int| #[trigger]
                                materialized(materialize, atomics, after, out) && 0 <= i
                                    < out.len() ==> select_translatable(
                                    (#[trigger] out[i]).pipeline@,
                                    out[i].frame,
                                )
                        }
                }
        }),
    ensures
        query_translatable(un_group, take_to_distinct, materialize, query, context),
{
    let h = query.def.dialect.handled();
    let start = MaterializationContext { declarations: context.declarations };
    assert forall|tables: Seq<Table>| #[trigger]
        query_tables(query, tables) implies tables_translatable(
        un_group,
        take_to_distinct,
        materialize,
        tables,
        start,
        h,
    ) by {
        assert forall|atomics: Seq<AtomicTable>, after: MaterializationContext| #[trigger]
            atomized(
                un_group,
                take_to_distinct,
                tables,
                start,
                atomics,
                after,
            ) implies atomics_translatable(materialize, atomics, after, h) by {
            law_pieces_are_named(un_group, take_to_distinct, tables, start, atomics, after);
            assert forall|out: Seq<AtomicTable>| #[trigger]
                materialized(materialize, atomics, after, out) implies tables_sql(
                out,
                h,
            ) !is Undefined by {
                let contexts = choose|contexts: Seq<MaterializationContext>| #[trigger]
                    tables_materialized(materialize, atomics, contexts, out) && contexts[0]
                        == after;
                assert forall|i: int| 0 <= i < out.len() implies (
                #[trigger] out[i]).name is Some by {
                    assert(atomics[i].name is Some);
                    assert(table_materialized(
                        materialize,
                        atomics[i],
                        contexts[i],
                        contexts[i + 1],
                        out[i],
                    ));
                }
                law_domain_of_tables(out, h);
            }
        }
    }
}

} // verus!
